use av_metrics::error::MetricsError;
use av_metrics::frame::{ChromaSamplePosition, ChromaSampling, FrameInfo, PlaneData};
use av_metrics::pixel::{CastFromPrimitive, Pixel, PixelType};

fn plane(width: usize, height: usize, data: Vec<u8>) -> PlaneData<u8> {
    PlaneData { width, height, data }
}

fn frame420(w: usize, h: usize, fill: u8) -> FrameInfo<u8> {
    let (cw, ch) = ChromaSampling::Cs420.get_chroma_dimensions(w, h);
    FrameInfo {
        planes: [
            plane(w, h, vec![fill; w * h]),
            plane(cw, ch, vec![fill; cw * ch]),
            plane(cw, ch, vec![fill; cw * ch]),
        ],
        bit_depth: 8,
        chroma_sampling: ChromaSampling::Cs420,
    }
}

#[test]
fn decimation_per_sampling() {
    assert_eq!(ChromaSampling::Cs420.get_decimation(), Some((1, 1)));
    assert_eq!(ChromaSampling::Cs422.get_decimation(), Some((1, 0)));
    assert_eq!(ChromaSampling::Cs444.get_decimation(), Some((0, 0)));
    assert_eq!(ChromaSampling::Cs400.get_decimation(), None);
}

#[test]
fn chroma_dimensions_round_up() {
    assert_eq!(ChromaSampling::Cs420.get_chroma_dimensions(5, 3), (3, 2));
    assert_eq!(ChromaSampling::Cs420.get_chroma_dimensions(4, 4), (2, 2));
    assert_eq!(ChromaSampling::Cs422.get_chroma_dimensions(5, 3), (3, 3));
    assert_eq!(ChromaSampling::Cs444.get_chroma_dimensions(5, 3), (5, 3));
    assert_eq!(ChromaSampling::Cs400.get_chroma_dimensions(5, 3), (0, 0));
}

#[test]
fn chroma_weights_in_quarters() {
    assert_eq!(ChromaSampling::Cs420.get_chroma_weight_quarters(), 1);
    assert_eq!(ChromaSampling::Cs422.get_chroma_weight_quarters(), 2);
    assert_eq!(ChromaSampling::Cs444.get_chroma_weight_quarters(), 4);
    assert_eq!(ChromaSampling::Cs400.get_chroma_weight_quarters(), 0);
}

#[test]
fn defaults() {
    assert_eq!(ChromaSampling::default(), ChromaSampling::Cs420);
    assert_eq!(ChromaSamplePosition::default(), ChromaSamplePosition::Unknown);
}

#[test]
fn comparable_frames() {
    let a = frame420(4, 4, 1);
    let b = frame420(4, 4, 2);
    assert!(a.can_compare(&b).is_ok());
}

#[test]
fn bit_depth_mismatch_is_input_mismatch() {
    let a = frame420(4, 4, 1);
    let mut b = frame420(4, 4, 1);
    b.bit_depth = 10;
    assert!(matches!(a.can_compare(&b), Err(MetricsError::InputMismatch { .. })));
}

#[test]
fn bit_depth_above_sixteen_is_unsupported() {
    let mut a = frame420(4, 4, 1);
    let mut b = frame420(4, 4, 1);
    a.bit_depth = 17;
    b.bit_depth = 17;
    assert!(matches!(a.can_compare(&b), Err(MetricsError::UnsupportedInput { .. })));
}

#[test]
fn sampling_mismatch_is_input_mismatch() {
    let a = frame420(4, 4, 1);
    let mut b = frame420(4, 4, 1);
    b.chroma_sampling = ChromaSampling::Cs422;
    assert!(matches!(a.can_compare(&b), Err(MetricsError::InputMismatch { .. })));
}

#[test]
fn resolution_mismatch_is_input_mismatch() {
    let a = frame420(4, 4, 1);
    let b = frame420(6, 4, 1);
    assert!(matches!(a.can_compare(&b), Err(MetricsError::InputMismatch { .. })));
    assert!(matches!(a.planes[0].can_compare(&b.planes[0]), Err(MetricsError::InputMismatch { .. })));
}

#[test]
fn pixel_casts_and_widths() {
    assert_eq!(<u8 as CastFromPrimitive<u16>>::cast_from(0x1234u16), 0x34u8);
    assert_eq!(<u16 as CastFromPrimitive<u8>>::cast_from(200u8), 200u16);
    assert_eq!(<i32 as CastFromPrimitive<u16>>::cast_from(65535u16), 65535i32);
    assert_eq!(<u8 as Pixel>::type_enum(), PixelType::U8);
    assert_eq!(<u16 as Pixel>::type_enum(), PixelType::U16);
    assert_eq!(1023u16.to_u32(), 1023u32);
}

use av_metrics::decode::{clamp, convert_chroma_data, copy_from_raw_u8, frame_from_raw};
use av_metrics::driver::{check_video_pair, finish_video, should_decode_next};
use av_metrics::error::MetricsError;
use av_metrics::frame::{ChromaSamplePosition, ChromaSampling, PlaneData};
use av_metrics::metric_state::{MetricData, MetricState, MetricType};
use av_metrics::pixel::PixelType;
use av_metrics::video::{
    get_chroma_sampling, map_y4m_color_space, Colorspace, InputType, Rational, VideoContainer, VideoDetails,
};

#[test]
fn raw_bytes_to_8_bit_samples() {
    let r: Vec<u8> = copy_from_raw_u8(&[1, 2, 255], 1);
    assert_eq!(r, vec![1, 2, 255]);
}

#[test]
fn raw_bytes_to_16_bit_samples_little_endian() {
    let r: Vec<u16> = copy_from_raw_u8(&[0x34, 0x12, 0xff, 0x03], 2);
    assert_eq!(r, vec![0x1234, 0x03ff]);
}

#[test]
fn clamp_limits() {
    assert_eq!(clamp(-5, 0, 255), 0);
    assert_eq!(clamp(300, 0, 255), 255);
    assert_eq!(clamp(7, 0, 255), 7);
}

#[test]
fn colocated_chroma_is_copied_row_by_row() {
    let mut p = PlaneData { width: 2, height: 2, data: vec![0u8; 4] };
    convert_chroma_data(&mut p, ChromaSamplePosition::Colocated, 8, &[1, 2, 99, 3, 4, 99], 3, 1);
    assert_eq!(p.data, vec![1, 2, 3, 4]);
}

#[test]
fn vertical_chroma_is_realigned() {
    let mut p = PlaneData { width: 7, height: 1, data: vec![0u8; 7] };
    convert_chroma_data(&mut p, ChromaSamplePosition::Vertical, 8, &[10, 200, 30, 255, 0, 128, 64], 7, 1);
    assert_eq!(p.data, vec![62, 167, 71, 221, 0, 135, 54]);
}

#[test]
fn vertical_chroma_of_16_bit_samples() {
    let mut p = PlaneData { width: 1, height: 1, data: vec![0u16; 1] };
    convert_chroma_data(&mut p, ChromaSamplePosition::Vertical, 10, &[0xff, 0x03], 2, 2);
    assert_eq!(p.data, vec![1023]);
}

#[test]
fn mismatched_bit_depths_are_rejected() {
    assert_eq!(
        check_video_pair(8, 10, ChromaSampling::Cs420, ChromaSampling::Cs420),
        Err(MetricsError::InputMismatch { reason: "Bit depths do not match" })
    );
}

#[test]
fn mismatched_samplings_are_rejected() {
    assert!(matches!(
        check_video_pair(8, 8, ChromaSampling::Cs420, ChromaSampling::Cs444),
        Err(MetricsError::InputMismatch { .. })
    ));
}

#[test]
fn sample_type_follows_bit_depth() {
    assert_eq!(check_video_pair(8, 8, ChromaSampling::Cs420, ChromaSampling::Cs420), Ok(PixelType::U8));
    assert_eq!(check_video_pair(10, 10, ChromaSampling::Cs444, ChromaSampling::Cs444), Ok(PixelType::U16));
}

#[test]
fn producer_respects_frame_limit() {
    assert!(should_decode_next(0, None));
    assert!(should_decode_next(2, Some(3)));
    assert!(!should_decode_next(3, Some(3)));
    assert!(!should_decode_next(0, Some(0)));
}

#[test]
fn empty_video_is_unsupported() {
    let r = finish_video::<u64>(vec![], None, None);
    assert!(matches!(r, Err(MetricsError::UnsupportedInput { .. })));
}

#[test]
fn recorded_failures_come_first() {
    let r = finish_video(vec![1u64], Some("send".to_string()), Some("process".to_string()));
    assert_eq!(r, Err(MetricsError::SendError { reason: "send".to_string() }));
    let r = finish_video(vec![1u64], None, Some("process".to_string()));
    assert_eq!(r, Err(MetricsError::ProcessError { reason: "process".to_string() }));
    assert_eq!(finish_video(vec![1u64, 2], None, None), Ok(vec![1, 2]));
}

#[test]
fn rationals() {
    let r = Rational::new(30000, 1001);
    assert_eq!((r.num, r.den), (30000, 1001));
    let f = Rational::from_reciprocal(r);
    assert_eq!((f.num, f.den), (1001, 30000));
}

#[test]
fn default_video_details() {
    let d = VideoDetails::default();
    assert_eq!((d.width, d.height, d.bit_depth), (640, 480, 8));
    assert_eq!(d.chroma_sampling, ChromaSampling::Cs420);
    assert_eq!(d.time_base, Rational::new(30, 1));
}

#[test]
fn y4m_colorspaces_map_to_sampling_and_position() {
    assert_eq!(map_y4m_color_space(Colorspace::Cmono), (ChromaSampling::Cs400, ChromaSamplePosition::Unknown));
    assert_eq!(map_y4m_color_space(Colorspace::C420jpeg), (ChromaSampling::Cs420, ChromaSamplePosition::Bilateral));
    assert_eq!(map_y4m_color_space(Colorspace::C420paldv), (ChromaSampling::Cs420, ChromaSamplePosition::Interpolated));
    assert_eq!(map_y4m_color_space(Colorspace::C420mpeg2), (ChromaSampling::Cs420, ChromaSamplePosition::Vertical));
    assert_eq!(map_y4m_color_space(Colorspace::C420p10), (ChromaSampling::Cs420, ChromaSamplePosition::Colocated));
    assert_eq!(map_y4m_color_space(Colorspace::C422p12), (ChromaSampling::Cs422, ChromaSamplePosition::Vertical));
    assert_eq!(map_y4m_color_space(Colorspace::C444), (ChromaSampling::Cs444, ChromaSamplePosition::Colocated));
}

#[test]
fn y4m_colorspaces_map_to_sampling() {
    assert_eq!(get_chroma_sampling(Colorspace::Cmono12), ChromaSampling::Cs400);
    assert_eq!(get_chroma_sampling(Colorspace::C420paldv), ChromaSampling::Cs420);
    assert_eq!(get_chroma_sampling(Colorspace::C422p10), ChromaSampling::Cs422);
    assert_eq!(get_chroma_sampling(Colorspace::C444p12), ChromaSampling::Cs444);
}

#[test]
fn input_type_by_extension() {
    assert_eq!(InputType::detect("clip.y4m"), InputType::Video(VideoContainer::Y4M));
    assert_eq!(InputType::detect("dir/CLIP.Y4M"), InputType::Video(VideoContainer::Y4M));
    assert_eq!(InputType::detect("clip.mp4"), InputType::Unknown);
    assert_eq!(InputType::detect("y4m"), InputType::Unknown);
    assert_eq!(InputType::from_extension("y4m"), InputType::Video(VideoContainer::Y4M));
    assert_eq!(InputType::from_extension("Y4M"), InputType::Unknown);
}

#[derive(Clone, Debug, PartialEq)]
struct Score(u32);

impl MetricType for Score {}

#[test]
fn metric_data_lifecycle() {
    let mut d: MetricData<Score> = MetricData::new("PSNR");
    assert_eq!(d.name, "PSNR");
    assert_eq!(d.state, MetricState::default());
    assert_eq!(d.value, None);
    d.update(Score(7));
    assert!(d.state.is_computed && d.state.show && !d.state.is_computing);
    assert_eq!(d.value, Some(Score(7)));
    d.reset();
    assert_eq!(d.state, MetricState::default());
    assert_eq!(d.value, None);
}

#[test]
fn frame_built_from_raw_planes() {
    let f = frame_from_raw::<u8>(&[1, 2, 3, 4, 5, 6], &[7, 8], &[9, 10], 3, 2, 8, Colorspace::C420).unwrap();
    assert_eq!(f.chroma_sampling, ChromaSampling::Cs420);
    assert_eq!((f.planes[1].width, f.planes[1].height), (2, 1));
    assert_eq!(f.planes[0].data, vec![1, 2, 3, 4, 5, 6]);
    assert_eq!(f.planes[2].data, vec![9, 10]);
}

#[test]
fn frame_from_raw_16_bit_little_endian() {
    let f = frame_from_raw::<u16>(&[0xff, 0x03, 0, 1], &[], &[], 2, 1, 10, Colorspace::Cmono).unwrap();
    assert_eq!(f.planes[0].data, vec![1023, 256]);
    assert!(f.planes[1].data.is_empty());
}

#[test]
fn frame_from_raw_rejects_bad_input() {
    assert!(frame_from_raw::<u8>(&[1, 2, 3], &[7], &[9], 2, 2, 8, Colorspace::C420).is_none());
    assert!(frame_from_raw::<u16>(&[0, 4, 0, 0], &[], &[], 2, 1, 10, Colorspace::Cmono).is_none());
    assert!(frame_from_raw::<u16>(&[1, 0, 2, 0], &[], &[], 2, 1, 8, Colorspace::Cmono).is_none());
    assert!(frame_from_raw::<u8>(&[1, 2], &[], &[], 2, 1, 10, Colorspace::Cmono).is_none());
}

use av_metrics::error::MetricsError;
use av_metrics::frame::{ChromaSampling, FrameInfo, PlaneData};
use av_metrics::psnr::{
    aggregate_psnr_metrics, calculate_frame_psnr_metrics, calculate_plane_psnr_metrics,
    calculate_plane_total_squared_error, calculate_summed_psnr, PsnrMetrics,
};

fn plane<T>(width: usize, height: usize, data: Vec<T>) -> PlaneData<T>
where
    T: av_metrics::pixel::Pixel,
{
    PlaneData { width, height, data }
}

fn frame(y: Vec<u8>, u: Vec<u8>, v: Vec<u8>) -> FrameInfo<u8> {
    FrameInfo {
        planes: [plane(2, 2, y), plane(1, 1, u), plane(1, 1, v)],
        bit_depth: 8,
        chroma_sampling: ChromaSampling::Cs420,
    }
}

#[test]
fn squared_error_of_two_planes() {
    let a = plane(2, 2, vec![10u8, 20, 30, 40]);
    let b = plane(2, 2, vec![13u8, 20, 26, 50]);
    assert_eq!(calculate_plane_total_squared_error(&a, &b), 9 + 0 + 16 + 100);
}

#[test]
fn squared_error_of_full_range_difference() {
    let a = plane(1, 1, vec![0u16]);
    let b = plane(1, 1, vec![65535u16]);
    assert_eq!(calculate_plane_total_squared_error(&a, &b), 65535u64 * 65535);
}

#[test]
fn plane_metrics_carry_count_and_peak() {
    let a = plane(2, 2, vec![0u16, 1, 2, 3]);
    let b = plane(2, 2, vec![0u16, 0, 0, 0]);
    let m = calculate_plane_psnr_metrics(&a, &b, 10);
    assert_eq!(m, PsnrMetrics { sq_err: 14, n_pixels: 4, sample_max: 1023 });
    assert!(m.sq_err <= m.n_pixels * m.sample_max * m.sample_max);
}

#[test]
fn identical_frames_are_capped() {
    let f = frame(vec![1, 2, 3, 4], vec![5], vec![6]);
    let m = calculate_frame_psnr_metrics(&f, &f).unwrap();
    assert!(m.iter().all(|p| p.is_capped()));
    assert!(calculate_summed_psnr(&m).unwrap().is_capped());
}

#[test]
fn frame_metrics_are_symmetric() {
    let f1 = frame(vec![1, 2, 3, 4], vec![5], vec![6]);
    let f2 = frame(vec![4, 2, 9, 0], vec![1], vec![16]);
    let a = calculate_frame_psnr_metrics(&f1, &f2).unwrap();
    let b = calculate_frame_psnr_metrics(&f2, &f1).unwrap();
    assert_eq!(a, b);
    assert_eq!(a[0].sq_err, 9 + 0 + 36 + 16);
    assert_eq!(a[1].sq_err, 16);
    assert_eq!(a[2].sq_err, 100);
    assert!(!a[0].is_capped());
}

#[test]
fn pixel_width_mismatch_is_rejected() {
    let mut f = frame(vec![1, 2, 3, 4], vec![5], vec![6]);
    f.bit_depth = 10;
    assert!(matches!(calculate_frame_psnr_metrics(&f, &f), Err(MetricsError::InputMismatch { .. })));
}

#[test]
fn monochrome_summed_equals_luma() {
    let mk = |y: Vec<u8>| FrameInfo {
        planes: [plane(2, 2, y), plane(0, 0, vec![]), plane(0, 0, vec![])],
        bit_depth: 8,
        chroma_sampling: ChromaSampling::Cs400,
    };
    let m = calculate_frame_psnr_metrics(&mk(vec![1, 2, 3, 4]), &mk(vec![2, 2, 3, 1])).unwrap();
    assert_eq!(m[1], PsnrMetrics { sq_err: 0, n_pixels: 0, sample_max: 255 });
    assert_eq!(calculate_summed_psnr(&m), Some(m[0]));
}

#[test]
fn summed_statistics_add_up() {
    let ms = [
        PsnrMetrics { sq_err: 10, n_pixels: 4, sample_max: 255 },
        PsnrMetrics { sq_err: 5, n_pixels: 1, sample_max: 255 },
        PsnrMetrics { sq_err: 1, n_pixels: 1, sample_max: 255 },
    ];
    assert_eq!(calculate_summed_psnr(&ms), Some(PsnrMetrics { sq_err: 16, n_pixels: 6, sample_max: 255 }));
    assert_eq!(calculate_summed_psnr(&[]), Some(PsnrMetrics { sq_err: 0, n_pixels: 0, sample_max: 0 }));
}

#[test]
fn summed_statistics_overflow_is_none() {
    let ms = [
        PsnrMetrics { sq_err: u64::MAX, n_pixels: 1, sample_max: 255 },
        PsnrMetrics { sq_err: 1, n_pixels: 1, sample_max: 255 },
    ];
    assert_eq!(calculate_summed_psnr(&ms), None);
}

#[test]
fn one_frame_video_totals_are_the_frame() {
    let f1 = frame(vec![1, 2, 3, 4], vec![5], vec![6]);
    let f2 = frame(vec![4, 2, 9, 0], vec![1], vec![16]);
    let m = calculate_frame_psnr_metrics(&f1, &f2).unwrap();
    let t = aggregate_psnr_metrics(&[m]).unwrap();
    assert_eq!(t.y, m[0]);
    assert_eq!(t.u, m[1]);
    assert_eq!(t.v, m[2]);
    assert_eq!(Some(t.all), calculate_summed_psnr(&m));
}

#[test]
fn video_totals_over_frames() {
    let a = [
        PsnrMetrics { sq_err: 1, n_pixels: 4, sample_max: 255 },
        PsnrMetrics { sq_err: 2, n_pixels: 1, sample_max: 255 },
        PsnrMetrics { sq_err: 3, n_pixels: 1, sample_max: 255 },
    ];
    let b = [
        PsnrMetrics { sq_err: 10, n_pixels: 4, sample_max: 255 },
        PsnrMetrics { sq_err: 20, n_pixels: 1, sample_max: 255 },
        PsnrMetrics { sq_err: 30, n_pixels: 1, sample_max: 255 },
    ];
    let t = aggregate_psnr_metrics(&[a, b]).unwrap();
    assert_eq!(t.y, PsnrMetrics { sq_err: 11, n_pixels: 8, sample_max: 255 });
    assert_eq!(t.u, PsnrMetrics { sq_err: 22, n_pixels: 2, sample_max: 255 });
    assert_eq!(t.v, PsnrMetrics { sq_err: 33, n_pixels: 2, sample_max: 255 });
    assert_eq!(t.all, PsnrMetrics { sq_err: 66, n_pixels: 12, sample_max: 255 });
}

use av_metrics::ciede::{ciede_row_samples, twice};
use av_metrics::dct::od_bin_fdct8x8;
use av_metrics::frame::{ChromaSampling, FrameInfo, PlaneData};
use av_metrics::psnr_hvs::{block_coefficients, block_moments, block_quadrant, block_starts, extract_block};
use av_metrics::ssim::{
    assemble_gaussian_kernel, calculate_plane_ssim_moments, msssim_downscale, msssim_pyramid, plane_to_vec,
    SsimMoments,
};

fn test_block() -> [i32; 64] {
    let mut b = [0i32; 64];
    for n in 0..64 {
        b[n] = ((n * 37) % 256) as i32;
    }
    b
}

const TEST_BLOCK_DCT: [i32; 64] = [
    972, -47, -42, 27, -33, 22, -18, 8, -102, 67, -210, -52, -5, -36, 9, -11, -42, -209, -182,
    200, -41, 62, -23, 18, 21, -52, 202, 84, -61, -31, 1, -11, -31, -4, -42, -60, -160, 92, -17,
    19, 23, -35, 63, -30, 90, 109, -28, -7, -17, 9, -23, 2, -19, -27, -138, 27, 8, -11, 19, -11,
    19, -6, 26, 124,
];

#[test]
fn dct_of_constant_block_is_dc_only() {
    let mut b = [100i32; 64];
    od_bin_fdct8x8(&mut b);
    assert_eq!(b[0], 800);
    assert!(b[1..].iter().all(|&c| c == 0));
}

#[test]
fn dct_of_mixed_block() {
    let mut b = test_block();
    od_bin_fdct8x8(&mut b);
    assert_eq!(b, TEST_BLOCK_DCT);
}

#[test]
fn dct_of_extreme_block_does_not_overflow() {
    let mut b = [0i32; 64];
    for n in 0..64 {
        b[n] = if (n + n / 8) % 2 == 0 { 32768 } else { -32768 };
    }
    od_bin_fdct8x8(&mut b);
    assert!(b.iter().any(|&c| c != 0));
}

#[test]
fn block_positions_step_by_seven() {
    assert_eq!(block_starts(22), vec![0, 7, 14]);
    assert_eq!(block_starts(15), vec![0, 7]);
    assert_eq!(block_starts(8), vec![0]);
    assert_eq!(block_starts(7), Vec::<usize>::new());
    assert_eq!(block_starts(3), Vec::<usize>::new());
}

#[test]
fn quadrants_of_a_block() {
    assert_eq!(block_quadrant(0, 0), 0);
    assert_eq!(block_quadrant(5, 1), 1);
    assert_eq!(block_quadrant(2, 6), 2);
    assert_eq!(block_quadrant(7, 7), 3);
}

#[test]
fn block_read_from_plane() {
    let mut data = vec![0u8; 10 * 9];
    for y in 0..8 {
        for x in 0..8 {
            data[(y + 1) * 10 + x + 2] = ((y * 8 + x) * 37 % 256) as u8;
        }
    }
    let p = PlaneData { width: 10, height: 9, data };
    assert_eq!(extract_block(&p, 2, 1), test_block());
    assert_eq!(block_coefficients(&p, 2, 1), TEST_BLOCK_DCT);
}

#[test]
fn high_samples_read_as_signed() {
    let p = PlaneData { width: 8, height: 8, data: vec![40000u16; 64] };
    assert_eq!(extract_block(&p, 0, 0)[0], 40000 - 65536);
}

#[test]
fn downscale_sums_four_samples() {
    let input: Vec<u32> = (1..=20).collect();
    assert_eq!(msssim_downscale(&input, 5, 4), vec![16, 24, 56, 64]);
}

#[test]
fn downscale_of_odd_plane_clamps_edges() {
    let input: Vec<u32> = vec![1, 2, 3, 4, 5, 6, 7, 8, 9];
    assert_eq!(msssim_downscale(&input, 3, 3), vec![12]);
    assert_eq!(msssim_downscale(&input, 1, 1), Vec::<u32>::new());
}

fn m(v: [i64; 6]) -> SsimMoments {
    SsimMoments { mux: v[0], muy: v[1], x2: v[2], xy: v[3], y2: v[4], w: v[5] }
}

#[test]
fn ssim_moments_of_small_planes() {
    let p1: Vec<u32> = (1..=9).collect();
    let p2: Vec<u32> = (1..=9).rev().collect();
    let k = [1i64, 2, 1];
    let r = calculate_plane_ssim_moments(&p1, &p2, 3, 3, 255, &k, &k);
    let expected = vec![
        m([21, 69, 69, 141, 549, 9]),
        m([36, 84, 138, 222, 618, 12]),
        m([33, 57, 141, 189, 381, 9]),
        m([52, 68, 282, 238, 442, 12]),
        m([80, 80, 480, 320, 480, 16]),
        m([68, 52, 442, 238, 282, 12]),
        m([57, 33, 381, 189, 141, 9]),
        m([84, 36, 618, 222, 138, 12]),
        m([69, 21, 549, 141, 69, 9]),
    ];
    assert_eq!(r, expected);
}

#[test]
fn ssim_moments_swap_with_planes() {
    let p1: Vec<u32> = vec![3, 1, 4, 1, 5, 9, 2, 6];
    let p2: Vec<u32> = vec![2, 7, 1, 8, 2, 8, 1, 8];
    let k = [1i64, 4, 6, 4, 1];
    let a = calculate_plane_ssim_moments(&p1, &p2, 4, 2, 255, &k, &k);
    let b = calculate_plane_ssim_moments(&p2, &p1, 4, 2, 255, &k, &k);
    for (x, y) in a.iter().zip(b.iter()) {
        assert_eq!((x.mux, x.x2, x.xy, x.w), (y.muy, y.y2, y.xy, y.w));
    }
}

#[test]
fn ssim_moments_of_identical_planes_agree() {
    let p: Vec<u32> = vec![3, 1, 4, 1, 5, 9, 2, 6, 5];
    let k = [1i64, 2, 1];
    for mo in calculate_plane_ssim_moments(&p, &p, 3, 3, 255, &k, &k) {
        assert_eq!(mo.mux, mo.muy);
        assert_eq!(mo.x2, mo.xy);
        assert_eq!(mo.y2, mo.xy);
    }
}

#[test]
fn plane_widened_to_u32() {
    let p = PlaneData { width: 2, height: 1, data: vec![7u16, 1023] };
    assert_eq!(plane_to_vec(&p), vec![7u32, 1023]);
}

#[test]
fn twice_duplicates_each_sample() {
    assert_eq!(twice(&[1u16, 2, 3]), vec![1, 1, 2, 2, 3, 3]);
    assert_eq!(twice::<u16>(&[]), Vec::<u16>::new());
}

#[test]
fn ciede_rows_pair_luma_with_covering_chroma() {
    let f = FrameInfo {
        planes: [
            PlaneData { width: 3, height: 2, data: vec![10u8, 11, 12, 13, 14, 15] },
            PlaneData { width: 2, height: 1, data: vec![100u8, 101] },
            PlaneData { width: 2, height: 1, data: vec![200u8, 201] },
        ],
        bit_depth: 8,
        chroma_sampling: ChromaSampling::Cs420,
    };
    assert_eq!(ciede_row_samples(&f, 1), vec![(13, 100, 200), (14, 100, 200), (15, 101, 201)]);
}

#[test]
fn ciede_rows_of_444_are_colocated() {
    let f = FrameInfo {
        planes: [
            PlaneData { width: 2, height: 1, data: vec![1u16, 2] },
            PlaneData { width: 2, height: 1, data: vec![3u16, 4] },
            PlaneData { width: 2, height: 1, data: vec![5u16, 6] },
        ],
        bit_depth: 10,
        chroma_sampling: ChromaSampling::Cs444,
    };
    assert_eq!(ciede_row_samples(&f, 0), vec![(1, 3, 5), (2, 4, 6)]);
}

#[test]
fn block_sums_per_quadrant() {
    let mut b = [0i32; 64];
    for i in 0..8 {
        for j in 0..8 {
            b[i * 8 + j] = (i * 8 + j) as i32 - 10;
        }
    }
    let m = block_moments(&b);
    assert_eq!(m.sum, (0..64).map(|n| n as i64 - 10).sum::<i64>());
    assert_eq!(m.sq_sum, (0..64).map(|n| (n as i64 - 10).pow(2)).sum::<i64>());
    let quad = |q: usize| -> Vec<i64> {
        (0..64)
            .filter(|&n| block_quadrant(n / 8, n % 8) == q)
            .map(|n| n as i64 - 10)
            .collect()
    };
    for q in 0..4 {
        assert_eq!(m.quadrant_sums[q], quad(q).iter().sum::<i64>());
        assert_eq!(m.quadrant_sq_sums[q], quad(q).iter().map(|v| v * v).sum::<i64>());
    }
    assert_eq!(m.quadrant_sums[0], (0..4).flat_map(|i| (0..4).map(move |j| (i * 8 + j) as i64 - 10)).sum::<i64>());
}

#[test]
fn gaussian_window_is_symmetric_and_sums_to_weight() {
    let k = assemble_gaussian_kernel(&[240, 80, 10], 1024);
    assert_eq!(k, vec![10, 80, 240, 364, 240, 80, 10]);
    assert_eq!(k.iter().sum::<i64>(), 1024);
    assert_eq!(assemble_gaussian_kernel(&[], 256), vec![256]);
}

#[test]
fn ssim_moments_at_the_deepest_12_bit_scale() {
    let v: u32 = 4095 * 256;
    let p = vec![v; 9];
    let k = [64i64, 256, 384, 256, 64];
    for mo in calculate_plane_ssim_moments(&p, &p, 3, 3, v, &k, &k) {
        assert_eq!(mo.mux, v as i64 * mo.w);
        assert_eq!(mo.x2, (v as i64) * (v as i64) * mo.w);
        assert_eq!(mo.xy, mo.x2);
    }
}

#[test]
fn msssim_pyramid_of_five_scales() {
    let plane: Vec<u32> = vec![255; 32 * 16];
    let levels = msssim_pyramid(&plane, 32, 16, 255);
    assert_eq!(levels.len(), 5);
    let dims: Vec<(usize, usize, u32)> = levels.iter().map(|l| (l.width, l.height, l.sample_max)).collect();
    assert_eq!(dims, vec![(32, 16, 255), (16, 8, 1020), (8, 4, 4080), (4, 2, 16320), (2, 1, 65280)]);
    assert_eq!(levels[4].samples, vec![65280, 65280]);
    assert_eq!(levels[1].samples, msssim_downscale(&plane, 32, 16));
}

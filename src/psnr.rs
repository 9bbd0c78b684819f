//! Peak signal-to-noise ratio: the exact squared-error statistics of each plane
//! pair and their aggregation over planes and frames.
//!
//! PSNR in decibels is `10 * log10(sample_max^2 * n_pixels / sq_err)`, capped
//! at 100 when the squared error is zero; the statistics here determine it.
use vstd::prelude::*;

use crate::error::MetricsError;
use crate::frame::{lemma_pow2_shift, pow2, ChromaSampling, FrameInfo, PlaneData};
use crate::pixel::{Pixel, PixelType};

verus! {

/// Sum of squared differences of the first `n` sample pairs.
pub open spec fn sse(a: Seq<int>, b: Seq<int>, n: int) -> int
    decreases n,
{
    if n <= 0 {
        0
    } else {
        sse(a, b, n - 1) + (a[n - 1] - b[n - 1]) * (a[n - 1] - b[n - 1])
    }
}

/// The number of sample pairs that two planes are compared over.
pub open spec fn paired_len(a: Seq<int>, b: Seq<int>) -> int {
    if a.len() <= b.len() {
        a.len() as int
    } else {
        b.len() as int
    }
}

/// The squared error of two planes, over their paired samples.
pub open spec fn plane_sse<T: Pixel>(p1: PlaneData<T>, p2: PlaneData<T>) -> int {
    sse(p1.samples(), p2.samples(), paired_len(p1.samples(), p2.samples()))
}

/// The squared-error statistics of one plane pair: what PSNR is computed from.
#[derive(Debug, Clone, Copy, PartialEq, Eq, Structural, Default)]
pub struct PsnrMetrics {
    /// Sum of squared sample differences.
    pub sq_err: u64,
    /// Number of samples in the plane.
    pub n_pixels: u64,
    /// The largest sample value, `2^bit_depth - 1`.
    pub sample_max: u64,
}

impl PsnrMetrics {
    /// Whether the PSNR of these statistics is the cap of 100: the squared
    /// error is zero, so the ratio would be infinite.
    pub fn is_capped(&self) -> (r: bool)
        ensures
            r == (self.sq_err == 0),
    {
        self.sq_err == 0
    }
}

/// The statistics that `calculate_plane_psnr_metrics` gives for two planes.
pub open spec fn plane_metrics_spec<T: Pixel>(
    p1: PlaneData<T>,
    p2: PlaneData<T>,
    bit_depth: nat,
) -> PsnrMetrics {
    PsnrMetrics {
        sq_err: plane_sse(p1, p2) as u64,
        n_pixels: (p1.width * p1.height) as u64,
        sample_max: (pow2(bit_depth) - 1) as u64,
    }
}

/// Each squared difference of two 16-bit samples is at most `65535^2`.
proof fn lemma_sq_diff_bound(x: int, y: int)
    requires
        0 <= x < 0x10000,
        0 <= y < 0x10000,
    ensures
        0 <= (x - y) * (x - y) <= 65535 * 65535,
{
    assert(0 <= (x - y) * (x - y) <= 65535 * 65535) by (nonlinear_arith)
        requires
            -65535 <= x - y <= 65535,
    ;
}

/// The squared error of samples that differ by at most `m` is at most `n * m^2`.
pub proof fn lemma_sse_bounded(a: Seq<int>, b: Seq<int>, n: int, m: int)
    requires
        0 <= n <= a.len(),
        n <= b.len(),
        0 <= m,
        forall|i: int| 0 <= i < n ==> -m <= #[trigger] a[i] - b[i] <= m,
    ensures
        0 <= sse(a, b, n) <= n * (m * m),
    decreases n,
{
    if n > 0 {
        lemma_sse_bounded(a, b, n - 1, m);
        let d = a[n - 1] - b[n - 1];
        assert(-m <= d <= m);
        assert(0 <= d * d <= m * m) by (nonlinear_arith)
            requires
                -m <= d <= m,
        ;
        assert((n - 1) * (m * m) + m * m == n * (m * m)) by (nonlinear_arith);
    }
}

/// The squared error does not depend on which plane comes first.
pub proof fn lemma_sse_symmetric(a: Seq<int>, b: Seq<int>, n: int)
    ensures
        sse(a, b, n) == sse(b, a, n),
    decreases n,
{
    if n > 0 {
        lemma_sse_symmetric(a, b, n - 1);
        assert((a[n - 1] - b[n - 1]) * (a[n - 1] - b[n - 1]) == (b[n - 1] - a[n - 1]) * (b[n
            - 1] - a[n - 1])) by (nonlinear_arith);
    }
}

/// Identical samples have no squared error.
pub proof fn lemma_sse_identical(a: Seq<int>, n: int)
    ensures
        sse(a, a, n) == 0,
    decreases n,
{
    if n > 0 {
        lemma_sse_identical(a, n - 1);
    }
}

/// Calculates the squared error of two planes, over the samples they pair up.
pub fn calculate_plane_total_squared_error<T: Pixel>(
    plane1: &PlaneData<T>,
    plane2: &PlaneData<T>,
) -> (r: u64)
    requires
        plane1.data@.len() <= 0x1_0000_0000 || plane2.data@.len() <= 0x1_0000_0000,
    ensures
        r as int == plane_sse(*plane1, *plane2),
{
    let n: usize = if plane1.data.len() <= plane2.data.len() {
        plane1.data.len()
    } else {
        plane2.data.len()
    };
    let ghost a = plane1.samples();
    let ghost b = plane2.samples();
    let mut sum: u64 = 0;
    let mut i: usize = 0;
    while i < n
        invariant
            n as int == paired_len(a, b),
            n <= 0x1_0000_0000,
            n <= plane1.data@.len(),
            n <= plane2.data@.len(),
            a == plane1.samples(),
            b == plane2.samples(),
            i <= n,
            sum as int == sse(a, b, i as int),
            sum as int <= i * 4294836225,
        decreases n - i,
    {
        let x = plane1.data[i].to_u32() as i64;
        let y = plane2.data[i].to_u32() as i64;
        proof {
            plane1.data@[i as int].lemma_value_range();
            plane2.data@[i as int].lemma_value_range();
            lemma_sq_diff_bound(x as int, y as int);
            assert(a[i as int] == x as int);
            assert(b[i as int] == y as int);
        }
        let d = (x - y) as i64;
        let sq = (d * d) as u64;
        assert(sq as int == (a[i as int] - b[i as int]) * (a[i as int] - b[i as int]));
        assert(sq <= 4294836225);
        sum = sum + sq;
        i = i + 1;
    }
    sum
}

/// Calculates the PSNR statistics of two planes at the given bit depth.
pub fn calculate_plane_psnr_metrics<T: Pixel>(
    plane1: &PlaneData<T>,
    plane2: &PlaneData<T>,
    bit_depth: usize,
) -> (r: PsnrMetrics)
    requires
        plane1.wf(),
        plane1.data@.len() <= 0x1_0000_0000,
        1 <= bit_depth <= 16,
    ensures
        r == plane_metrics_spec(*plane1, *plane2, bit_depth as nat),
{
    let sq_err = calculate_plane_total_squared_error(plane1, plane2);
    proof {
        lemma_pow2_shift(bit_depth as nat);
    }
    let max = (1u64 << bit_depth as u64) - 1;
    assert(plane1.width * plane1.height <= 0x1_0000_0000);
    let n_pixels = (plane1.width as u64) * (plane1.height as u64);
    PsnrMetrics { sq_err, n_pixels, sample_max: max }
}

/// The sample type's width disagrees with the bit depth: 8-bit samples for
/// more than 8 bits, or 16-bit samples for at most 8 bits.
pub open spec fn pixel_width_mismatch<T: Pixel>(bit_depth: int) -> bool {
    (T::byte_width() == 1 && bit_depth > 8) || (T::byte_width() == 2 && bit_depth <= 8)
}

/// The statistics of the three plane pairs of two frames.
pub open spec fn frame_metrics_spec<T: Pixel>(f1: FrameInfo<T>, f2: FrameInfo<T>) -> [PsnrMetrics; 3] {
    [
        plane_metrics_spec(f1.planes[0], f2.planes[0], f1.bit_depth as nat),
        plane_metrics_spec(f1.planes[1], f2.planes[1], f1.bit_depth as nat),
        plane_metrics_spec(f1.planes[2], f2.planes[2], f1.bit_depth as nat),
    ]
}

/// Calculates the PSNR statistics of each plane pair of two frames.
pub fn calculate_frame_psnr_metrics<T: Pixel>(
    frame1: &FrameInfo<T>,
    frame2: &FrameInfo<T>,
) -> (r: Result<[PsnrMetrics; 3], MetricsError>)
    requires
        frame1.wf(),
        frame1.planes[0].data@.len() <= 0x1_0000_0000,
    ensures
        pixel_width_mismatch::<T>(frame1.bit_depth as int) ==> r is Err && r->Err_0 is InputMismatch,
        r is Ok <==> !pixel_width_mismatch::<T>(frame1.bit_depth as int) && frame1.comparable(frame2),
        r is Err ==> r->Err_0 is InputMismatch,
        r is Ok ==> r->Ok_0@ == frame_metrics_spec(*frame1, *frame2)@,
{
    let bit_depth = frame1.bit_depth;
    let wide = match T::type_enum() {
        PixelType::U8 => false,
        PixelType::U16 => true,
    };
    proof {
        T::lemma_cast_value(0, 0);
    }
    if (!wide && bit_depth > 8) || (wide && bit_depth <= 8) {
        return Err(MetricsError::InputMismatch { reason: "Bit depths does not match pixel width" });
    }
    frame1.can_compare(frame2)?;
    proof {
        lemma_chroma_not_larger(frame1.chroma_sampling, frame1.planes[0].width as int,
            frame1.planes[0].height as int);
        let (cw, ch) = crate::frame::chroma_dimensions_of(frame1.chroma_sampling,
            frame1.planes[0].width as int, frame1.planes[0].height as int);
        assert(cw * ch <= frame1.planes[0].width * frame1.planes[0].height) by (nonlinear_arith)
            requires 0 <= cw <= frame1.planes[0].width, 0 <= ch <= frame1.planes[0].height;
    }
    let y = calculate_plane_psnr_metrics(&frame1.planes[0], &frame2.planes[0], bit_depth);
    let u = calculate_plane_psnr_metrics(&frame1.planes[1], &frame2.planes[1], bit_depth);
    let v = calculate_plane_psnr_metrics(&frame1.planes[2], &frame2.planes[2], bit_depth);
    let r = [y, u, v];
    assert(r@ =~= frame_metrics_spec(*frame1, *frame2)@);
    Ok(r)
}

/// Chroma planes are never larger than luma.
pub proof fn lemma_chroma_not_larger(cs: ChromaSampling, w: int, h: int)
    requires
        0 <= w,
        0 <= h,
    ensures
        0 <= crate::frame::chroma_dimensions_of(cs, w, h).0 <= w,
        0 <= crate::frame::chroma_dimensions_of(cs, w, h).1 <= h,
{
}

/// Total squared error of a run of statistics.
pub open spec fn sum_sq_err(ms: Seq<PsnrMetrics>) -> int
    decreases ms.len(),
{
    if ms.len() == 0 {
        0
    } else {
        sum_sq_err(ms.drop_last()) + ms.last().sq_err
    }
}

/// Total pixel count of a run of statistics.
pub open spec fn sum_n_pixels(ms: Seq<PsnrMetrics>) -> int
    decreases ms.len(),
{
    if ms.len() == 0 {
        0
    } else {
        sum_n_pixels(ms.drop_last()) + ms.last().n_pixels
    }
}

/// The peak value carried by a run of statistics: that of its last entry.
pub open spec fn last_sample_max(ms: Seq<PsnrMetrics>) -> u64 {
    if ms.len() == 0 {
        0
    } else {
        ms.last().sample_max
    }
}

/// The statistics of a run taken together, when both totals fit in `u64`.
pub open spec fn summed_spec(ms: Seq<PsnrMetrics>) -> Option<PsnrMetrics> {
    if sum_sq_err(ms) <= u64::MAX && sum_n_pixels(ms) <= u64::MAX {
        Some(
            PsnrMetrics {
                sq_err: sum_sq_err(ms) as u64,
                n_pixels: sum_n_pixels(ms) as u64,
                sample_max: last_sample_max(ms),
            },
        )
    } else {
        None
    }
}

proof fn lemma_sums_monotone(ms: Seq<PsnrMetrics>, i: int)
    requires
        0 <= i <= ms.len(),
    ensures
        0 <= sum_sq_err(ms.take(i)) <= sum_sq_err(ms),
        0 <= sum_n_pixels(ms.take(i)) <= sum_n_pixels(ms),
    decreases ms.len(),
{
    if ms.len() > 0 {
        if i == ms.len() {
            assert(ms.take(i) =~= ms);
            lemma_sums_monotone(ms.drop_last(), i - 1);
            assert(ms.drop_last().take(i - 1) =~= ms.drop_last());
        } else {
            lemma_sums_monotone(ms.drop_last(), i);
            assert(ms.drop_last().take(i) =~= ms.take(i));
        }
    }
}

/// Sums the statistics of several planes or frames into one, from which their
/// joint PSNR is computed. `None` when a total does not fit in `u64`.
pub fn calculate_summed_psnr(metrics: &[PsnrMetrics]) -> (r: Option<PsnrMetrics>)
    ensures
        r == summed_spec(metrics@),
{
    let mut sq: u64 = 0;
    let mut px: u64 = 0;
    let mut max: u64 = 0;
    let mut i: usize = 0;
    while i < metrics.len()
        invariant
            i <= metrics@.len(),
            sq as int == sum_sq_err(metrics@.take(i as int)),
            px as int == sum_n_pixels(metrics@.take(i as int)),
            max == last_sample_max(metrics@.take(i as int)),
        decreases metrics@.len() - i,
    {
        let m = metrics[i];
        assert(metrics@.take(i + 1).drop_last() =~= metrics@.take(i as int));
        if sq > u64::MAX - m.sq_err || px > u64::MAX - m.n_pixels {
            proof {
                lemma_sums_monotone(metrics@, i + 1);
            }
            return None;
        }
        sq = sq + m.sq_err;
        px = px + m.n_pixels;
        max = m.sample_max;
        i = i + 1;
    }
    assert(metrics@.take(i as int) =~= metrics@);
    Some(PsnrMetrics { sq_err: sq, n_pixels: px, sample_max: max })
}

/// PSNR statistics of a whole video: the totals of each plane and of all
/// planes together, over all frames.
#[derive(Debug, Clone, Copy, PartialEq, Eq, Structural)]
pub struct PsnrTotals {
    /// Totals of the luma plane.
    pub y: PsnrMetrics,
    /// Totals of the Cb plane.
    pub u: PsnrMetrics,
    /// Totals of the Cr plane.
    pub v: PsnrMetrics,
    /// Totals of all three planes.
    pub all: PsnrMetrics,
}

/// The statistics of plane `p` in each frame.
pub open spec fn plane_column(ms: Seq<[PsnrMetrics; 3]>, p: int) -> Seq<PsnrMetrics> {
    ms.map_values(|m: [PsnrMetrics; 3]| m[p])
}

/// The statistics of every plane of every frame, frame after frame.
pub open spec fn flatten_planes(ms: Seq<[PsnrMetrics; 3]>) -> Seq<PsnrMetrics>
    decreases ms.len(),
{
    if ms.len() == 0 {
        Seq::empty()
    } else {
        flatten_planes(ms.drop_last()) + ms.last()@
    }
}

/// The totals that `aggregate_psnr_metrics` gives, when all fit in `u64`.
pub open spec fn totals_spec(ms: Seq<[PsnrMetrics; 3]>) -> Option<PsnrTotals> {
    match (
        summed_spec(plane_column(ms, 0)),
        summed_spec(plane_column(ms, 1)),
        summed_spec(plane_column(ms, 2)),
        summed_spec(flatten_planes(ms)),
    ) {
        (Some(y), Some(u), Some(v), Some(all)) => Some(PsnrTotals { y, u, v, all }),
        _ => None,
    }
}

/// Reduces the per-frame statistics of a video to the totals that global PSNR
/// is computed from. `None` when a total does not fit in `u64`.
pub fn aggregate_psnr_metrics(metrics: &[[PsnrMetrics; 3]]) -> (r: Option<PsnrTotals>)
    ensures
        r == totals_spec(metrics@),
{
    let mut ys: Vec<PsnrMetrics> = Vec::new();
    let mut us: Vec<PsnrMetrics> = Vec::new();
    let mut vs: Vec<PsnrMetrics> = Vec::new();
    let mut all: Vec<PsnrMetrics> = Vec::new();
    let mut i: usize = 0;
    while i < metrics.len()
        invariant
            i <= metrics@.len(),
            ys@ == plane_column(metrics@.take(i as int), 0),
            us@ == plane_column(metrics@.take(i as int), 1),
            vs@ == plane_column(metrics@.take(i as int), 2),
            all@ == flatten_planes(metrics@.take(i as int)),
        decreases metrics@.len() - i,
    {
        let m = metrics[i];
        ys.push(m[0]);
        us.push(m[1]);
        vs.push(m[2]);
        all.push(m[0]);
        all.push(m[1]);
        all.push(m[2]);
        proof {
            let t = metrics@.take(i + 1);
            assert(t.drop_last() =~= metrics@.take(i as int));
            assert(ys@ =~= plane_column(t, 0));
            assert(us@ =~= plane_column(t, 1));
            assert(vs@ =~= plane_column(t, 2));
            assert(all@ =~= flatten_planes(t));
        }
        i = i + 1;
    }
    assert(metrics@.take(i as int) =~= metrics@);
    let y = calculate_summed_psnr(ys.as_slice());
    let u = calculate_summed_psnr(us.as_slice());
    let v = calculate_summed_psnr(vs.as_slice());
    let a = calculate_summed_psnr(all.as_slice());
    match (y, u, v, a) {
        (Some(y), Some(u), Some(v), Some(all)) => Some(PsnrTotals { y, u, v, all }),
        _ => None,
    }
}

/// The totals of one plane's statistics are that plane's.
proof fn lemma_summed_single(x: PsnrMetrics)
    ensures
        summed_spec(seq![x]) == Some(x),
{
    reveal_with_fuel(sum_sq_err, 2);
    reveal_with_fuel(sum_n_pixels, 2);
    assert(seq![x].drop_last() =~= Seq::<PsnrMetrics>::empty());
}

/// The totals of the three planes of one frame.
proof fn lemma_sum_three(ms: [PsnrMetrics; 3])
    ensures
        sum_sq_err(ms@) == ms[0].sq_err + ms[1].sq_err + ms[2].sq_err,
        sum_n_pixels(ms@) == ms[0].n_pixels + ms[1].n_pixels + ms[2].n_pixels,
        last_sample_max(ms@) == ms[2].sample_max,
{
    reveal_with_fuel(sum_sq_err, 4);
    reveal_with_fuel(sum_n_pixels, 4);
    let s = ms@;
    assert(s.drop_last() =~= seq![ms[0], ms[1]]);
    assert(s.drop_last().drop_last() =~= seq![ms[0]]);
    assert(s.drop_last().drop_last().drop_last() =~= Seq::<PsnrMetrics>::empty());
}

/// A frame compared with itself has no squared error in any plane, nor in the
/// three planes together, so every PSNR value of the pair is capped at 100.
pub proof fn lemma_identical_frames_capped<T: Pixel>(f: FrameInfo<T>)
    requires
        f.wf(),
    ensures
        forall|p: int| 0 <= p < 3 ==> (#[trigger] frame_metrics_spec(f, f)[p]).sq_err == 0,
        sum_sq_err(frame_metrics_spec(f, f)@) == 0,
{
    let ms = frame_metrics_spec(f, f);
    assert forall|p: int| 0 <= p < 3 implies (#[trigger] frame_metrics_spec(f, f)[p]).sq_err
        == 0 by {
        let s = f.planes[p].samples();
        lemma_sse_identical(s, paired_len(s, s));
    }
    lemma_sum_three(ms);
}

/// The statistics of two frames do not depend on which frame comes first.
pub proof fn lemma_frame_metrics_symmetric<T: Pixel>(f1: FrameInfo<T>, f2: FrameInfo<T>)
    requires
        f1.comparable(&f2),
    ensures
        frame_metrics_spec(f1, f2) == frame_metrics_spec(f2, f1),
{
    assert forall|p: int| 0 <= p < 3 implies #[trigger] plane_sse(f1.planes[p], f2.planes[p])
        == plane_sse(f2.planes[p], f1.planes[p]) by {
        let a = f1.planes[p].samples();
        let b = f2.planes[p].samples();
        lemma_sse_symmetric(a, b, paired_len(a, b));
    }
    assert(f1.planes[0].width == f2.planes[0].width && f1.planes[0].height == f2.planes[0].height);
    assert(f1.planes[1].width == f2.planes[1].width && f1.planes[1].height == f2.planes[1].height);
    assert(f1.planes[2].width == f2.planes[2].width && f1.planes[2].height == f2.planes[2].height);
    assert(plane_sse(f1.planes[0], f2.planes[0]) == plane_sse(f2.planes[0], f1.planes[0]));
    assert(plane_sse(f1.planes[1], f2.planes[1]) == plane_sse(f2.planes[1], f1.planes[1]));
    assert(plane_sse(f1.planes[2], f2.planes[2]) == plane_sse(f2.planes[2], f1.planes[2]));
    assert(frame_metrics_spec(f1, f2)@ =~= frame_metrics_spec(f2, f1)@);
}

/// The squared error of two planes never exceeds what every sample being off
/// by the full range would give, `n_pixels * sample_max^2`: the PSNR of a plane
/// is never negative.
pub proof fn lemma_plane_error_within_peak<T: Pixel>(
    p1: PlaneData<T>,
    p2: PlaneData<T>,
    bit_depth: nat,
)
    requires
        p1.wf(),
        p2.wf(),
        p1.width == p2.width,
        p1.height == p2.height,
        p1.within_depth(bit_depth),
        p2.within_depth(bit_depth),
        1 <= bit_depth <= 16,
    ensures
        0 <= plane_sse(p1, p2) <= (p1.width * p1.height) * ((pow2(bit_depth) - 1) * (pow2(bit_depth)
            - 1)),
{
    let a = p1.samples();
    let b = p2.samples();
    let n = paired_len(a, b);
    let m = pow2(bit_depth) - 1;
    lemma_pow2_shift(bit_depth);
    assert forall|i: int| 0 <= i < n implies -m <= #[trigger] a[i] - b[i] <= m by {
        p1.data@[i].lemma_value_range();
        p2.data@[i].lemma_value_range();
        assert(p1.data@[i].value() < pow2(bit_depth));
        assert(p2.data@[i].value() < pow2(bit_depth));
    }
    lemma_sse_bounded(a, b, n, m);
}

/// Monochrome frames have empty chroma planes, so the statistics of all three
/// planes together are those of luma: the planar average equals the luma value.
pub proof fn lemma_monochrome_average_is_luma<T: Pixel>(f1: FrameInfo<T>, f2: FrameInfo<T>)
    requires
        f1.wf(),
        f2.wf(),
        f1.comparable(&f2),
        f1.chroma_sampling == ChromaSampling::Cs400,
        f1.planes[0].data@.len() <= 0x1_0000_0000,
    ensures
        frame_metrics_spec(f1, f2)[1].sq_err == 0 && frame_metrics_spec(f1, f2)[1].n_pixels == 0,
        frame_metrics_spec(f1, f2)[2].sq_err == 0 && frame_metrics_spec(f1, f2)[2].n_pixels == 0,
        summed_spec(frame_metrics_spec(f1, f2)@) == Some(frame_metrics_spec(f1, f2)[0]),
{
    let ms = frame_metrics_spec(f1, f2);
    let a = f1.planes[0].samples();
    let b = f2.planes[0].samples();
    let n = paired_len(a, b);
    assert(f1.planes[0].width == f2.planes[0].width && f1.planes[0].height == f2.planes[0].height);
    assert forall|i: int| 0 <= i < n implies -65535 <= #[trigger] a[i] - b[i] <= 65535 by {
        f1.planes[0].data@[i].lemma_value_range();
        f2.planes[0].data@[i].lemma_value_range();
    }
    lemma_sse_bounded(a, b, n, 65535);
    assert(n * (65535 * 65535) <= 0x1_0000_0000 * (65535 * 65535)) by (nonlinear_arith)
        requires 0 <= n <= 0x1_0000_0000;
    lemma_sum_three(ms);
    lemma_pow2_shift(f1.bit_depth as nat);
    assert(f1.planes[1].width == 0 && f1.planes[2].width == 0);
    assert(f1.planes[1].data@.len() == 0 * f1.planes[1].height);
    assert(f1.planes[2].data@.len() == 0 * f1.planes[2].height);
    assert(f1.planes[1].samples().len() == 0 && f1.planes[2].samples().len() == 0);
    assert(plane_sse(f1.planes[1], f2.planes[1]) == 0);
    assert(plane_sse(f1.planes[2], f2.planes[2]) == 0);
}

/// A video of one frame has, for each plane and for all planes together, the
/// totals of that frame: its global PSNR is the frame's PSNR.
pub proof fn lemma_single_frame_totals(m: [PsnrMetrics; 3])
    ensures
        totals_spec(seq![m]) == match summed_spec(m@) {
            Some(all) => Some(PsnrTotals { y: m[0], u: m[1], v: m[2], all }),
            None => None::<PsnrTotals>,
        },
{
    let ms = seq![m];
    assert(ms.drop_last() =~= Seq::<[PsnrMetrics; 3]>::empty());
    assert(flatten_planes(ms) =~= m@) by {
        assert(flatten_planes(ms.drop_last()) =~= Seq::<PsnrMetrics>::empty());
    }
    assert(plane_column(ms, 0) =~= seq![m[0]]);
    assert(plane_column(ms, 1) =~= seq![m[1]]);
    assert(plane_column(ms, 2) =~= seq![m[2]]);
    lemma_summed_single(m[0]);
    lemma_summed_single(m[1]);
    lemma_summed_single(m[2]);
    assert(summed_spec(plane_column(ms, 0)) == Some(m[0]));
    assert(summed_spec(plane_column(ms, 1)) == Some(m[1]));
    assert(summed_spec(plane_column(ms, 2)) == Some(m[2]));
}

} // verus!

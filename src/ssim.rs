//! SSIM and MS-SSIM: the exact windowed moments of two planes under a
//! separable integer Gaussian window, and the MS-SSIM pyramid downscale.
//!
//! From the moments of a pixel, `c1 = max^2 * 0.0001 * w^2`,
//! `c2 = max^2 * 0.0009 * w^2`, `cs = w * (c2 + 2 * (xy * w - mux * muy)) /
//! (x2 * w - mux^2 + y2 * w - muy^2 + c2)` and
//! `ssim = cs * (2 * mux * muy + c1) / (mux^2 + muy^2 + c1)`.
use vstd::prelude::*;

use crate::frame::PlaneData;
use crate::pixel::Pixel;

verus! {

/// Window-weighted sums of one pixel pair's neighbourhood.
#[derive(Debug, Clone, Copy, PartialEq, Eq, Structural, Default)]
pub struct SsimMoments {
    /// Weighted sum of the first plane's samples.
    pub mux: i64,
    /// Weighted sum of the second plane's samples.
    pub muy: i64,
    /// Weighted sum of the first plane's squared samples.
    pub x2: i64,
    /// Weighted sum of the products of the two planes' samples.
    pub xy: i64,
    /// Weighted sum of the second plane's squared samples.
    pub y2: i64,
    /// Sum of the weights.
    pub w: i64,
}

/// Which moment a sum is of: 0 the first samples, 1 the second, 2 the first
/// squared, 3 their product, 4 the second squared, 5 the weight alone.
pub open spec fn tap_term(a: int, b: int, kind: int) -> int {
    if kind == 0 {
        a
    } else if kind == 1 {
        b
    } else if kind == 2 {
        a * a
    } else if kind == 3 {
        a * b
    } else if kind == 4 {
        b * b
    } else {
        1
    }
}

/// Moment `kind` of a moments record.
pub open spec fn moment(m: SsimMoments, kind: int) -> int {
    if kind == 0 {
        m.mux as int
    } else if kind == 1 {
        m.muy as int
    } else if kind == 2 {
        m.x2 as int
    } else if kind == 3 {
        m.xy as int
    } else if kind == 4 {
        m.y2 as int
    } else {
        m.w as int
    }
}

/// The kernel's weights as integers.
pub open spec fn kernel_ints(k: Seq<i64>) -> Seq<int> {
    k.map_values(|v: i64| v as int)
}

/// Sum of the first `n` weights of a kernel.
pub open spec fn kernel_sum(k: Seq<int>, n: int) -> int
    decreases n,
{
    if n <= 0 {
        0
    } else {
        kernel_sum(k, n - 1) + k[n - 1]
    }
}

/// The horizontal sum of moment `kind` at column `x` of row `y`, over the first
/// `n` taps of `hk` centred on `x`; taps that fall outside the row are left out.
pub open spec fn horiz_sum(
    p1: Seq<int>,
    p2: Seq<int>,
    w: int,
    y: int,
    x: int,
    hk: Seq<int>,
    kind: int,
    n: int,
) -> int
    decreases n,
{
    if n <= 0 {
        0
    } else {
        let tx = x + (n - 1) - hk.len() / 2;
        horiz_sum(p1, p2, w, y, x, hk, kind, n - 1) + if 0 <= tx < w {
            hk[n - 1] * tap_term(p1[y * w + tx], p2[y * w + tx], kind)
        } else {
            0
        }
    }
}

/// The windowed sum of moment `kind` at pixel (`x`, `y`), over the first `n`
/// taps of `vk` centred on row `y`; rows outside the plane are left out.
pub open spec fn window_sum(
    p1: Seq<int>,
    p2: Seq<int>,
    w: int,
    h: int,
    y: int,
    x: int,
    vk: Seq<int>,
    hk: Seq<int>,
    kind: int,
    n: int,
) -> int
    decreases n,
{
    if n <= 0 {
        0
    } else {
        let ty = y + (n - 1) - vk.len() / 2;
        window_sum(p1, p2, w, h, y, x, vk, hk, kind, n - 1) + if 0 <= ty < h {
            vk[n - 1] * horiz_sum(p1, p2, w, ty, x, hk, kind, hk.len() as int)
        } else {
            0
        }
    }
}

/// The moments of pixel (`x`, `y`).
pub open spec fn pixel_moments_ok(
    m: SsimMoments,
    p1: Seq<int>,
    p2: Seq<int>,
    w: int,
    h: int,
    y: int,
    x: int,
    vk: Seq<int>,
    hk: Seq<int>,
) -> bool {
    forall|kind: int|
        0 <= kind < 6 ==> #[trigger] moment(m, kind) == window_sum(
            p1,
            p2,
            w,
            h,
            y,
            x,
            vk,
            hk,
            kind,
            vk.len() as int,
        )
}

/// The requirements on a window: nonnegative weights and totals small enough
/// that every moment of samples up to `sample_max` fits in `i64`.
pub open spec fn window_fits(vk: Seq<int>, hk: Seq<int>, sample_max: int) -> bool {
    &&& forall|i: int| 0 <= i < vk.len() ==> 0 <= #[trigger] vk[i]
    &&& forall|i: int| 0 <= i < hk.len() ==> 0 <= #[trigger] hk[i]
    &&& 0 <= sample_max
    &&& 1 <= kernel_sum(vk, vk.len() as int)
    &&& 1 <= kernel_sum(hk, hk.len() as int)
    &&& kernel_sum(vk, vk.len() as int) * kernel_sum(hk, hk.len() as int) * (sample_max
        * sample_max + 1) <= 0x4000_0000_0000_0000
}

proof fn lemma_term_bound(a: int, b: int, kind: int, m: int)
    requires
        0 <= a <= m,
        0 <= b <= m,
    ensures
        0 <= tap_term(a, b, kind) <= m * m + 1,
{
    assert(0 <= a * a <= m * m) by (nonlinear_arith)
        requires
            0 <= a <= m,
    ;
    assert(0 <= b * b <= m * m) by (nonlinear_arith)
        requires
            0 <= b <= m,
    ;
    assert(0 <= a * b <= m * m) by (nonlinear_arith)
        requires
            0 <= a <= m,
            0 <= b <= m,
    ;
    assert(a <= m * m + 1) by (nonlinear_arith)
        requires
            0 <= a <= m,
    ;
    assert(b <= m * m + 1) by (nonlinear_arith)
        requires
            0 <= b <= m,
    ;
}

proof fn lemma_kernel_sum_nonneg(k: Seq<int>, n: int)
    requires
        0 <= n <= k.len(),
        forall|i: int| 0 <= i < k.len() ==> 0 <= #[trigger] k[i],
    ensures
        0 <= kernel_sum(k, n),
    decreases n,
{
    if n > 0 {
        lemma_kernel_sum_nonneg(k, n - 1);
    }
}

proof fn lemma_kernel_sum_mono(k: Seq<int>, n: int, j: int)
    requires
        0 <= n <= j <= k.len(),
        forall|i: int| 0 <= i < k.len() ==> 0 <= #[trigger] k[i],
    ensures
        kernel_sum(k, n) <= kernel_sum(k, j),
    decreases j - n,
{
    if n < j {
        lemma_kernel_sum_mono(k, n, j - 1);
    }
}

/// Samples of a plane are within `[0, m]`.
pub open spec fn samples_within(p: Seq<int>, m: int) -> bool {
    forall|i: int| 0 <= i < p.len() ==> 0 <= #[trigger] p[i] <= m
}

proof fn lemma_horiz_bound(
    p1: Seq<int>,
    p2: Seq<int>,
    w: int,
    y: int,
    x: int,
    hk: Seq<int>,
    kind: int,
    n: int,
    m: int,
)
    requires
        0 <= n <= hk.len(),
        0 <= y,
        0 <= w,
        (y + 1) * w <= p1.len(),
        (y + 1) * w <= p2.len(),
        samples_within(p1, m),
        samples_within(p2, m),
        forall|i: int| 0 <= i < hk.len() ==> 0 <= #[trigger] hk[i],
    ensures
        0 <= horiz_sum(p1, p2, w, y, x, hk, kind, n) <= kernel_sum(hk, n) * (m * m + 1),
    decreases n,
{
    assert(0 * (m * m + 1) == 0);
    if n > 0 {
        lemma_horiz_bound(p1, p2, w, y, x, hk, kind, n - 1, m);
        let tx = x + (n - 1) - hk.len() / 2;
        if 0 <= tx < w {
            assert(y * w + tx < (y + 1) * w) by (nonlinear_arith)
                requires
                    tx < w,
            ;
            assert(0 <= y * w) by (nonlinear_arith)
                requires
                    0 <= y,
                    0 <= w,
            ;
            let t = tap_term(p1[y * w + tx], p2[y * w + tx], kind);
            lemma_term_bound(p1[y * w + tx], p2[y * w + tx], kind, m);
            let c = hk[n - 1];
            assert(0 <= c * t <= c * (m * m + 1)) by (nonlinear_arith)
                requires
                    0 <= c,
                    0 <= t <= m * m + 1,
            ;
        }
        let a = kernel_sum(hk, n - 1);
        let b = hk[n - 1];
        let q = m * m + 1;
        assert(0 <= b * q) by (nonlinear_arith)
            requires
                0 <= b,
                q == m * m + 1,
        ;
        assert(a * q + b * q == (a + b) * q) by (nonlinear_arith);
        assert(kernel_sum(hk, n) == a + b);
    }
}

proof fn lemma_window_bound(
    p1: Seq<int>,
    p2: Seq<int>,
    w: int,
    h: int,
    y: int,
    x: int,
    vk: Seq<int>,
    hk: Seq<int>,
    kind: int,
    n: int,
    m: int,
)
    requires
        0 <= n <= vk.len(),
        0 <= w,
        0 <= h,
        w * h <= p1.len(),
        w * h <= p2.len(),
        samples_within(p1, m),
        samples_within(p2, m),
        forall|i: int| 0 <= i < hk.len() ==> 0 <= #[trigger] hk[i],
        forall|i: int| 0 <= i < vk.len() ==> 0 <= #[trigger] vk[i],
    ensures
        0 <= window_sum(p1, p2, w, h, y, x, vk, hk, kind, n) <= kernel_sum(vk, n) * (kernel_sum(
            hk,
            hk.len() as int,
        ) * (m * m + 1)),
    decreases n,
{
    if n > 0 {
        lemma_window_bound(p1, p2, w, h, y, x, vk, hk, kind, n - 1, m);
        let ty = y + (n - 1) - vk.len() / 2;
        let hb = kernel_sum(hk, hk.len() as int) * (m * m + 1);
        if 0 <= ty < h {
            assert((ty + 1) * w <= w * h) by (nonlinear_arith)
                requires
                    ty + 1 <= h,
                    0 <= w,
            ;
            lemma_horiz_bound(p1, p2, w, ty, x, hk, kind, hk.len() as int, m);
            let s = horiz_sum(p1, p2, w, ty, x, hk, kind, hk.len() as int);
            let c = vk[n - 1];
            assert(0 <= c * s <= c * hb) by (nonlinear_arith)
                requires
                    0 <= c,
                    0 <= s <= hb,
            ;
        } else {
            lemma_kernel_sum_nonneg(hk, hk.len() as int);
            assert(0 <= hb) by (nonlinear_arith)
                requires
                    hb == kernel_sum(hk, hk.len() as int) * (m * m + 1),
                    0 <= kernel_sum(hk, hk.len() as int),
            ;
            assert(0 <= vk[n - 1] * hb) by (nonlinear_arith)
                requires
                    0 <= vk[n - 1],
                    0 <= hb,
            ;
        }
        let a = kernel_sum(vk, n - 1);
        let b = vk[n - 1];
        assert(a * hb + b * hb == (a + b) * hb) by (nonlinear_arith);
        assert(kernel_sum(vk, n) == a + b);
    }
}

/// The values of a sequence of `u32` samples.
pub open spec fn u32_ints(s: Seq<u32>) -> Seq<int> {
    s.map_values(|v: u32| v as int)
}

proof fn lemma_mul_le(c: int, t: int, b: int)
    requires
        0 <= c,
        0 <= t <= b,
    ensures
        0 <= c * t <= c * b,
{
    assert(0 <= c * t <= c * b) by (nonlinear_arith)
        requires
            0 <= c,
            0 <= t <= b,
    ;
}

proof fn lemma_elem_le_sum(k: Seq<int>, i: int)
    requires
        0 <= i < k.len(),
        forall|j: int| 0 <= j < k.len() ==> 0 <= #[trigger] k[j],
    ensures
        k[i] <= kernel_sum(k, k.len() as int),
{
    lemma_kernel_sum_nonneg(k, i);
    lemma_kernel_sum_mono(k, i + 1, k.len() as int);
}

/// The horizontal moments of pixel (`x`, `y`).
fn horiz_pixel(
    p1: &[u32],
    p2: &[u32],
    width: usize,
    y: usize,
    x: usize,
    hk: &[i64],
    Ghost(m): Ghost<int>,
) -> (r: SsimMoments)
    requires
        x < width,
        width + hk@.len() <= usize::MAX,
        (y + 1) * width <= p1@.len(),
        (y + 1) * width <= p2@.len(),
        samples_within(u32_ints(p1@), m),
        samples_within(u32_ints(p2@), m),
        0 <= m,
        forall|i: int| 0 <= i < hk@.len() ==> 0 <= #[trigger] hk@[i],
        kernel_sum(kernel_ints(hk@), hk@.len() as int) * (m * m + 1) <= 0x4000_0000_0000_0000,
        1 <= kernel_sum(kernel_ints(hk@), hk@.len() as int),
    ensures
        forall|kind: int|
            0 <= kind < 6 ==> #[trigger] moment(r, kind) == horiz_sum(
                u32_ints(p1@),
                u32_ints(p2@),
                width as int,
                y as int,
                x as int,
                kernel_ints(hk@),
                kind,
                hk@.len() as int,
            ),
{
    let ghost a1 = u32_ints(p1@);
    let ghost a2 = u32_ints(p2@);
    let ghost k = kernel_ints(hk@);
    let ghost q = m * m + 1;
    let len = hk.len();
    let n1 = p1.len();
    let off = len / 2;
    let mut acc = SsimMoments { mux: 0, muy: 0, x2: 0, xy: 0, y2: 0, w: 0 };
    let mut j: usize = 0;
    proof {
        assert(forall|i: int| 0 <= i < k.len() ==> 0 <= #[trigger] k[i]);
        assert(0 <= m * m) by (nonlinear_arith);
        lemma_mul_le(q, 1, kernel_sum(k, k.len() as int));
        assert(q * kernel_sum(k, k.len() as int) == kernel_sum(k, k.len() as int) * q) by (nonlinear_arith);
    }
    while j < len
        invariant
            len == hk@.len(),
            off == len / 2,
            k == kernel_ints(hk@),
            a1 == u32_ints(p1@),
            a2 == u32_ints(p2@),
            q == m * m + 1,
            0 <= m,
            x < width,
            width + len <= usize::MAX,
            n1 == p1@.len(),
            (y + 1) * width <= p1@.len(),
            (y + 1) * width <= p2@.len(),
            samples_within(a1, m),
            samples_within(a2, m),
            forall|i: int| 0 <= i < k.len() ==> 0 <= #[trigger] k[i],
            kernel_sum(k, k.len() as int) * q <= 0x4000_0000_0000_0000,
            1 <= kernel_sum(k, k.len() as int),
            q <= 0x4000_0000_0000_0000,
            j <= len,
            forall|kind: int|
                0 <= kind < 6 ==> #[trigger] moment(acc, kind) == horiz_sum(
                    a1,
                    a2,
                    width as int,
                    y as int,
                    x as int,
                    k,
                    kind,
                    j as int,
                ),
        decreases len - j,
    {
        proof {
            lemma_kernel_sum_mono(k, j + 1, k.len() as int);
            lemma_kernel_sum_nonneg(k, j + 1);
            assert(kernel_sum(k, j + 1) * q <= kernel_sum(k, k.len() as int) * q) by (nonlinear_arith)
                requires
                    kernel_sum(k, j + 1) <= kernel_sum(k, k.len() as int),
                    0 <= q,
            ;
            assert(0 <= y * width <= (y + 1) * width) by (nonlinear_arith);
            assert forall|kind: int| 0 <= kind < 6 implies 0 <= #[trigger] horiz_sum(
                a1,
                a2,
                width as int,
                y as int,
                x as int,
                k,
                kind,
                j + 1,
            ) <= kernel_sum(k, j + 1) * q by {
                lemma_horiz_bound(a1, a2, width as int, y as int, x as int, k, kind, j + 1, m);
            }
        }
        if x + j >= off && x + j - off < width {
            let tx = x + j - off;
            proof {
                assert(y * width + tx < (y + 1) * width) by (nonlinear_arith)
                    requires
                        tx < width,
                ;
            }
            let a = p1[y * width + tx] as i64;
            let b = p2[y * width + tx] as i64;
            let c = hk[j];
            proof {
                assert(a1[y * width + tx] == a as int);
                assert(a2[y * width + tx] == b as int);
                lemma_term_bound(a as int, b as int, 2, m);
                lemma_term_bound(a as int, b as int, 3, m);
                lemma_term_bound(a as int, b as int, 4, m);
                lemma_term_bound(a as int, b as int, 0, m);
                lemma_term_bound(a as int, b as int, 1, m);
            }
            let aa = a * a;
            let ab = a * b;
            let bb = b * b;
            proof {
                assert(k[j as int] == c as int);
                lemma_elem_le_sum(k, j as int);
                lemma_mul_le(q, c as int, kernel_sum(k, k.len() as int));
                assert(q * c == c * q && q * kernel_sum(k, k.len() as int) == kernel_sum(k, k.len() as int) * q) by (nonlinear_arith);
                lemma_mul_le(c as int, a as int, q);
                lemma_mul_le(c as int, b as int, q);
                lemma_mul_le(c as int, aa as int, q);
                lemma_mul_le(c as int, ab as int, q);
                lemma_mul_le(c as int, bb as int, q);
                assert(1 <= q);
                lemma_mul_le(c as int, 1, q);
                let hs0 = horiz_sum(a1, a2, width as int, y as int, x as int, k, 0, j + 1);
                assert(hs0 == moment(acc, 0) + c * a);
                assert(hs0 <= kernel_sum(k, j + 1) * q);
                let hs1 = horiz_sum(a1, a2, width as int, y as int, x as int, k, 1, j + 1);
                assert(hs1 == moment(acc, 1) + c * b);
                assert(hs1 <= kernel_sum(k, j + 1) * q);
                let hs2 = horiz_sum(a1, a2, width as int, y as int, x as int, k, 2, j + 1);
                assert(hs2 == moment(acc, 2) + c * aa);
                assert(hs2 <= kernel_sum(k, j + 1) * q);
                let hs3 = horiz_sum(a1, a2, width as int, y as int, x as int, k, 3, j + 1);
                assert(hs3 == moment(acc, 3) + c * ab);
                assert(hs3 <= kernel_sum(k, j + 1) * q);
                let hs4 = horiz_sum(a1, a2, width as int, y as int, x as int, k, 4, j + 1);
                assert(hs4 == moment(acc, 4) + c * bb);
                assert(hs4 <= kernel_sum(k, j + 1) * q);
                let hs5 = horiz_sum(a1, a2, width as int, y as int, x as int, k, 5, j + 1);
                assert(hs5 == moment(acc, 5) + c);
                assert(hs5 <= kernel_sum(k, j + 1) * q);
            }
            acc = SsimMoments {
                mux: acc.mux + c * a,
                muy: acc.muy + c * b,
                x2: acc.x2 + c * aa,
                xy: acc.xy + c * ab,
                y2: acc.y2 + c * bb,
                w: acc.w + c,
            };
        }
        j = j + 1;
    }
    acc
}

/// The horizontal moments of every pixel of every row.
fn horizontal_pass(
    p1: &[u32],
    p2: &[u32],
    width: usize,
    height: usize,
    hk: &[i64],
    Ghost(m): Ghost<int>,
) -> (rows: Vec<Vec<SsimMoments>>)
    requires
        width * height <= p1@.len(),
        width * height <= p2@.len(),
        width + hk@.len() <= usize::MAX,
        samples_within(u32_ints(p1@), m),
        samples_within(u32_ints(p2@), m),
        0 <= m,
        forall|i: int| 0 <= i < hk@.len() ==> 0 <= #[trigger] hk@[i],
        kernel_sum(kernel_ints(hk@), hk@.len() as int) * (m * m + 1) <= 0x4000_0000_0000_0000,
        1 <= kernel_sum(kernel_ints(hk@), hk@.len() as int),
    ensures
        rows@.len() == height,
        forall|t: int| 0 <= t < height ==> (#[trigger] rows@[t])@.len() == width,
        forall|t: int, x: int, kind: int|
            0 <= t < height && 0 <= x < width && 0 <= kind < 6 ==> #[trigger] moment(rows@[t]@[x], kind)
                == horiz_sum(
                u32_ints(p1@),
                u32_ints(p2@),
                width as int,
                t,
                x,
                kernel_ints(hk@),
                kind,
                hk@.len() as int,
            ),
{
    let mut rows: Vec<Vec<SsimMoments>> = Vec::new();
    let mut y: usize = 0;
    while y < height
        invariant
            width * height <= p1@.len(),
            width * height <= p2@.len(),
            width + hk@.len() <= usize::MAX,
            samples_within(u32_ints(p1@), m),
            samples_within(u32_ints(p2@), m),
            0 <= m,
            forall|i: int| 0 <= i < hk@.len() ==> 0 <= #[trigger] hk@[i],
            kernel_sum(kernel_ints(hk@), hk@.len() as int) * (m * m + 1) <= 0x4000_0000_0000_0000,
            1 <= kernel_sum(kernel_ints(hk@), hk@.len() as int),
            y <= height,
            rows@.len() == y,
            forall|t: int| 0 <= t < y ==> (#[trigger] rows@[t])@.len() == width,
            forall|t: int, x: int, kind: int|
                0 <= t < y && 0 <= x < width && 0 <= kind < 6 ==> #[trigger] moment(rows@[t]@[x], kind)
                    == horiz_sum(
                    u32_ints(p1@),
                    u32_ints(p2@),
                    width as int,
                    t,
                    x,
                    kernel_ints(hk@),
                    kind,
                    hk@.len() as int,
                ),
        decreases height - y,
    {
        proof {
            assert((y + 1) * width <= width * height) by (nonlinear_arith)
                requires
                    y + 1 <= height,
            ;
        }
        let mut row: Vec<SsimMoments> = Vec::new();
        let mut x: usize = 0;
        while x < width
            invariant
                (y + 1) * width <= p1@.len(),
                (y + 1) * width <= p2@.len(),
                width + hk@.len() <= usize::MAX,
                samples_within(u32_ints(p1@), m),
                samples_within(u32_ints(p2@), m),
                0 <= m,
                forall|i: int| 0 <= i < hk@.len() ==> 0 <= #[trigger] hk@[i],
                kernel_sum(kernel_ints(hk@), hk@.len() as int) * (m * m + 1)
                    <= 0x4000_0000_0000_0000,
                1 <= kernel_sum(kernel_ints(hk@), hk@.len() as int),
                x <= width,
                row@.len() == x,
                forall|xx: int, kind: int|
                    0 <= xx < x && 0 <= kind < 6 ==> #[trigger] moment(row@[xx], kind) == horiz_sum(
                        u32_ints(p1@),
                        u32_ints(p2@),
                        width as int,
                        y as int,
                        xx,
                        kernel_ints(hk@),
                        kind,
                        hk@.len() as int,
                    ),
            decreases width - x,
        {
            let mo = horiz_pixel(p1, p2, width, y, x, hk, Ghost(m));
            row.push(mo);
            x = x + 1;
        }
        rows.push(row);
        y = y + 1;
    }
    rows
}

/// Calculates the windowed moments of every pixel pair of two planes of
/// `width` by `height` samples, under the separable window given by
/// `vert_kernel` and `horiz_kernel`; window taps that fall outside the plane
/// are left out. The result holds the pixels row after row.
pub fn calculate_plane_ssim_moments(
    plane1: &[u32],
    plane2: &[u32],
    width: usize,
    height: usize,
    sample_max: u32,
    vert_kernel: &[i64],
    horiz_kernel: &[i64],
) -> (r: Vec<SsimMoments>)
    requires
        width * height <= plane1@.len(),
        width * height <= plane2@.len(),
        width + horiz_kernel@.len() <= usize::MAX,
        height + vert_kernel@.len() <= usize::MAX,
        samples_within(u32_ints(plane1@), sample_max as int),
        samples_within(u32_ints(plane2@), sample_max as int),
        window_fits(kernel_ints(vert_kernel@), kernel_ints(horiz_kernel@), sample_max as int),
    ensures
        r@.len() == width * height,
        forall|i: int|
            0 <= i < r@.len() ==> pixel_moments_ok(
                #[trigger] r@[i],
                u32_ints(plane1@),
                u32_ints(plane2@),
                width as int,
                height as int,
                i / width as int,
                i % width as int,
                kernel_ints(vert_kernel@),
                kernel_ints(horiz_kernel@),
            ),
{
    let ghost m = sample_max as int;
    let ghost a1 = u32_ints(plane1@);
    let ghost a2 = u32_ints(plane2@);
    let ghost vk_i = kernel_ints(vert_kernel@);
    let ghost hk_i = kernel_ints(horiz_kernel@);
    let ghost w = width as int;
    let ghost h = height as int;
    let ghost q = m * m + 1;
    let ghost hb = kernel_sum(hk_i, hk_i.len() as int) * q;
    proof {
        assert forall|i: int| 0 <= i < horiz_kernel@.len() implies 0 <= #[trigger] horiz_kernel@[i] by {
            assert(hk_i[i] == horiz_kernel@[i] as int);
        }
        assert(0 <= m * m) by (nonlinear_arith);
        lemma_kernel_sum_nonneg(hk_i, hk_i.len() as int);
        lemma_kernel_sum_nonneg(vk_i, vk_i.len() as int);
        assert(kernel_sum(vk_i, vk_i.len() as int) * kernel_sum(hk_i, hk_i.len() as int) * q
            == kernel_sum(vk_i, vk_i.len() as int) * hb) by (nonlinear_arith)
            requires hb == kernel_sum(hk_i, hk_i.len() as int) * q;
        assert(0 <= hb) by (nonlinear_arith)
            requires hb == kernel_sum(hk_i, hk_i.len() as int) * q, 0 <= kernel_sum(hk_i, hk_i.len() as int), 1 <= q;
        lemma_mul_le(hb, 1, kernel_sum(vk_i, vk_i.len() as int));
        assert(hb * kernel_sum(vk_i, vk_i.len() as int) == kernel_sum(vk_i, vk_i.len() as int) * hb) by (nonlinear_arith);
    }
    let rows = horizontal_pass(plane1, plane2, width, height, horiz_kernel, Ghost(m));
    let vlen = vert_kernel.len();
    let voff = vlen / 2;
    let mut out: Vec<SsimMoments> = Vec::new();
    let mut y: usize = 0;
    while y < height
        invariant
            rows@.len() == height,
            forall|t: int| 0 <= t < height ==> (#[trigger] rows@[t])@.len() == width,
            forall|t: int, x: int, kind: int|
                0 <= t < height && 0 <= x < width && 0 <= kind < 6 ==> #[trigger] moment(rows@[t]@[x], kind)
                    == horiz_sum(a1, a2, w, t, x, hk_i, kind, hk_i.len() as int),
            a1 == u32_ints(plane1@),
            a2 == u32_ints(plane2@),
            vk_i == kernel_ints(vert_kernel@),
            hk_i == kernel_ints(horiz_kernel@),
            w == width,
            h == height,
            vlen == vert_kernel@.len(),
            voff == vlen / 2,
            height + vlen <= usize::MAX,
            width * height <= a1.len(),
            width * height <= a2.len(),
            samples_within(a1, m),
            samples_within(a2, m),
            0 <= m,
            q == m * m + 1,
            hb == kernel_sum(hk_i, hk_i.len() as int) * q,
            0 <= hb,
            kernel_sum(vk_i, vk_i.len() as int) * hb <= 0x4000_0000_0000_0000,
            window_fits(vk_i, hk_i, m),
            y <= height,
            out@.len() == y * width,
            forall|i: int|
                0 <= i < out@.len() ==> pixel_moments_ok(
                    #[trigger] out@[i],
                    a1,
                    a2,
                    w,
                    h,
                    i / w,
                    i % w,
                    vk_i,
                    hk_i,
                ),
        decreases height - y,
    {
        let mut x: usize = 0;
        while x < width
            invariant
                rows@.len() == height,
                forall|t: int| 0 <= t < height ==> (#[trigger] rows@[t])@.len() == width,
                forall|t: int, x: int, kind: int|
                    0 <= t < height && 0 <= x < width && 0 <= kind < 6 ==> #[trigger] moment(
                        rows@[t]@[x],
                        kind,
                    ) == horiz_sum(a1, a2, w, t, x, hk_i, kind, hk_i.len() as int),
                vk_i == kernel_ints(vert_kernel@),
                w == width,
                h == height,
                vlen == vert_kernel@.len(),
                voff == vlen / 2,
                height + vlen <= usize::MAX,
                width * height <= a1.len(),
                width * height <= a2.len(),
                samples_within(a1, m),
                samples_within(a2, m),
                0 <= m,
                q == m * m + 1,
                hb == kernel_sum(hk_i, hk_i.len() as int) * q,
                0 <= hb,
                kernel_sum(vk_i, vk_i.len() as int) * hb <= 0x4000_0000_0000_0000,
                window_fits(vk_i, hk_i, m),
                y < height,
                x <= width,
                out@.len() == y * width + x,
                forall|i: int|
                    0 <= i < out@.len() ==> pixel_moments_ok(
                        #[trigger] out@[i],
                        a1,
                        a2,
                        w,
                        h,
                        i / w,
                        i % w,
                        vk_i,
                        hk_i,
                    ),
            decreases width - x,
        {
            let acc = vert_pixel(&rows, vert_kernel, width, height, x, y, Ghost(a1), Ghost(a2),
                Ghost(hk_i), Ghost(m));
            proof {
                let i = y * width + x;
                assert(i / w == y as int && i % w == x as int) by (nonlinear_arith)
                    requires
                        i == y * width + x,
                        x < width,
                        w == width,
                ;
            }
            out.push(acc);
            x = x + 1;
        }
        assert(y * width + width == (y + 1) * width) by (nonlinear_arith);
        y = y + 1;
    }
    assert(height * width == width * height) by (nonlinear_arith);
    out
}

/// The windowed moments of pixel (`x`, `y`) from the horizontal moments of
/// every row.
fn vert_pixel(
    rows: &Vec<Vec<SsimMoments>>,
    vert_kernel: &[i64],
    width: usize,
    height: usize,
    x: usize,
    y: usize,
    Ghost(a1): Ghost<Seq<int>>,
    Ghost(a2): Ghost<Seq<int>>,
    Ghost(hk_i): Ghost<Seq<int>>,
    Ghost(m): Ghost<int>,
) -> (acc: SsimMoments)
    requires
        rows@.len() == height,
        forall|t: int| 0 <= t < height ==> (#[trigger] rows@[t])@.len() == width,
        forall|t: int, x: int, kind: int|
            0 <= t < height && 0 <= x < width && 0 <= kind < 6 ==> #[trigger] moment(rows@[t]@[x], kind)
                == horiz_sum(a1, a2, width as int, t, x, hk_i, kind, hk_i.len() as int),
        height + vert_kernel@.len() <= usize::MAX,
        width * height <= a1.len(),
        width * height <= a2.len(),
        samples_within(a1, m),
        samples_within(a2, m),
        window_fits(kernel_ints(vert_kernel@), hk_i, m),
        y < height,
        x < width,
    ensures
        pixel_moments_ok(acc, a1, a2, width as int, height as int, y as int, x as int, kernel_ints(vert_kernel@), hk_i),
{
    let ghost vk_i = kernel_ints(vert_kernel@);
    let ghost w = width as int;
    let ghost h = height as int;
    let ghost q = m * m + 1;
    let ghost hb = kernel_sum(hk_i, hk_i.len() as int) * q;
    proof {
        assert(0 <= m * m) by (nonlinear_arith);
        lemma_kernel_sum_nonneg(hk_i, hk_i.len() as int);
        assert(0 <= hb) by (nonlinear_arith)
            requires hb == kernel_sum(hk_i, hk_i.len() as int) * q, 0 <= kernel_sum(hk_i, hk_i.len() as int), 1 <= q;
        assert(kernel_sum(vk_i, vk_i.len() as int) * kernel_sum(hk_i, hk_i.len() as int) * q
            == kernel_sum(vk_i, vk_i.len() as int) * hb) by (nonlinear_arith)
            requires hb == kernel_sum(hk_i, hk_i.len() as int) * q;
    }
    let vlen = vert_kernel.len();
    let voff = vlen / 2;
    let mut acc = SsimMoments { mux: 0, muy: 0, x2: 0, xy: 0, y2: 0, w: 0 };
    let mut j: usize = 0;
    while j < vlen
        invariant
            rows@.len() == height,
            forall|t: int| 0 <= t < height ==> (#[trigger] rows@[t])@.len() == width,
            forall|t: int, x: int, kind: int|
                0 <= t < height && 0 <= x < width && 0 <= kind < 6 ==> #[trigger] moment(
                    rows@[t]@[x],
                    kind,
                ) == horiz_sum(a1, a2, w, t, x, hk_i, kind, hk_i.len() as int),
            vk_i == kernel_ints(vert_kernel@),
            w == width,
            h == height,
            vlen == vert_kernel@.len(),
            voff == vlen / 2,
            height + vlen <= usize::MAX,
            width * height <= a1.len(),
            width * height <= a2.len(),
            samples_within(a1, m),
            samples_within(a2, m),
            q == m * m + 1,
            hb == kernel_sum(hk_i, hk_i.len() as int) * q,
            0 <= hb,
            kernel_sum(vk_i, vk_i.len() as int) * hb <= 0x4000_0000_0000_0000,
            window_fits(vk_i, hk_i, m),
            y < height,
            x < width,
            j <= vlen,
            forall|kind: int|
                0 <= kind < 6 ==> #[trigger] moment(acc, kind) == window_sum(
                    a1,
                    a2,
                    w,
                    h,
                    y as int,
                    x as int,
                    vk_i,
                    hk_i,
                    kind,
                    j as int,
                ),
        decreases vlen - j,
    {
        if y + j >= voff && y + j - voff < height {
            let ty = y + j - voff;
            let hm = rows[ty][x];
            let c = vert_kernel[j];
            proof {
                assert(vk_i[j as int] == c as int);
                assert(forall|i: int| 0 <= i < vk_i.len() ==> 0 <= #[trigger] vk_i[i]);
                lemma_elem_le_sum(vk_i, j as int);
                lemma_kernel_sum_mono(vk_i, j + 1, vk_i.len() as int);
                lemma_kernel_sum_nonneg(vk_i, j + 1);
                lemma_mul_le(hb, kernel_sum(vk_i, j + 1), kernel_sum(vk_i, vk_i.len() as int));
                lemma_mul_le(hb, c as int, kernel_sum(vk_i, vk_i.len() as int));
                assert(hb * kernel_sum(vk_i, j + 1) == kernel_sum(vk_i, j + 1) * hb) by (nonlinear_arith);
                assert(hb * kernel_sum(vk_i, vk_i.len() as int) == kernel_sum(vk_i, vk_i.len() as int) * hb) by (nonlinear_arith);
                assert(hb * c == c * hb) by (nonlinear_arith);
                assert((ty + 1) * w <= w * h) by (nonlinear_arith)
                    requires
                        ty + 1 <= h,
                        0 <= w,
                ;
                let ws0 = window_sum(a1, a2, w, h, y as int, x as int, vk_i, hk_i, 0, j + 1);
                assert(moment(hm, 0) == horiz_sum(a1, a2, w, ty as int, x as int, hk_i, 0, hk_i.len() as int));
                lemma_window_bound(a1, a2, w, h, y as int, x as int, vk_i, hk_i, 0, j + 1, m);
                lemma_horiz_bound(a1, a2, w, ty as int, x as int, hk_i, 0, hk_i.len() as int, m);
                lemma_mul_le(c as int, moment(hm, 0), hb);
                assert(ws0 == moment(acc, 0) + c * moment(hm, 0));
                let ws1 = window_sum(a1, a2, w, h, y as int, x as int, vk_i, hk_i, 1, j + 1);
                assert(moment(hm, 1) == horiz_sum(a1, a2, w, ty as int, x as int, hk_i, 1, hk_i.len() as int));
                lemma_window_bound(a1, a2, w, h, y as int, x as int, vk_i, hk_i, 1, j + 1, m);
                lemma_horiz_bound(a1, a2, w, ty as int, x as int, hk_i, 1, hk_i.len() as int, m);
                lemma_mul_le(c as int, moment(hm, 1), hb);
                assert(ws1 == moment(acc, 1) + c * moment(hm, 1));
                let ws2 = window_sum(a1, a2, w, h, y as int, x as int, vk_i, hk_i, 2, j + 1);
                assert(moment(hm, 2) == horiz_sum(a1, a2, w, ty as int, x as int, hk_i, 2, hk_i.len() as int));
                lemma_window_bound(a1, a2, w, h, y as int, x as int, vk_i, hk_i, 2, j + 1, m);
                lemma_horiz_bound(a1, a2, w, ty as int, x as int, hk_i, 2, hk_i.len() as int, m);
                lemma_mul_le(c as int, moment(hm, 2), hb);
                assert(ws2 == moment(acc, 2) + c * moment(hm, 2));
                let ws3 = window_sum(a1, a2, w, h, y as int, x as int, vk_i, hk_i, 3, j + 1);
                assert(moment(hm, 3) == horiz_sum(a1, a2, w, ty as int, x as int, hk_i, 3, hk_i.len() as int));
                lemma_window_bound(a1, a2, w, h, y as int, x as int, vk_i, hk_i, 3, j + 1, m);
                lemma_horiz_bound(a1, a2, w, ty as int, x as int, hk_i, 3, hk_i.len() as int, m);
                lemma_mul_le(c as int, moment(hm, 3), hb);
                assert(ws3 == moment(acc, 3) + c * moment(hm, 3));
                let ws4 = window_sum(a1, a2, w, h, y as int, x as int, vk_i, hk_i, 4, j + 1);
                assert(moment(hm, 4) == horiz_sum(a1, a2, w, ty as int, x as int, hk_i, 4, hk_i.len() as int));
                lemma_window_bound(a1, a2, w, h, y as int, x as int, vk_i, hk_i, 4, j + 1, m);
                lemma_horiz_bound(a1, a2, w, ty as int, x as int, hk_i, 4, hk_i.len() as int, m);
                lemma_mul_le(c as int, moment(hm, 4), hb);
                assert(ws4 == moment(acc, 4) + c * moment(hm, 4));
                let ws5 = window_sum(a1, a2, w, h, y as int, x as int, vk_i, hk_i, 5, j + 1);
                assert(moment(hm, 5) == horiz_sum(a1, a2, w, ty as int, x as int, hk_i, 5, hk_i.len() as int));
                lemma_window_bound(a1, a2, w, h, y as int, x as int, vk_i, hk_i, 5, j + 1, m);
                lemma_horiz_bound(a1, a2, w, ty as int, x as int, hk_i, 5, hk_i.len() as int, m);
                lemma_mul_le(c as int, moment(hm, 5), hb);
                assert(ws5 == moment(acc, 5) + c * moment(hm, 5));
            }
            acc = SsimMoments {
                mux: acc.mux + c * hm.mux,
                muy: acc.muy + c * hm.muy,
                x2: acc.x2 + c * hm.x2,
                xy: acc.xy + c * hm.xy,
                y2: acc.y2 + c * hm.y2,
                w: acc.w + c * hm.w,
            };
        }
        j = j + 1;
    }
    acc
}

/// The samples of a plane widened to `u32`.
pub fn plane_to_vec<T: Pixel>(input: &PlaneData<T>) -> (r: Vec<u32>)
    ensures
        u32_ints(r@) == input.samples(),
{
    let mut out: Vec<u32> = Vec::new();
    let mut i: usize = 0;
    while i < input.data.len()
        invariant
            i <= input.data@.len(),
            out@.len() == i,
            forall|j: int| 0 <= j < i ==> #[trigger] out@[j] as int == input.data@[j].value(),
        decreases input.data@.len() - i,
    {
        let v = input.data[i].to_u32();
        out.push(v);
        i = i + 1;
    }
    assert(u32_ints(out@) =~= input.samples());
    out
}

/// Sample (`i`, `j`) of a plane downscaled by two: the sum of the four source
/// samples at (`2i`, `2j`), (`2i + 1`, `2j`), (`2i`, `2j + 1`) and
/// (`2i + 1`, `2j + 1`), the second row and column clamped to the source.
pub open spec fn downscaled_sample(input: Seq<int>, w: int, h: int, i: int, j: int) -> int {
    let i0 = 2 * i;
    let i1 = if i0 + 1 < w - 1 { i0 + 1 } else { w - 1 };
    let j0 = 2 * j;
    let j1 = if j0 + 1 < h - 1 { j0 + 1 } else { h - 1 };
    input[j0 * w + i0] + input[j0 * w + i1] + input[j1 * w + i0] + input[j1 * w + i1]
}

/// Halves a plane in each dimension for the next MS-SSIM scale. Each output
/// sample is the sum, not the mean, of its four source samples, which keeps
/// all of their precision.
pub fn msssim_downscale(input: &[u32], input_width: usize, input_height: usize) -> (r: Vec<u32>)
    requires
        input_width * input_height <= input@.len(),
        forall|k: int| 0 <= k < input@.len() ==> #[trigger] input@[k] < 0x4000_0000,
    ensures
        r@.len() == (input_width / 2) * (input_height / 2),
        forall|k: int|
            0 <= k < r@.len() ==> #[trigger] r@[k] as int == downscaled_sample(
                u32_ints(input@),
                input_width as int,
                input_height as int,
                k % (input_width / 2) as int,
                k / (input_width / 2) as int,
            ),
{
    let output_width = input_width / 2;
    let output_height = input_height / 2;
    let ghost a = u32_ints(input@);
    let n_in = input.len();
    let mut output: Vec<u32> = Vec::new();
    let mut j: usize = 0;
    while j < output_height
        invariant
            output_width == input_width / 2,
            output_height == input_height / 2,
            a == u32_ints(input@),
            input_width * input_height <= input@.len(),
            n_in == input@.len(),
            forall|k: int| 0 <= k < input@.len() ==> #[trigger] input@[k] < 0x4000_0000,
            j <= output_height,
            output@.len() == j * output_width,
            forall|k: int|
                0 <= k < output@.len() ==> #[trigger] output@[k] as int == downscaled_sample(
                    a,
                    input_width as int,
                    input_height as int,
                    k % output_width as int,
                    k / output_width as int,
                ),
        decreases output_height - j,
    {
        let j0 = 2 * j;
        let j1 = if j0 + 1 < input_height - 1 { j0 + 1 } else { input_height - 1 };
        proof {
            assert((j1 + 1) * input_width <= input_height * input_width) by (nonlinear_arith)
                requires
                    j1 + 1 <= input_height,
            ;
            assert(j0 * input_width <= j1 * input_width) by (nonlinear_arith)
                requires
                    j0 <= j1,
            ;
            assert(input_height * input_width == input_width * input_height) by (nonlinear_arith);
        }
        let mut i: usize = 0;
        while i < output_width
            invariant
                output_width == input_width / 2,
                output_height == input_height / 2,
                a == u32_ints(input@),
                input_width * input_height <= input@.len(),
                forall|k: int| 0 <= k < input@.len() ==> #[trigger] input@[k] < 0x4000_0000,
                j < output_height,
                j0 == 2 * j,
                j1 == if j0 + 1 < input_height - 1 { j0 + 1 } else { input_height - 1 },
                (j1 + 1) * input_width <= input@.len(),
                n_in == input@.len(),
                j0 * input_width <= j1 * input_width,
                i <= output_width,
                output@.len() == j * output_width + i,
                forall|k: int|
                    0 <= k < output@.len() ==> #[trigger] output@[k] as int == downscaled_sample(
                        a,
                        input_width as int,
                        input_height as int,
                        k % output_width as int,
                        k / output_width as int,
                    ),
            decreases output_width - i,
        {
            let i0 = 2 * i;
            let i1 = if i0 + 1 < input_width - 1 { i0 + 1 } else { input_width - 1 };
            proof {
                assert(j1 * input_width + input_width == (j1 + 1) * input_width) by (nonlinear_arith);
            }
            let s = input[j0 * input_width + i0] + input[j0 * input_width + i1] + input[j1
                * input_width + i0] + input[j1 * input_width + i1];
            proof {
                let k = j * output_width + i;
                assert(k % (output_width as int) == i as int && k / (output_width as int) == j as int)
                    by (nonlinear_arith)
                    requires
                        k == j * output_width + i,
                        i < output_width,
                ;
            }
            output.push(s);
            i = i + 1;
        }
        assert(j * output_width + output_width == (j + 1) * output_width) by (nonlinear_arith);
        j = j + 1;
    }
    assert(output_height * output_width == output_width * output_height) by (nonlinear_arith);
    output
}

/// The moment that swapping the two planes turns moment `kind` into.
pub open spec fn swapped_kind(kind: int) -> int {
    if kind == 0 {
        1
    } else if kind == 1 {
        0
    } else if kind == 2 {
        4
    } else if kind == 4 {
        2
    } else {
        kind
    }
}

proof fn lemma_horiz_swap(
    p1: Seq<int>,
    p2: Seq<int>,
    w: int,
    y: int,
    x: int,
    hk: Seq<int>,
    kind: int,
    n: int,
)
    ensures
        horiz_sum(p1, p2, w, y, x, hk, kind, n) == horiz_sum(p2, p1, w, y, x, hk, swapped_kind(kind), n),
    decreases n,
{
    if n > 0 {
        lemma_horiz_swap(p1, p2, w, y, x, hk, kind, n - 1);
        let tx = x + (n - 1) - hk.len() / 2;
        if 0 <= tx < w {
            let a = p1[y * w + tx];
            let b = p2[y * w + tx];
            assert(a * b == b * a) by (nonlinear_arith);
        }
    }
}

/// Swapping the two planes swaps the first and second moments and the two
/// squared moments, and keeps the product and the weight: since the SSIM
/// formula is symmetric under that exchange, SSIM, and with it MS-SSIM, does
/// not depend on which plane comes first.
pub proof fn lemma_moments_symmetric(
    p1: Seq<int>,
    p2: Seq<int>,
    w: int,
    h: int,
    y: int,
    x: int,
    vk: Seq<int>,
    hk: Seq<int>,
    kind: int,
    n: int,
)
    ensures
        window_sum(p1, p2, w, h, y, x, vk, hk, kind, n) == window_sum(
            p2,
            p1,
            w,
            h,
            y,
            x,
            vk,
            hk,
            swapped_kind(kind),
            n,
        ),
    decreases n,
{
    if n > 0 {
        lemma_moments_symmetric(p1, p2, w, h, y, x, vk, hk, kind, n - 1);
        let ty = y + (n - 1) - vk.len() / 2;
        lemma_horiz_swap(p1, p2, w, ty, x, hk, kind, hk.len() as int);
    }
}

proof fn lemma_horiz_identical(p: Seq<int>, w: int, y: int, x: int, hk: Seq<int>, n: int)
    ensures
        horiz_sum(p, p, w, y, x, hk, 0, n) == horiz_sum(p, p, w, y, x, hk, 1, n),
        horiz_sum(p, p, w, y, x, hk, 2, n) == horiz_sum(p, p, w, y, x, hk, 3, n),
        horiz_sum(p, p, w, y, x, hk, 4, n) == horiz_sum(p, p, w, y, x, hk, 3, n),
    decreases n,
{
    if n > 0 {
        lemma_horiz_identical(p, w, y, x, hk, n - 1);
    }
}

/// A plane compared with itself has equal first moments and equal squared and
/// product moments at every pixel, which is what `lemma_identical_pixel_saturates`
/// needs for the plane's SSIM to be exactly 1.
pub proof fn lemma_identical_moments(
    p: Seq<int>,
    w: int,
    h: int,
    y: int,
    x: int,
    vk: Seq<int>,
    hk: Seq<int>,
    n: int,
)
    ensures
        window_sum(p, p, w, h, y, x, vk, hk, 0, n) == window_sum(p, p, w, h, y, x, vk, hk, 1, n),
        window_sum(p, p, w, h, y, x, vk, hk, 2, n) == window_sum(p, p, w, h, y, x, vk, hk, 3, n),
        window_sum(p, p, w, h, y, x, vk, hk, 4, n) == window_sum(p, p, w, h, y, x, vk, hk, 3, n),
    decreases n,
{
    if n > 0 {
        lemma_identical_moments(p, w, h, y, x, vk, hk, n - 1);
        let ty = y + (n - 1) - vk.len() / 2;
        lemma_horiz_identical(p, w, ty, x, hk, hk.len() as int);
    }
}

/// The per-pixel SSIM formula on a pixel's moments in exact arithmetic, as
/// (contrast-structure numerator, its denominator, luminance numerator, its
/// denominator), each scaled by 10000 so that `c1 = max^2 * w^2 / 10000` and
/// `c2 = 9 * max^2 * w^2 / 10000` become integers. A pixel's `cs` is the first
/// ratio and its SSIM is `cs` times the second ratio.
pub open spec fn ssim_pixel_terms(m: SsimMoments, sample_max: int) -> (int, int, int, int) {
    let w = m.w as int;
    let mux = m.mux as int;
    let muy = m.muy as int;
    let c = sample_max * sample_max * w * w;
    (
        w * (9 * c + 20000 * (m.xy as int * w - mux * muy)),
        10000 * (m.x2 as int * w - mux * mux + m.y2 as int * w - muy * muy) + 9 * c,
        20000 * mux * muy + c,
        10000 * (mux * mux + muy * muy) + c,
    )
}

/// The moments with the two planes exchanged.
pub open spec fn swapped_moments(m: SsimMoments) -> SsimMoments {
    SsimMoments { mux: m.muy, muy: m.mux, x2: m.y2, xy: m.xy, y2: m.x2, w: m.w }
}

/// Exchanging the two planes leaves every term of the SSIM formula as it is.
pub proof fn lemma_pixel_terms_symmetric(m: SsimMoments, sample_max: int)
    ensures
        ssim_pixel_terms(swapped_moments(m), sample_max) == ssim_pixel_terms(m, sample_max),
{
    let (mux, muy) = (m.mux as int, m.muy as int);
    let (w, xy) = (m.w as int, m.xy as int);
    let c = sample_max * sample_max * w * w;
    assert(mux * muy == muy * mux) by (nonlinear_arith);
    assert(20000 * muy * mux == 20000 * mux * muy) by (nonlinear_arith);
    assert(w * (9 * c + 20000 * (xy * w - muy * mux)) == w * (9 * c + 20000 * (xy * w - mux * muy)))
        by (nonlinear_arith);
    let t = ssim_pixel_terms(swapped_moments(m), sample_max);
    let u = ssim_pixel_terms(m, sample_max);
    assert(t.0 == u.0 && t.1 == u.1 && t.2 == u.2 && t.3 == u.3);
}

/// At a pixel whose moments are those of a plane with itself, `cs` equals the
/// weight `w` and the luminance ratio is 1, so the pixel's SSIM is `w` and the
/// plane's SSIM, the sum over pixels divided by the summed weights, is 1.
pub proof fn lemma_identical_pixel_saturates(m: SsimMoments, sample_max: int)
    requires
        m.mux == m.muy,
        m.x2 == m.xy,
        m.y2 == m.xy,
    ensures
        ssim_pixel_terms(m, sample_max).0 == m.w as int * ssim_pixel_terms(m, sample_max).1,
        ssim_pixel_terms(m, sample_max).2 == ssim_pixel_terms(m, sample_max).3,
{
    let w = m.w as int;
    let mu = m.mux as int;
    let s = m.xy as int;
    let c = sample_max * sample_max * w * w;
    assert(w * (9 * c + 20000 * (s * w - mu * mu)) == w * (10000 * (s * w - mu * mu + s * w - mu
        * mu) + 9 * c)) by (nonlinear_arith);
    assert(20000 * mu * mu + c == 10000 * (mu * mu + mu * mu) + c) by (nonlinear_arith);
}

/// The window that `assemble_gaussian_kernel` builds: `sides[i]` at distance
/// `i + 1` on both sides of the centre.
pub open spec fn assembled_kernel(sides: Seq<int>, kernel_weight: int) -> Seq<int> {
    let n = sides.len() as int;
    Seq::new(
        (2 * n + 1) as nat,
        |k: int|
            if k == n {
                kernel_weight - 2 * kernel_sum(sides, n)
            } else if k < n {
                sides[n - 1 - k]
            } else {
                sides[k - n - 1]
            },
    )
}

proof fn lemma_kernel_sum_prefix(a: Seq<int>, b: Seq<int>, n: int)
    requires
        0 <= n <= a.len(),
        n <= b.len(),
        forall|i: int| 0 <= i < n ==> a[i] == b[i],
    ensures
        kernel_sum(a, n) == kernel_sum(b, n),
    decreases n,
{
    if n > 0 {
        lemma_kernel_sum_prefix(a, b, n - 1);
    }
}

proof fn lemma_assembled_partial(sides: Seq<int>, kernel_weight: int, j: int)
    requires
        0 <= j <= sides.len(),
    ensures
        kernel_sum(assembled_kernel(sides, kernel_weight), j) == kernel_sum(sides, sides.len() as int)
            - kernel_sum(sides, sides.len() - j),
    decreases j,
{
    if j > 0 {
        lemma_assembled_partial(sides, kernel_weight, j - 1);
    }
}

proof fn lemma_assembled_upper(sides: Seq<int>, kernel_weight: int, j: int)
    requires
        0 <= j <= sides.len(),
    ensures
        kernel_sum(assembled_kernel(sides, kernel_weight), sides.len() + 1 + j) == kernel_weight
            - kernel_sum(sides, sides.len() as int) + kernel_sum(sides, j),
    decreases j,
{
    let n = sides.len() as int;
    if j > 0 {
        lemma_assembled_upper(sides, kernel_weight, j - 1);
    } else {
        lemma_assembled_partial(sides, kernel_weight, n);
    }
}

/// A window assembled from side weights sums to `kernel_weight`.
pub proof fn lemma_assembled_kernel_sum(sides: Seq<int>, kernel_weight: int)
    ensures
        kernel_sum(assembled_kernel(sides, kernel_weight), 2 * sides.len() as int + 1) == kernel_weight,
{
    lemma_assembled_upper(sides, kernel_weight, sides.len() as int);
}

/// Builds a symmetric window from its side weights: `sides[i]` at distance
/// `i + 1` on both sides of the centre, whose weight makes the window sum to
/// `kernel_weight`.
pub fn assemble_gaussian_kernel(sides: &[i64], kernel_weight: i64) -> (r: Vec<i64>)
    requires
        sides@.len() < 0x1_0000,
        forall|i: int| 0 <= i < sides@.len() ==> 0 <= #[trigger] sides@[i] <= 0x1_0000_0000,
        0 <= kernel_weight <= 0x1_0000_0000,
    ensures
        kernel_ints(r@) == assembled_kernel(kernel_ints(sides@), kernel_weight as int),
        kernel_sum(kernel_ints(r@), r@.len() as int) == kernel_weight,
{
    let n = sides.len();
    let ghost s = kernel_ints(sides@);
    let mut sum: i64 = 0;
    let mut i: usize = 0;
    while i < n
        invariant
            n == sides@.len(),
            n < 0x1_0000,
            s == kernel_ints(sides@),
            forall|k: int| 0 <= k < sides@.len() ==> 0 <= #[trigger] sides@[k] <= 0x1_0000_0000,
            i <= n,
            sum == kernel_sum(s, i as int),
            0 <= sum <= i * 0x1_0000_0000,
        decreases n - i,
    {
        assert(s[i as int] == sides@[i as int] as int);
        sum = sum + sides[i];
        i = i + 1;
    }
    let ghost want = assembled_kernel(s, kernel_weight as int);
    let mut out: Vec<i64> = Vec::new();
    let mut k: usize = 0;
    while k < n
        invariant
            n == sides@.len(),
            s == kernel_ints(sides@),
            want == assembled_kernel(s, kernel_weight as int),
            k <= n,
            out@.len() == k,
            forall|j: int| 0 <= j < k ==> #[trigger] out@[j] as int == want[j],
        decreases n - k,
    {
        assert(s[(n - 1 - k) as int] == sides@[(n - 1 - k) as int] as int);
        out.push(sides[n - 1 - k]);
        k = k + 1;
    }
    out.push(kernel_weight - 2 * sum);
    let mut k: usize = 0;
    while k < n
        invariant
            n == sides@.len(),
            s == kernel_ints(sides@),
            want == assembled_kernel(s, kernel_weight as int),
            sum == kernel_sum(s, n as int),
            k <= n,
            out@.len() == n + 1 + k,
            forall|j: int| 0 <= j < n + 1 + k ==> #[trigger] out@[j] as int == want[j],
        decreases n - k,
    {
        assert(s[k as int] == sides@[k as int] as int);
        out.push(sides[k]);
        k = k + 1;
    }
    proof {
        assert(kernel_ints(out@) =~= want);
        lemma_assembled_kernel_sum(s, kernel_weight as int);
    }
    out
}

/// One scale of the MS-SSIM pyramid: its samples, width, height and largest
/// possible sample value.
#[derive(Debug, Clone, PartialEq, Eq)]
pub struct ScaleLevel {
    /// The samples, row after row.
    pub samples: Vec<u32>,
    /// Width in samples.
    pub width: usize,
    /// Height in samples.
    pub height: usize,
    /// The largest value a sample can have at this scale.
    pub sample_max: u32,
}

/// A downscaled plane: every sample as `downscaled_sample` gives it.
pub open spec fn downscaled(input: Seq<int>, w: int, h: int) -> Seq<int> {
    Seq::new(
        ((w / 2) * (h / 2)) as nat,
        |k: int| downscaled_sample(input, w, h, k % (w / 2), k / (w / 2)),
    )
}

proof fn lemma_downscale_within(input: Seq<int>, w: int, h: int, m: int, k: int)
    requires
        0 <= w,
        0 <= h,
        w * h <= input.len(),
        samples_within(input, m),
        0 <= k < (w / 2) * (h / 2),
    ensures
        0 <= downscaled_sample(input, w, h, k % (w / 2), k / (w / 2)) <= 4 * m,
{
    let ow = w / 2;
    let oh = h / 2;
    let i = k % ow;
    let j = k / ow;
    assert(ow > 0) by (nonlinear_arith)
        requires
            0 <= k < ow * oh,
            0 <= ow,
            0 <= oh,
    ;
    assert(0 <= i < ow && 0 <= j < oh) by (nonlinear_arith)
        requires
            i == k % ow,
            j == k / ow,
            0 <= k < ow * oh,
            ow > 0,
    ;
    let i0 = 2 * i;
    let i1 = if i0 + 1 < w - 1 { i0 + 1 } else { w - 1 };
    let j0 = 2 * j;
    let j1 = if j0 + 1 < h - 1 { j0 + 1 } else { h - 1 };
    assert(0 <= j0 * w + i0 < w * h && 0 <= j0 * w + i1 < w * h && 0 <= j1 * w + i0 < w * h && 0
        <= j1 * w + i1 < w * h) by (nonlinear_arith)
        requires
            0 <= i0 < w,
            0 <= i1 < w,
            0 <= j0 < h,
            0 <= j1 < h,
    ;
}

/// The five scales of MS-SSIM: the plane itself, then four times halved in
/// each dimension by summing 2x2 samples, the largest sample value growing
/// fourfold at each step.
pub fn msssim_pyramid(plane: &[u32], width: usize, height: usize, sample_max: u32) -> (r: Vec<ScaleLevel>)
    requires
        width * height <= plane@.len(),
        samples_within(u32_ints(plane@), sample_max as int),
        sample_max < 0x40_0000,
    ensures
        r@.len() == 5,
        r@[0].width == width && r@[0].height == height && r@[0].sample_max == sample_max,
        u32_ints(r@[0].samples@) == u32_ints(plane@),
        forall|k: int|
            0 <= k < 4 ==> {
                &&& #[trigger] r@[k + 1].width == r@[k].width / 2
                &&& r@[k + 1].height == r@[k].height / 2
                &&& r@[k + 1].sample_max == 4 * r@[k].sample_max
                &&& u32_ints(r@[k + 1].samples@) == downscaled(
                    u32_ints(r@[k].samples@),
                    r@[k].width as int,
                    r@[k].height as int,
                )
            },
        forall|k: int|
            0 <= k < 5 ==> #[trigger] r@[k].width * r@[k].height <= r@[k].samples@.len()
                && samples_within(u32_ints(r@[k].samples@), r@[k].sample_max as int),
{
    let mut levels: Vec<ScaleLevel> = Vec::new();
    let mut samples: Vec<u32> = Vec::new();
    let mut i: usize = 0;
    while i < plane.len()
        invariant
            i <= plane@.len(),
            samples@ == plane@.subrange(0, i as int),
        decreases plane@.len() - i,
    {
        samples.push(plane[i]);
        i = i + 1;
    }
    assert(samples@ =~= plane@);
    let mut level = ScaleLevel { samples, width, height, sample_max };
    let mut n: usize = 0;
    while n < 4
        invariant
            n <= 4,
            levels@.len() == n,
            level.width * level.height <= level.samples@.len(),
            samples_within(u32_ints(level.samples@), level.sample_max as int),
            level.sample_max < scale_bound(n as int),
            n == 0 ==> level.width == width && level.height == height && level.sample_max
                == sample_max && u32_ints(level.samples@) == u32_ints(plane@),
            n > 0 ==> level.width == levels@[n - 1].width / 2 && level.height == levels@[n
                - 1].height / 2 && level.sample_max == 4 * levels@[n - 1].sample_max && u32_ints(
                level.samples@,
            ) == downscaled(
                u32_ints(levels@[n - 1].samples@),
                levels@[n - 1].width as int,
                levels@[n - 1].height as int,
            ),
            levels@.len() > 0 ==> levels@[0].width == width && levels@[0].height == height
                && levels@[0].sample_max == sample_max && u32_ints(levels@[0].samples@) == u32_ints(
                plane@,
            ),
            forall|k: int|
                0 <= k < n - 1 ==> {
                    &&& #[trigger] levels@[k + 1].width == levels@[k].width / 2
                    &&& levels@[k + 1].height == levels@[k].height / 2
                    &&& levels@[k + 1].sample_max == 4 * levels@[k].sample_max
                    &&& u32_ints(levels@[k + 1].samples@) == downscaled(
                        u32_ints(levels@[k].samples@),
                        levels@[k].width as int,
                        levels@[k].height as int,
                    )
                },
            forall|k: int|
                0 <= k < n ==> #[trigger] levels@[k].width * levels@[k].height
                    <= levels@[k].samples@.len() && samples_within(
                    u32_ints(levels@[k].samples@),
                    levels@[k].sample_max as int,
                ),
        decreases 4 - n,
    {
        let ghost a = u32_ints(level.samples@);
        proof {
            assert forall|k: int| 0 <= k < level.samples@.len() implies #[trigger] level.samples@[k]
                < 0x4000_0000 by {
                assert(a[k] == level.samples@[k] as int);
            }
        }
        let down = msssim_downscale(&level.samples, level.width, level.height);
        let next_max = 4 * level.sample_max;
        proof {
            assert(u32_ints(down@) =~= downscaled(a, level.width as int, level.height as int));
            assert forall|k: int| 0 <= k < down@.len() implies 0 <= #[trigger] u32_ints(down@)[k]
                <= next_max as int by {
                lemma_downscale_within(a, level.width as int, level.height as int,
                    level.sample_max as int, k);
            }
            assert((level.width / 2) * (level.height / 2) == down@.len());
        }
        let next = ScaleLevel {
            samples: down,
            width: level.width / 2,
            height: level.height / 2,
            sample_max: next_max,
        };
        let ghost prev = level;
        levels.push(level);
        level = next;
        proof {
            assert(levels@[n as int] == prev);
        }
        n = n + 1;
    }
    levels.push(level);
    levels
}

/// A bound on the largest sample value at scale `n` of the pyramid:
/// `2^22 * 4^n`, which keeps every sum of four samples below `2^30`.
pub open spec fn scale_bound(n: int) -> int {
    if n <= 0 {
        0x40_0000
    } else if n == 1 {
        0x100_0000
    } else if n == 2 {
        0x400_0000
    } else if n == 3 {
        0x1000_0000
    } else {
        0x4000_0000
    }
}

} // verus!

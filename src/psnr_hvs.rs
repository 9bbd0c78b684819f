//! PSNR-HVS: the integer part of the per-block analysis. Each plane is covered
//! by 8x8 blocks in steps of 7; each block is transformed by the integer DCT,
//! whose coefficients are then masked and weighted by the contrast
//! sensitivity tables.
use vstd::prelude::*;

use crate::dct::{fdct8x8_spec, ints32, od_bin_fdct8x8};
use crate::frame::PlaneData;
use crate::pixel::Pixel;

verus! {

/// The distance between neighbouring blocks.
pub const STEP: usize = 7;

/// The number of block positions along an axis of `len` samples: starts `0, 7,
/// 14, ...` below `len - 7`.
pub open spec fn block_count(len: int) -> int {
    if len <= 7 {
        0
    } else {
        (len - 7 + 6) / 7
    }
}

/// The first sample of each block along an axis of `len` samples: multiples of
/// 7 below `len - 7`, so that every block of 8 lies inside the axis.
pub fn block_starts(len: usize) -> (r: Vec<usize>)
    ensures
        r@.len() == block_count(len as int),
        forall|k: int| 0 <= k < r@.len() ==> #[trigger] r@[k] == 7 * k,
        forall|k: int| 0 <= k < r@.len() ==> r@[k] + 8 <= len,
{
    let mut out: Vec<usize> = Vec::new();
    if len <= STEP {
        return out;
    }
    let end = len - STEP;
    let mut s: usize = 0;
    while s < end
        invariant
            end == len - 7,
            len > 7,
            s == 7 * out@.len(),
            s <= end + 6,
            forall|k: int| 0 <= k < out@.len() ==> #[trigger] out@[k] == 7 * k,
            forall|k: int| 0 <= k < out@.len() ==> out@[k] < end,
        decreases end + 7 - s,
    {
        out.push(s);
        s = s + STEP;
    }
    out
}

/// A sample as the signed 16-bit value that the block transform reads.
pub open spec fn as_i16(v: int) -> int {
    if v < 32768 {
        v
    } else {
        v - 65536
    }
}

/// The 8x8 block whose top-left sample is (`x`, `y`), as signed 16-bit values,
/// row after row.
pub open spec fn block_spec(samples: Seq<int>, width: int, x: int, y: int) -> Seq<int> {
    Seq::new(64, |n: int| as_i16(samples[(y + n / 8) * width + x + n % 8]))
}

/// Reads the 8x8 block whose top-left sample is (`x`, `y`).
pub fn extract_block<T: Pixel>(plane: &PlaneData<T>, x: usize, y: usize) -> (r: [i32; 64])
    requires
        plane.wf(),
        x + 8 <= plane.width,
        y + 8 <= plane.height,
    ensures
        ints32(r) == block_spec(plane.samples(), plane.width as int, x as int, y as int),
        forall|n: int| 0 <= n < 64 ==> -32768 <= #[trigger] r[n] < 32768,
{
    let width = plane.width;
    let len = plane.data.len();
    let ghost s = plane.samples();
    let mut block: [i32; 64] = [0; 64];
    let mut i: usize = 0;
    while i < 8
        invariant
            plane.wf(),
            width == plane.width,
            s == plane.samples(),
            len == plane.data@.len(),
            x + 8 <= plane.width,
            y + 8 <= plane.height,
            i <= 8,
            forall|n: int|
                0 <= n < 8 * i ==> #[trigger] block[n] as int == as_i16(
                    s[(y + n / 8) * width + x + n % 8],
                ),
            forall|n: int| 0 <= n < 64 ==> -32768 <= #[trigger] block[n] < 32768,
        decreases 8 - i,
    {
        proof {
            assert((y + i + 1) * width <= plane.height * width) by (nonlinear_arith)
                requires
                    y + i + 1 <= plane.height,
            ;
            assert(plane.height * width == width * plane.height) by (nonlinear_arith);
            assert((y + i) * width + width == (y + i + 1) * width) by (nonlinear_arith);
        }
        let row = (y + i) * width + x;
        let mut j: usize = 0;
        while j < 8
            invariant
                plane.wf(),
                width == plane.width,
                s == plane.samples(),
                x + 8 <= plane.width,
                i < 8,
                row == (y + i) * width + x,
                row + 8 <= plane.data@.len(),
                len == plane.data@.len(),
                j <= 8,
                forall|n: int|
                    0 <= n < 8 * i + j ==> #[trigger] block[n] as int == as_i16(
                        s[(y + n / 8) * width + x + n % 8],
                    ),
                forall|n: int| 0 <= n < 64 ==> -32768 <= #[trigger] block[n] < 32768,
            decreases 8 - j,
        {
            let v = plane.data[row + j].to_u32();
            proof {
                plane.data@[row + j].lemma_value_range();
            }
            let signed = if v < 32768 { v as i32 } else { v as i32 - 65536 };
            block[8 * i + j] = signed;
            proof {
                let n = 8 * i + j;
                assert(n / 8 == i as int && n % 8 == j as int);
                assert(s[row + j] == v as int);
            }
            j = j + 1;
        }
        i = i + 1;
    }
    block
}

/// The transform coefficients of the 8x8 block whose top-left sample is
/// (`x`, `y`).
pub fn block_coefficients<T: Pixel>(plane: &PlaneData<T>, x: usize, y: usize) -> (r: [i32; 64])
    requires
        plane.wf(),
        x + 8 <= plane.width,
        y + 8 <= plane.height,
    ensures
        ints32(r) == fdct8x8_spec(
            block_spec(plane.samples(), plane.width as int, x as int, y as int),
        ),
{
    let mut block = extract_block(plane, x, y);
    od_bin_fdct8x8(&mut block);
    block
}

/// Which 4x4 quadrant of a block sample (`i`, `j`) lies in: 0 top left,
/// 1 bottom left, 2 top right, 3 bottom right.
pub open spec fn quadrant_spec(i: int, j: int) -> int {
    (if i >= 4 { 1int } else { 0int }) + (if j >= 4 { 2int } else { 0int })
}

/// The quadrant of sample (`i`, `j`) of a block, for the per-quadrant means
/// and variances.
pub fn block_quadrant(i: usize, j: usize) -> (r: usize)
    requires
        i < 8,
        j < 8,
    ensures
        r as int == quadrant_spec(i as int, j as int),
{
    let a = (i & 12) >> 2;
    let b = (j & 12) >> 1;
    assert(a == if i >= 4 { 1usize } else { 0usize }) by (bit_vector)
        requires
            i < 8,
            a == (i & 12) >> 2,
    ;
    assert(b == if j >= 4 { 2usize } else { 0usize }) by (bit_vector)
        requires
            j < 8,
            b == (j & 12) >> 1,
    ;
    a + b
}

/// Sums over the samples of a block: of the values and of their squares, over
/// the whole block and over each 4x4 quadrant. The block's means and
/// variances, which scale the masking threshold, follow from them.
#[derive(Debug, Clone, Copy, PartialEq, Eq)]
pub struct BlockMoments {
    /// Sum of the 64 values.
    pub sum: i64,
    /// Sum of the 64 squared values.
    pub sq_sum: i64,
    /// Sum of the values of each quadrant, numbered as by `block_quadrant`.
    pub quadrant_sums: [i64; 4],
    /// Sum of the squared values of each quadrant.
    pub quadrant_sq_sums: [i64; 4],
}

/// Sum of the first `k` values of a block, taking those of quadrant `q` only
/// when `q` is in 0..4, all of them otherwise; squared when `squares` holds.
pub open spec fn block_partial_sum(b: Seq<int>, q: int, squares: bool, k: int) -> int
    decreases k,
{
    if k <= 0 {
        0
    } else {
        let v = b[k - 1];
        let counted = !(0 <= q < 4) || quadrant_spec((k - 1) / 8, (k - 1) % 8) == q;
        block_partial_sum(b, q, squares, k - 1) + if counted {
            if squares {
                v * v
            } else {
                v
            }
        } else {
            0
        }
    }
}

proof fn lemma_block_partial_bound(b: Seq<int>, q: int, k: int)
    requires
        0 <= k <= b.len(),
        forall|n: int| 0 <= n < b.len() ==> -32768 <= #[trigger] b[n] <= 32768,
    ensures
        -32768 * k <= block_partial_sum(b, q, false, k) <= 32768 * k,
        0 <= block_partial_sum(b, q, true, k) <= 0x4000_0000 * k,
    decreases k,
{
    if k > 0 {
        lemma_block_partial_bound(b, q, k - 1);
        let v = b[k - 1];
        assert(0 <= v * v <= 0x4000_0000) by (nonlinear_arith)
            requires
                -32768 <= v <= 32768,
        ;
    }
}

/// Calculates the sums of a block's values and squared values, over the
/// whole block and per quadrant.
pub fn block_moments(block: &[i32; 64]) -> (r: BlockMoments)
    requires
        forall|n: int| 0 <= n < 64 ==> -32768 <= #[trigger] block[n] <= 32768,
    ensures
        r.sum == block_partial_sum(ints32(*block), -1, false, 64),
        r.sq_sum == block_partial_sum(ints32(*block), -1, true, 64),
        forall|q: int|
            0 <= q < 4 ==> #[trigger] r.quadrant_sums[q] == block_partial_sum(
                ints32(*block),
                q,
                false,
                64,
            ) && r.quadrant_sq_sums[q] == block_partial_sum(ints32(*block), q, true, 64),
{
    let ghost b = ints32(*block);
    let mut sum: i64 = 0;
    let mut sq_sum: i64 = 0;
    let mut qs: [i64; 4] = [0; 4];
    let mut qsq: [i64; 4] = [0; 4];
    let mut n: usize = 0;
    while n < 64
        invariant
            b == ints32(*block),
            forall|m: int| 0 <= m < 64 ==> -32768 <= #[trigger] block[m] <= 32768,
            n <= 64,
            sum == block_partial_sum(b, -1, false, n as int),
            sq_sum == block_partial_sum(b, -1, true, n as int),
            forall|q: int|
                0 <= q < 4 ==> #[trigger] qs[q] == block_partial_sum(b, q, false, n as int)
                    && qsq[q] == block_partial_sum(b, q, true, n as int),
        decreases 64 - n,
    {
        let v = block[n] as i64;
        let quadrant = block_quadrant(n / 8, n % 8);
        proof {
            assert(b[n as int] == v as int);
            assert(b.len() == 64);
            lemma_block_partial_bound(b, -1, n as int);
            assert forall|q: int| 0 <= q < 4 implies -32768 * n <= #[trigger] block_partial_sum(
                b,
                q,
                false,
                n as int,
            ) <= 32768 * n && 0 <= block_partial_sum(b, q, true, n as int) <= 0x4000_0000 * n by {
                lemma_block_partial_bound(b, q, n as int);
            }
            assert(0 <= v * v <= 0x4000_0000) by (nonlinear_arith)
                requires
                    -32768 <= v <= 32768,
            ;
        }
        let ghost old_qs = qs;
        let ghost old_qsq = qsq;
        sum = sum + v;
        sq_sum = sq_sum + v * v;
        qs[quadrant] = qs[quadrant] + v;
        qsq[quadrant] = qsq[quadrant] + v * v;
        proof {
            assert forall|q: int| 0 <= q < 4 implies #[trigger] qs[q] == block_partial_sum(
                b,
                q,
                false,
                n + 1,
            ) && qsq[q] == block_partial_sum(b, q, true, n + 1) by {
                assert(old_qs[q] == block_partial_sum(b, q, false, n as int));
                assert(old_qsq[q] == block_partial_sum(b, q, true, n as int));
                assert(((n + 1) - 1) / 8 == n / 8 && ((n + 1) - 1) % 8 == n % 8);
                if q == quadrant as int {
                    assert(qs[q] == old_qs[q] + v);
                } else {
                    assert(qs[q] == old_qs[q]);
                    assert(qsq[q] == old_qsq[q]);
                }
            }
        }
        n = n + 1;
    }
    BlockMoments { sum, sq_sum, quadrant_sums: qs, quadrant_sq_sums: qsq }
}

} // verus!

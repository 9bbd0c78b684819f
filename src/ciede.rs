//! CIEDE2000: pairing each luma sample with the chroma samples that cover it.
//! The colour difference of each pair of triplets is then taken in Lab space.
use vstd::prelude::*;

use crate::frame::{decimation_of, FrameInfo};
use crate::pixel::Pixel;

verus! {

/// Each element of `s` twice in a row: `s[0], s[0], s[1], s[1], ...`, which
/// widens a horizontally subsampled chroma row to luma width.
pub fn twice<T: Copy>(s: &[T]) -> (r: Vec<T>)
    requires
        2 * s@.len() <= usize::MAX,
    ensures
        r@.len() == 2 * s@.len(),
        forall|k: int| 0 <= k < r@.len() ==> #[trigger] r@[k] == s@[k / 2],
{
    let mut out: Vec<T> = Vec::new();
    let mut i: usize = 0;
    while i < s.len()
        invariant
            i <= s@.len(),
            out@.len() == 2 * i,
            forall|k: int| 0 <= k < out@.len() ==> #[trigger] out@[k] == s@[k / 2],
        decreases s@.len() - i,
    {
        out.push(s[i]);
        out.push(s[i]);
        i = i + 1;
    }
    out
}

/// The decimation that the colour difference uses: that of the sampling, or
/// both axes halved for monochrome, whose chroma planes are empty.
pub open spec fn ciede_decimation(d: Option<(usize, usize)>) -> (int, int) {
    match d {
        Some((x, y)) => (x as int, y as int),
        None => (1, 1),
    }
}

/// How many luma samples of a row get a chroma pair: all of them, unless the
/// chroma row, widened, is shorter.
pub open spec fn paired_width(y_width: int, c_width: int, xdec: int) -> int {
    let widened = if xdec == 1 {
        2 * c_width
    } else {
        c_width
    };
    if y_width <= widened {
        y_width
    } else {
        widened
    }
}

/// The (Y, U, V) sample values at luma column `x` of luma row `i`.
pub open spec fn triplet_spec<T: Pixel>(f: FrameInfo<T>, i: int, x: int) -> (int, int, int) {
    let (xdec, ydec) = ciede_decimation(decimation_of(f.chroma_sampling));
    let w = f.planes[0].width as int;
    let cw = f.planes[1].width as int;
    let crow = if ydec == 1 {
        i / 2
    } else {
        i
    };
    let cx = if xdec == 1 {
        x / 2
    } else {
        x
    };
    (
        f.planes[0].samples()[i * w + x],
        f.planes[1].samples()[crow * cw + cx],
        f.planes[2].samples()[crow * cw + cx],
    )
}

/// The (Y, U, V) triplets of luma row `i` that the colour difference compares:
/// chroma comes from chroma row `i >> ydec`, column `x >> xdec`.
pub fn ciede_row_samples<T: Pixel>(frame: &FrameInfo<T>, i: usize) -> (r: Vec<(u16, u16, u16)>)
    requires
        frame.wf(),
        i < frame.planes[0].height,
    ensures
        r@.len() == paired_width(
            frame.planes[0].width as int,
            frame.planes[1].width as int,
            ciede_decimation(decimation_of(frame.chroma_sampling)).0,
        ),
        forall|x: int|
            0 <= x < r@.len() ==> (#[trigger] r@[x].0 as int, r@[x].1 as int, r@[x].2 as int)
                == triplet_spec(*frame, i as int, x),
{
    let (xdec, ydec) = match frame.chroma_sampling.get_decimation() {
        Some(d) => d,
        None => (1, 1),
    };
    let w = frame.planes[0].width;
    let cw = frame.planes[1].width;
    let crow = if ydec == 1 { i / 2 } else { i };
    let ghost widened = if xdec == 1 { 2 * cw as int } else { cw as int };
    let n = if xdec == 1 {
        if cw >= w - w / 2 { w } else { 2 * cw }
    } else {
        if w <= cw { w } else { cw }
    };
    let ylen = frame.planes[0].data.len();
    let clen = frame.planes[1].data.len();
    proof {
        crate::psnr::lemma_chroma_not_larger(frame.chroma_sampling, w as int,
            frame.planes[0].height as int);
        assert((i + 1) * w <= frame.planes[0].height * w) by (nonlinear_arith)
            requires i + 1 <= frame.planes[0].height;
        assert(frame.planes[0].height * w == w * frame.planes[0].height) by (nonlinear_arith);
        assert(i * w + w == (i + 1) * w) by (nonlinear_arith);
    }
    let mut out: Vec<(u16, u16, u16)> = Vec::new();
    let mut x: usize = 0;
    while x < n
        invariant
            frame.wf(),
            i < frame.planes[0].height,
            w == frame.planes[0].width,
            cw == frame.planes[1].width,
            (xdec as int, ydec as int) == ciede_decimation(decimation_of(frame.chroma_sampling)),
            crow == if ydec == 1 { i / 2 } else { i },
            widened == if xdec == 1 { 2 * cw as int } else { cw as int },
            n == paired_width(w as int, cw as int, xdec as int),
            (i + 1) * w <= frame.planes[0].data@.len(),
            ylen == frame.planes[0].data@.len(),
            clen == frame.planes[1].data@.len(),
            i * w + w == (i + 1) * w,
            n <= w,
            x <= n,
            out@.len() == x,
            forall|xx: int|
                0 <= xx < out@.len() ==> (#[trigger] out@[xx].0 as int, out@[xx].1 as int, out@[xx].2 as int)
                    == triplet_spec(*frame, i as int, xx),
        decreases n - x,
    {
        let cx = if xdec == 1 { x / 2 } else { x };
        proof {
            assert(crow < frame.planes[1].height);
            assert(cx < cw);
            assert((crow + 1) * cw <= frame.planes[1].height * cw) by (nonlinear_arith)
                requires crow + 1 <= frame.planes[1].height;
            assert(frame.planes[1].height * cw == cw * frame.planes[1].height) by (nonlinear_arith);
            assert(crow * cw + cw == (crow + 1) * cw) by (nonlinear_arith);
            frame.planes[0].data@[i * w + x].lemma_value_range();
            frame.planes[1].data@[crow * cw + cx].lemma_value_range();
            frame.planes[2].data@[crow * cw + cx].lemma_value_range();
        }
        let y = frame.planes[0].data[i * w + x].to_u32() as u16;
        let u = frame.planes[1].data[crow * cw + cx].to_u32() as u16;
        let v = frame.planes[2].data[crow * cw + cx].to_u32() as u16;
        out.push((y, u, v));
        x = x + 1;
    }
    out
}

} // verus!

//! Turning raw decoded bytes into planes, and the realignment of vertically
//! sited chroma.
use vstd::prelude::*;

use crate::frame::{lemma_pow2_shift, pow2, ChromaSamplePosition, PlaneData};
use crate::pixel::Pixel;

verus! {

/// Sample `idx` of a row of raw bytes starting at `off`: one byte, or two
/// bytes little-endian.
pub open spec fn raw_sample(src: Seq<u8>, off: int, idx: int, bytewidth: int) -> int {
    if bytewidth == 1 {
        src[off + idx] as int
    } else {
        src[off + 2 * idx] as int + 256 * src[off + 2 * idx + 1] as int
    }
}

/// Reads sample `idx` of the row of raw bytes starting at `off`.
fn read_raw(src: &[u8], off: usize, idx: usize, bytewidth: usize) -> (r: i32)
    requires
        bytewidth == 1 || bytewidth == 2,
        off + bytewidth * (idx + 1) <= src@.len(),
    ensures
        r as int == raw_sample(src@, off as int, idx as int, bytewidth as int),
        0 <= r < 0x10000,
{
    let _len = src.len();
    if bytewidth == 1 {
        src[off + idx] as i32
    } else {
        let lo = src[off + 2 * idx] as i32;
        let hi = src[off + 2 * idx + 1] as i32;
        hi * 256 + lo
    }
}

/// Converts raw sample bytes into samples: one byte each when `pixel_width` is
/// 1, two bytes little-endian each when it is 2.
pub fn copy_from_raw_u8<T: Pixel>(source: &[u8], pixel_width: usize) -> (r: Vec<T>)
    requires
        pixel_width == T::byte_width(),
        pixel_width == 2 ==> source@.len() % 2 == 0,
    ensures
        r@.len() == source@.len() as int / pixel_width as int,
        forall|i: int|
            0 <= i < r@.len() ==> #[trigger] r@[i].value() == raw_sample(
                source@,
                0,
                i,
                pixel_width as int,
            ),
{
    proof {
        T::lemma_cast_value(0, 0);
    }
    let len = source.len();
    let n = len / pixel_width;
    let mut out: Vec<T> = Vec::new();
    let mut i: usize = 0;
    while i < n
        invariant
            pixel_width == T::byte_width(),
            pixel_width == 2 ==> source@.len() % 2 == 0,
            pixel_width == 1 || pixel_width == 2,
            n == source@.len() as int / pixel_width as int,
            len == source@.len(),
            i <= n,
            out@.len() == i,
            forall|j: int|
                0 <= j < i ==> #[trigger] out@[j].value() == raw_sample(
                    source@,
                    0,
                    j,
                    pixel_width as int,
                ),
        decreases n - i,
    {
        proof {
            T::lemma_cast_value(0, 0);
        }
        if pixel_width == 1 {
            let p = T::cast_from(source[i]);
            proof {
                T::lemma_cast_value(source@[i as int], 0);
            }
            out.push(p);
        } else {
            let v = (source[2 * i + 1] as u16) * 256 + source[2 * i] as u16;
            let p = T::cast_from(v);
            proof {
                T::lemma_cast_value(0, v);
            }
            out.push(p);
        }
        i = i + 1;
    }
    out
}

/// Clamps `v` to `[lo, hi]`.
pub open spec fn clamp_spec(v: int, lo: int, hi: int) -> int {
    if v < lo {
        lo
    } else if v > hi {
        hi
    } else {
        v
    }
}

/// Clamps `input` to `[min, max]`.
pub fn clamp(input: i32, min: i32, max: i32) -> (r: i32)
    ensures
        r as int == clamp_spec(input as int, min as int, max as int),
{
    if input < min {
        min
    } else if input > max {
        max
    } else {
        input
    }
}

/// The index that tap `x + k` of a row of width `w` reads: clamped to the row.
pub open spec fn tap_index(x: int, k: int, w: int) -> int {
    clamp_spec(x + k, 0, w - 1)
}

/// One output sample of the 6-tap realignment filter `[4, -17, 114, 35, -9, 1] / 128`,
/// rounded, with the taps clamped to the row and the result to the bit depth.
pub open spec fn realigned_sample(
    src: Seq<u8>,
    off: int,
    x: int,
    w: int,
    bytewidth: int,
    bit_depth: nat,
) -> int {
    let p0 = raw_sample(src, off, tap_index(x, -2, w), bytewidth);
    let p1 = raw_sample(src, off, tap_index(x, -1, w), bytewidth);
    let p2 = raw_sample(src, off, tap_index(x, 0, w), bytewidth);
    let p3 = raw_sample(src, off, tap_index(x, 1, w), bytewidth);
    let p4 = raw_sample(src, off, tap_index(x, 2, w), bytewidth);
    let p5 = raw_sample(src, off, tap_index(x, 3, w), bytewidth);
    clamp_spec(
        (4 * p0 - 17 * p1 + 114 * p2 + 35 * p3 - 9 * p4 + p5 + 64) / 128,
        0,
        pow2(bit_depth) - 1,
    )
}

/// What sample `i` of a plane holds after `convert_chroma_data`.
pub open spec fn converted_sample(
    pos: ChromaSamplePosition,
    src: Seq<u8>,
    stride: int,
    i: int,
    w: int,
    bytewidth: int,
    bit_depth: nat,
) -> int {
    let y = i / w;
    let x = i % w;
    if pos == ChromaSamplePosition::Vertical {
        realigned_sample(src, y * stride, x, w, bytewidth, bit_depth)
    } else {
        raw_sample(src, y * stride, x, bytewidth)
    }
}

/// One filtered sample of a row: the taps clamped to the row, the result
/// clamped to the bit depth.
#[verifier::spinoff_prover]
#[verifier::rlimit(60)]
fn filter_tap_row(
    row: &[u8],
    off: usize,
    x: usize,
    width: usize,
    bytewidth: usize,
    bit_depth: usize,
) -> (r: u16)
    requires
        bytewidth == 1 || bytewidth == 2,
        1 <= x + 1 <= width,
        off + bytewidth * width <= row@.len(),
        8 <= bit_depth <= 16,
    ensures
        r as int == realigned_sample(row@, off as int, x as int, width as int, bytewidth as int, bit_depth as nat),
{
    let last = width - 1;
    let i0 = if x >= 2 { x - 2 } else { 0 };
    let i1 = if x >= 1 { x - 1 } else { 0 };
    let i3 = if last - x >= 1 { x + 1 } else { last };
    let i4 = if last - x >= 2 { x + 2 } else { last };
    let i5 = if last - x >= 3 { x + 3 } else { last };
    assert(i0 as int == tap_index(x as int, -2, width as int));
    assert(i1 as int == tap_index(x as int, -1, width as int));
    assert(x as int == tap_index(x as int, 0, width as int));
    assert(i3 as int == tap_index(x as int, 1, width as int));
    assert(i4 as int == tap_index(x as int, 2, width as int));
    assert(i5 as int == tap_index(x as int, 3, width as int));
    let p0 = read_raw(row, off, i0, bytewidth);
    let p1 = read_raw(row, off, i1, bytewidth);
    let p2 = read_raw(row, off, x, bytewidth);
    let p3 = read_raw(row, off, i3, bytewidth);
    let p4 = read_raw(row, off, i4, bytewidth);
    let p5 = read_raw(row, off, i5, bytewidth);
    let sum = 4 * p0 - 17 * p1 + 114 * p2 + 35 * p3 - 9 * p4 + p5 + 64;
    let shifted = sum >> 7u32;
    assert((shifted as i64) * 128 <= sum as i64 && (sum as i64) < (shifted as i64) * 128 + 128)
        by (bit_vector)
        requires
            shifted == sum >> 7u32,
    ;
    assert(shifted as int == sum as int / 128);
    proof {
        lemma_pow2_shift(bit_depth as nat);
    }
    let max = ((1u64 << bit_depth as u64) - 1) as i32;
    let v = clamp(shifted, 0, max);
    v as u16
}

/// Fills a chroma plane from raw bytes, rows `source_stride` bytes apart. When
/// chroma is sited vertically it is realigned row by row with a 6-tap filter;
/// other positions are copied unchanged.
pub fn convert_chroma_data<T: Pixel>(
    plane_data: &mut PlaneData<T>,
    chroma_pos: ChromaSamplePosition,
    bit_depth: usize,
    source: &[u8],
    source_stride: usize,
    source_bytewidth: usize,
)
    requires
        old(plane_data).wf(),
        source_bytewidth == T::byte_width(),
        8 <= bit_depth <= 16,
        T::byte_width() == 1 ==> bit_depth <= 8,
        source_bytewidth * old(plane_data).width <= source_stride,
        old(plane_data).height * source_stride <= source@.len(),
    ensures
        final(plane_data).width == old(plane_data).width,
        final(plane_data).height == old(plane_data).height,
        final(plane_data).wf(),
        forall|i: int|
            0 <= i < final(plane_data).data@.len() ==> #[trigger] final(plane_data).data@[i].value()
                == converted_sample(
                chroma_pos,
                source@,
                source_stride as int,
                i,
                old(plane_data).width as int,
                source_bytewidth as int,
                bit_depth as nat,
            ),
{
    let width = plane_data.width;
    let height = plane_data.height;
    let vertical = chroma_pos == ChromaSamplePosition::Vertical;
    let mut out: Vec<T> = Vec::new();
    let slen = source.len();
    let mut y: usize = 0;
    proof {
        T::lemma_cast_value(0, 0);
        lemma_pow2_shift(bit_depth as nat);
    }
    while y < height
        invariant
            width == plane_data.width,
            height == plane_data.height,
            vertical == (chroma_pos == ChromaSamplePosition::Vertical),
            source_bytewidth == T::byte_width(),
            source_bytewidth == 1 || source_bytewidth == 2,
            8 <= bit_depth <= 16,
            T::byte_width() == 1 ==> bit_depth <= 8,
            source_bytewidth * width <= source_stride,
            height * source_stride <= source@.len(),
            slen == source@.len(),
            y <= height,
            out@.len() == y * width,
            forall|i: int|
                0 <= i < out@.len() ==> #[trigger] out@[i].value() == converted_sample(
                    chroma_pos,
                    source@,
                    source_stride as int,
                    i,
                    width as int,
                    source_bytewidth as int,
                    bit_depth as nat,
                ),
        decreases height - y,
    {
        assert((y + 1) * source_stride <= height * source_stride) by (nonlinear_arith)
            requires y + 1 <= height;
        assert((y + 1) * source_stride == y * source_stride + source_stride) by (nonlinear_arith);
        let off = y * source_stride;
        let mut x: usize = 0;
        while x < width
            invariant
                width == plane_data.width,
                height == plane_data.height,
                vertical == (chroma_pos == ChromaSamplePosition::Vertical),
                source_bytewidth == T::byte_width(),
                source_bytewidth == 1 || source_bytewidth == 2,
                8 <= bit_depth <= 16,
                T::byte_width() == 1 ==> bit_depth <= 8,
                source_bytewidth * width <= source_stride,
                off == y * source_stride,
                off + source_stride <= source@.len(),
                y < height,
                x <= width,
                out@.len() == y * width + x,
                forall|i: int|
                    0 <= i < out@.len() ==> #[trigger] out@[i].value() == converted_sample(
                        chroma_pos,
                        source@,
                        source_stride as int,
                        i,
                        width as int,
                        source_bytewidth as int,
                        bit_depth as nat,
                    ),
            decreases width - x,
        {
            let v: u16 = if vertical {
                filter_tap_row(source, off, x, width, source_bytewidth, bit_depth)
            } else {
                read_raw(source, off, x, source_bytewidth) as u16
            };
            let ghost want = if vertical {
                realigned_sample(source@, off as int, x as int, width as int, source_bytewidth as int, bit_depth as nat)
            } else {
                raw_sample(source@, off as int, x as int, source_bytewidth as int)
            };
            assert(v as int == want);
            proof {
                T::lemma_cast_value(0, v);
                if source_bytewidth == 1 {
                    assert(v < 256) by {
                        if vertical {
                            assert(pow2(bit_depth as nat) <= 256) by {
                                reveal_with_fuel(pow2, 9);
                            }
                        }
                    }
                    T::lemma_cast_value(v as u8, v);
                }
            }
            let p = if source_bytewidth == 1 {
                T::cast_from(v as u8)
            } else {
                T::cast_from(v)
            };
            proof {
                let i = y * width + x;
                assert(i / (width as int) == y as int && i % (width as int) == x as int) by (nonlinear_arith)
                    requires i == y * width + x, x < width;
            }
            out.push(p);
            x = x + 1;
        }
        assert(y * width + width == (y + 1) * width) by (nonlinear_arith);
        y = y + 1;
    }
    assert(height * width == width * height) by (nonlinear_arith);
    plane_data.data = out;
}

/// Every one of the first `n` samples of raw bytes is below `2^bit_depth`.
pub open spec fn raw_within_depth(src: Seq<u8>, n: int, bytewidth: int, bit_depth: nat) -> bool {
    forall|i: int| 0 <= i < n ==> #[trigger] raw_sample(src, 0, i, bytewidth) < pow2(bit_depth)
}

/// Every sample of a chroma plane of `w` by `h` filled from `src` is below
/// `2^bit_depth`.
pub open spec fn converted_within_depth(
    pos: ChromaSamplePosition,
    src: Seq<u8>,
    w: int,
    h: int,
    bytewidth: int,
    bit_depth: nat,
) -> bool {
    forall|i: int|
        0 <= i < w * h ==> #[trigger] converted_sample(pos, src, w * bytewidth, i, w, bytewidth, bit_depth)
            < pow2(bit_depth)
}

/// Checks that every sample of a plane is below `2^bit_depth`.
fn plane_within_depth<T: Pixel>(plane: &PlaneData<T>, bit_depth: usize) -> (r: bool)
    requires
        8 <= bit_depth <= 16,
    ensures
        r == plane.within_depth(bit_depth as nat),
{
    proof {
        lemma_pow2_shift(bit_depth as nat);
    }
    let limit = 1u64 << bit_depth as u64;
    let mut i: usize = 0;
    while i < plane.data.len()
        invariant
            limit as int == pow2(bit_depth as nat),
            i <= plane.data@.len(),
            forall|j: int| 0 <= j < i ==> #[trigger] plane.data@[j].value() < pow2(bit_depth as nat),
        decreases plane.data@.len() - i,
    {
        if plane.data[i].to_u32() as u64 >= limit {
            return false;
        }
        i = i + 1;
    }
    true
}

/// Builds a frame from the raw bytes of its three planes, as a y4m frame holds
/// them: samples of one byte up to 8 bits and of two bytes above, chroma
/// dimensions and siting from the colorspace, and chroma realigned where it is
/// sited vertically. `None` when the sample type does not suit the bit depth,
/// a plane has the wrong number of bytes, or a sample exceeds the bit depth.
pub fn frame_from_raw<T: Pixel>(
    y: &[u8],
    u: &[u8],
    v: &[u8],
    width: usize,
    height: usize,
    bit_depth: usize,
    color_space: crate::video::Colorspace,
) -> (r: Option<crate::frame::FrameInfo<T>>)
    ensures
        r is Some ==> {
            let f = r->Some_0;
            let (cw, ch) = crate::frame::chroma_dimensions_of(
                crate::video::y4m_mapping(color_space).0,
                width as int,
                height as int,
            );
            let pos = crate::video::y4m_mapping(color_space).1;
            let bw = T::byte_width() as int;
            &&& f.wf()
            &&& f.bit_depth == bit_depth
            &&& f.chroma_sampling == crate::video::y4m_mapping(color_space).0
            &&& f.planes[0].width == width && f.planes[0].height == height
            &&& forall|i: int|
                0 <= i < width * height ==> #[trigger] f.planes[0].data@[i].value() == raw_sample(
                    y@,
                    0,
                    i,
                    bw,
                )
            &&& forall|i: int|
                0 <= i < cw * ch ==> #[trigger] f.planes[1].data@[i].value() == converted_sample(
                    pos,
                    u@,
                    cw * bw,
                    i,
                    cw,
                    bw,
                    bit_depth as nat,
                ) && f.planes[2].data@[i].value() == converted_sample(
                    pos,
                    v@,
                    cw * bw,
                    i,
                    cw,
                    bw,
                    bit_depth as nat,
                )
        },
        ({
            let (cw, ch) = crate::frame::chroma_dimensions_of(
                crate::video::y4m_mapping(color_space).0,
                width as int,
                height as int,
            );
            let pos = crate::video::y4m_mapping(color_space).1;
            let bw = T::byte_width() as int;
            &&& 8 <= bit_depth <= 16
            &&& bw == if bit_depth > 8 { 2int } else { 1int }
            &&& width < usize::MAX && height < usize::MAX
            &&& y@.len() == width * height * bw
            &&& u@.len() == cw * ch * bw
            &&& v@.len() == cw * ch * bw
            &&& raw_within_depth(y@, width * height, bw, bit_depth as nat)
            &&& converted_within_depth(pos, u@, cw, ch, bw, bit_depth as nat)
            &&& converted_within_depth(pos, v@, cw, ch, bw, bit_depth as nat)
        }) ==> r is Some,
{
    proof {
        T::lemma_cast_value(0, 0);
    }
    let y_len = y.len();
    let bytes: usize = match T::type_enum() {
        crate::pixel::PixelType::U8 => 1,
        crate::pixel::PixelType::U16 => 2,
    };
    if bit_depth < 8 || bit_depth > 16 || (bit_depth > 8) != (bytes == 2) {
        return None;
    }
    if width == usize::MAX || height == usize::MAX {
        return None;
    }
    let (chroma_sampling, position) = crate::video::map_y4m_color_space(color_space);
    let (cw, ch) = chroma_sampling.get_chroma_dimensions(width, height);
    proof {
        crate::psnr::lemma_chroma_not_larger(chroma_sampling, width as int, height as int);
        assert(cw * ch <= width * height) by (nonlinear_arith)
            requires
                cw <= width,
                ch <= height,
        ;
    }
    proof {
        assert(0 <= width * height <= width * height * bytes) by (nonlinear_arith)
            requires
                bytes == 1 || bytes == 2,
        ;
    }
    let n = match width.checked_mul(height) {
        Some(n) => n,
        None => {
            assert(y@.len() != width * height * bytes);
            return None;
        },
    };
    let n_bytes = match n.checked_mul(bytes) {
        Some(b) => b,
        None => {
            assert(y@.len() != width * height * bytes);
            return None;
        },
    };
    let cn = cw * ch;
    let c_bytes = cn * bytes;
    if y.len() != n_bytes || u.len() != c_bytes || v.len() != c_bytes {
        return None;
    }
    let luma = PlaneData { width, height, data: copy_from_raw_u8::<T>(y, bytes) };
    let zero = T::cast_from(0u8);
    let mut cb = PlaneData { width: cw, height: ch, data: Vec::new() };
    let mut cr = PlaneData { width: cw, height: ch, data: Vec::new() };
    let mut k: usize = 0;
    while k < cn
        invariant
            cn == cw * ch,
            cb.data@.len() == k,
            cr.data@.len() == k,
            cb.width == cw && cb.height == ch && cr.width == cw && cr.height == ch,
            k <= cn,
        decreases cn - k,
    {
        cb.data.push(zero);
        cr.data.push(zero);
        k = k + 1;
    }
    if ch > 0 {
        proof {
            assert(cw * bytes <= cw * ch * bytes) by (nonlinear_arith)
                requires
                    ch >= 1,
            ;
            assert(ch * (cw * bytes) == cw * ch * bytes) by (nonlinear_arith);
        }
        let stride = cw * bytes;
        convert_chroma_data(&mut cb, position, bit_depth, u, stride, bytes);
        convert_chroma_data(&mut cr, position, bit_depth, v, stride, bytes);
    } else {
        assert(cw * ch == 0) by (nonlinear_arith)
            requires
                ch == 0,
        ;
    }
    proof {
        assert(n_bytes as int / bytes as int == n) by (nonlinear_arith)
            requires
                n_bytes == n * bytes,
                bytes == 1 || bytes == 2,
        ;
    }
    if !plane_within_depth(&luma, bit_depth) || !plane_within_depth(&cb, bit_depth)
        || !plane_within_depth(&cr, bit_depth) {
        proof {
            let bw = bytes as int;
            let bd = bit_depth as nat;
            if !luma.within_depth(bd) {
                let i = choose|i: int| 0 <= i < luma.data@.len() && !(luma.data@[i].value() < pow2(bd));
                assert(!(raw_sample(y@, 0, i, bw) < pow2(bd)));
            } else if !cb.within_depth(bd) {
                let i = choose|i: int| 0 <= i < cb.data@.len() && !(cb.data@[i].value() < pow2(bd));
                if ch == 0 {
                    assert(cw * ch == 0) by (nonlinear_arith) requires ch == 0;
                }
                assert(!(converted_sample(position, u@, cw * bw, i, cw as int, bw, bd) < pow2(bd)));
            } else {
                let i = choose|i: int| 0 <= i < cr.data@.len() && !(cr.data@[i].value() < pow2(bd));
                if ch == 0 {
                    assert(cw * ch == 0) by (nonlinear_arith) requires ch == 0;
                }
                assert(!(converted_sample(position, v@, cw * bw, i, cw as int, bw, bd) < pow2(bd)));
            }
        }
        return None;
    }
    let frame = crate::frame::FrameInfo { planes: [luma, cb, cr], bit_depth, chroma_sampling };
    proof {
        assert forall|p: int| 0 <= p < 3 implies #[trigger] frame.planes[p].within_depth(bit_depth as nat) by {
            if p == 0 {
            } else if p == 1 {
            } else {
            }
        }
    }
    Some(frame)
}

} // verus!

//! Planar frames, chroma subsampling geometry and the compatibility of two frames.
use vstd::prelude::*;

use crate::error::MetricsError;
use crate::pixel::{values, Pixel};

verus! {

/// How the chroma planes are subsampled relative to luma.
#[derive(Debug, Clone, Copy, PartialEq, Eq, Structural)]
pub enum ChromaSampling {
    /// Both vertically and horizontally subsampled.
    Cs420,
    /// Horizontally subsampled.
    Cs422,
    /// Not subsampled.
    Cs444,
    /// Monochrome.
    Cs400,
}

impl Default for ChromaSampling {
    fn default() -> (r: Self)
        ensures
            r == ChromaSampling::Cs420,
    {
        ChromaSampling::Cs420
    }
}

/// The right shifts, horizontal then vertical, from luma to chroma dimensions;
/// `None` when there are no chroma planes.
pub open spec fn decimation_of(cs: ChromaSampling) -> Option<(usize, usize)> {
    match cs {
        ChromaSampling::Cs420 => Some((1, 1)),
        ChromaSampling::Cs422 => Some((1, 0)),
        ChromaSampling::Cs444 => Some((0, 0)),
        ChromaSampling::Cs400 => None,
    }
}

/// Chroma plane dimensions for luma dimensions `w` by `h`: halved and rounded
/// up along each decimated axis, empty for monochrome.
pub open spec fn chroma_dimensions_of(cs: ChromaSampling, w: int, h: int) -> (int, int) {
    match cs {
        ChromaSampling::Cs420 => ((w + 1) / 2, (h + 1) / 2),
        ChromaSampling::Cs422 => ((w + 1) / 2, h),
        ChromaSampling::Cs444 => (w, h),
        ChromaSampling::Cs400 => (0, 0),
    }
}

/// The weight of each chroma plane relative to luma, in quarters:
/// 1/4 for 4:2:0, 1/2 for 4:2:2, 1 for 4:4:4 and 0 for monochrome.
pub open spec fn chroma_weight_quarters_of(cs: ChromaSampling) -> nat {
    match cs {
        ChromaSampling::Cs420 => 1,
        ChromaSampling::Cs422 => 2,
        ChromaSampling::Cs444 => 4,
        ChromaSampling::Cs400 => 0,
    }
}

impl ChromaSampling {
    /// The amount to right shift the luma plane dimensions by to get the
    /// chroma plane dimensions (0 or 1 along each axis); `None` for monochrome.
    pub fn get_decimation(self) -> (r: Option<(usize, usize)>)
        ensures
            r == decimation_of(self),
    {
        match self {
            ChromaSampling::Cs420 => Some((1, 1)),
            ChromaSampling::Cs422 => Some((1, 0)),
            ChromaSampling::Cs444 => Some((0, 0)),
            ChromaSampling::Cs400 => None,
        }
    }

    /// The size of a chroma plane for this sampling, given the luma plane dimensions.
    pub fn get_chroma_dimensions(self, luma_width: usize, luma_height: usize) -> (r: (usize, usize))
        requires
            luma_width < usize::MAX,
            luma_height < usize::MAX,
        ensures
            (r.0 as int, r.1 as int) == chroma_dimensions_of(self, luma_width as int, luma_height as int),
    {
        if let Some((ss_x, ss_y)) = self.get_decimation() {
            let w = if ss_x == 1 { (luma_width + 1) / 2 } else { luma_width };
            let h = if ss_y == 1 { (luma_height + 1) / 2 } else { luma_height };
            (w, h)
        } else {
            (0, 0)
        }
    }

    /// The relative weight of each chroma plane against luma, in quarters.
    pub fn get_chroma_weight_quarters(self) -> (r: u32)
        ensures
            r as nat == chroma_weight_quarters_of(self),
    {
        match self {
            ChromaSampling::Cs420 => 1,
            ChromaSampling::Cs422 => 2,
            ChromaSampling::Cs444 => 4,
            ChromaSampling::Cs400 => 0,
        }
    }
}

/// Sample position of subsampled chroma.
#[derive(Debug, Clone, Copy, PartialEq, Eq, Structural)]
pub enum ChromaSamplePosition {
    /// Not signaled; taken as needing no realignment.
    Unknown,
    /// Horizontally co-located with the (0, 0) luma sample, vertically in the
    /// middle between two luma samples.
    Vertical,
    /// Co-located with the (0, 0) luma sample.
    Colocated,
    /// In the diagonal space between luma samples.
    Bilateral,
    /// Interlaced content with interpolated chroma samples.
    Interpolated,
}

impl Default for ChromaSamplePosition {
    fn default() -> (r: Self)
        ensures
            r == ChromaSamplePosition::Unknown,
    {
        ChromaSamplePosition::Unknown
    }
}

/// One plane of samples in row-major order.
#[derive(Debug, Clone)]
pub struct PlaneData<T: Pixel> {
    /// The width, in samples, of this plane.
    pub width: usize,
    /// The height, in samples, of this plane.
    pub height: usize,
    /// The samples, row after row.
    pub data: Vec<T>,
}

impl<T: Pixel> PlaneData<T> {
    /// The sample values, row after row.
    pub open spec fn samples(&self) -> Seq<int> {
        values(self.data@)
    }

    /// The buffer holds exactly `width * height` samples.
    pub open spec fn wf(&self) -> bool {
        self.data@.len() == self.width * self.height
    }

    /// Every sample is below `2^bit_depth`.
    pub open spec fn within_depth(&self, bit_depth: nat) -> bool {
        forall|i: int| 0 <= i < self.data@.len() ==> #[trigger] self.data@[i].value() < pow2(bit_depth)
    }

    /// Two planes are comparable when their dimensions agree.
    pub fn can_compare(&self, other: &Self) -> (r: Result<(), MetricsError>)
        ensures
            r is Ok <==> (self.width == other.width && self.height == other.height),
            r is Err ==> r->Err_0 is InputMismatch,
    {
        if self.width != other.width || self.height != other.height {
            return Err(MetricsError::InputMismatch { reason: "Video resolution does not match" });
        }
        Ok(())
    }
}

/// `2^n` as a mathematical integer.
pub open spec fn pow2(n: nat) -> int
    decreases n,
{
    if n == 0 {
        1
    } else {
        2 * pow2((n - 1) as nat)
    }
}

/// `1 << n` is `2^n` for the bit depths that a frame may have.
pub proof fn lemma_pow2_shift(n: nat)
    requires
        n <= 16,
    ensures
        (1u64 << n as u64) as int == pow2(n),
        2 <= pow2(n) || n == 0,
        1 <= pow2(n) <= 0x10000,
{
    reveal_with_fuel(pow2, 17);
    assert(1u64 << 0u64 == 1) by (bit_vector);
    assert(1u64 << 1u64 == 2) by (bit_vector);
    assert(1u64 << 2u64 == 4) by (bit_vector);
    assert(1u64 << 3u64 == 8) by (bit_vector);
    assert(1u64 << 4u64 == 16) by (bit_vector);
    assert(1u64 << 5u64 == 32) by (bit_vector);
    assert(1u64 << 6u64 == 64) by (bit_vector);
    assert(1u64 << 7u64 == 128) by (bit_vector);
    assert(1u64 << 8u64 == 256) by (bit_vector);
    assert(1u64 << 9u64 == 512) by (bit_vector);
    assert(1u64 << 10u64 == 1024) by (bit_vector);
    assert(1u64 << 11u64 == 2048) by (bit_vector);
    assert(1u64 << 12u64 == 4096) by (bit_vector);
    assert(1u64 << 13u64 == 8192) by (bit_vector);
    assert(1u64 << 14u64 == 16384) by (bit_vector);
    assert(1u64 << 15u64 == 32768) by (bit_vector);
    assert(1u64 << 16u64 == 65536) by (bit_vector);
}

/// A frame: three planes (Y, U, V) with their bit depth and chroma sampling.
#[derive(Debug, Clone)]
pub struct FrameInfo<T: Pixel> {
    /// The planes: 0 is luma (Y), 1 is Cb (U), 2 is Cr (V).
    pub planes: [PlaneData<T>; 3],
    /// Bits per sample.
    pub bit_depth: usize,
    /// How chroma is subsampled.
    pub chroma_sampling: ChromaSampling,
}

impl<T: Pixel> FrameInfo<T> {
    /// Every plane's buffer matches its dimensions, the chroma planes have the
    /// dimensions that the sampling derives from luma, and all samples fit the
    /// bit depth.
    pub open spec fn wf(&self) -> bool {
        let (cw, ch) = chroma_dimensions_of(
            self.chroma_sampling,
            self.planes[0].width as int,
            self.planes[0].height as int,
        );
        &&& 8 <= self.bit_depth <= 16
        &&& self.planes[0].wf() && self.planes[1].wf() && self.planes[2].wf()
        &&& self.planes[1].width == cw && self.planes[1].height == ch
        &&& self.planes[2].width == cw && self.planes[2].height == ch
        &&& forall|p: int| 0 <= p < 3 ==> #[trigger] self.planes[p].within_depth(self.bit_depth as nat)
    }

    /// Two frames are comparable when bit depths, chroma samplings and the
    /// dimensions of all three plane pairs agree.
    pub open spec fn comparable(&self, other: &Self) -> bool {
        &&& self.bit_depth == other.bit_depth
        &&& self.chroma_sampling == other.chroma_sampling
        &&& forall|p: int|
            0 <= p < 3 ==> #[trigger] self.planes[p].width == other.planes[p].width
                && self.planes[p].height == other.planes[p].height
    }

    /// Checks that two frames can be compared by a metric.
    pub fn can_compare(&self, other: &Self) -> (r: Result<(), MetricsError>)
        ensures
            r is Ok <==> (self.comparable(other) && self.bit_depth <= 16),
            self.bit_depth != other.bit_depth ==> r == Err::<(), MetricsError>(
                MetricsError::InputMismatch { reason: "Bit depths do not match" },
            ),
            self.bit_depth == other.bit_depth && self.bit_depth > 16 ==> r is Err
                && r->Err_0 is UnsupportedInput,
            r is Err && self.bit_depth <= 16 ==> r->Err_0 is InputMismatch,
    {
        if self.bit_depth != other.bit_depth {
            return Err(MetricsError::InputMismatch { reason: "Bit depths do not match" });
        }
        if self.bit_depth > 16 {
            return Err(
                MetricsError::UnsupportedInput { reason: "Bit depths above 16 are not supported" },
            );
        }
        if self.chroma_sampling != other.chroma_sampling {
            return Err(
                MetricsError::InputMismatch { reason: "Chroma subsampling offsets do not match" },
            );
        }
        self.planes[0].can_compare(&other.planes[0])?;
        self.planes[1].can_compare(&other.planes[1])?;
        self.planes[2].can_compare(&other.planes[2])?;
        assert forall|p: int| 0 <= p < 3 implies #[trigger] self.planes[p].width
            == other.planes[p].width && self.planes[p].height == other.planes[p].height by {
            if p == 0 {
            } else if p == 1 {
            } else {
            }
        }
        Ok(())
    }
}

/// The chroma-weighted planar average `(y + w * u + w * v) / (1 + 2 * w)` of
/// three plane scores, with the weight `w` in quarters, as the pair
/// (numerator, denominator) of an exact ratio.
pub open spec fn planar_average(y: int, u: int, v: int, w_quarters: nat) -> (int, int) {
    (4 * y + w_quarters * (u + v), 4 + 2 * w_quarters as int)
}

/// Whatever the chroma sampling, when both chroma scores equal the luma score
/// the planar average equals the luma score.
pub proof fn lemma_chroma_weight_identity(cs: ChromaSampling, y: int)
    ensures
        planar_average(y, y, y, chroma_weight_quarters_of(cs)).0 == y * planar_average(
            y,
            y,
            y,
            chroma_weight_quarters_of(cs),
        ).1,
        planar_average(y, y, y, chroma_weight_quarters_of(cs)).1 > 0,
{
    let q = chroma_weight_quarters_of(cs) as int;
    assert(4 * y + q * (y + y) == y * (4 + 2 * q)) by (nonlinear_arith);
}

} // verus!

//! What a decoder reports about a video, and the y4m colorspace mapping.
use vstd::prelude::*;

use crate::frame::{ChromaSamplePosition, ChromaSampling};
use vstd::string::StringSliceAdditionalSpecFns;

verus! {

/// A rational number.
#[derive(Debug, Clone, Copy, PartialEq, Eq, Structural)]
pub struct Rational {
    /// Numerator.
    pub num: u64,
    /// Denominator.
    pub den: u64,
}

impl Rational {
    /// Creates a rational number from the given numerator and denominator.
    pub fn new(num: u64, den: u64) -> (r: Self)
        ensures
            r == (Rational { num, den }),
    {
        Rational { num, den }
    }

    /// Returns the reciprocal of the given rational number.
    pub fn from_reciprocal(reciprocal: Self) -> (r: Self)
        ensures
            r == (Rational { num: reciprocal.den, den: reciprocal.num }),
    {
        Rational { num: reciprocal.den, den: reciprocal.num }
    }
}

/// The properties of a video that a decoder reports.
#[derive(Debug, Clone, Copy, PartialEq, Eq, Structural)]
pub struct VideoDetails {
    /// Width in pixels.
    pub width: usize,
    /// Height in pixels.
    pub height: usize,
    /// Bits per sample.
    pub bit_depth: usize,
    /// Chroma subsampling.
    pub chroma_sampling: ChromaSampling,
    /// Where chroma samples are sited.
    pub chroma_sample_position: ChromaSamplePosition,
    /// Time base of the video.
    pub time_base: Rational,
    /// Padding around the luma plane.
    pub luma_padding: usize,
}

impl Default for VideoDetails {
    fn default() -> (r: Self)
        ensures
            r == (VideoDetails {
                width: 640,
                height: 480,
                bit_depth: 8,
                chroma_sampling: ChromaSampling::Cs420,
                chroma_sample_position: ChromaSamplePosition::Unknown,
                time_base: Rational { num: 30, den: 1 },
                luma_padding: 0,
            }),
    {
        VideoDetails {
            width: 640,
            height: 480,
            bit_depth: 8,
            chroma_sampling: ChromaSampling::Cs420,
            chroma_sample_position: ChromaSamplePosition::Unknown,
            time_base: Rational { num: 30, den: 1 },
            luma_padding: 0,
        }
    }
}

/// The colorspaces that a y4m stream header may declare.
#[derive(Debug, Clone, Copy, PartialEq, Eq, Structural)]
pub enum Colorspace {
    /// Grayscale, 8-bit.
    Cmono,
    /// Grayscale, 12-bit.
    Cmono12,
    /// 4:2:0 with coincident chroma, 8-bit.
    C420,
    /// 4:2:0 with coincident chroma, 10-bit.
    C420p10,
    /// 4:2:0 with coincident chroma, 12-bit.
    C420p12,
    /// 4:2:0 with biaxially displaced chroma, 8-bit.
    C420jpeg,
    /// 4:2:0 with vertically displaced chroma, 8-bit.
    C420paldv,
    /// 4:2:0 as found in some files, 8-bit.
    C420mpeg2,
    /// 4:2:2, 8-bit.
    C422,
    /// 4:2:2, 10-bit.
    C422p10,
    /// 4:2:2, 12-bit.
    C422p12,
    /// 4:4:4, 8-bit.
    C444,
    /// 4:4:4, 10-bit.
    C444p10,
    /// 4:4:4, 12-bit.
    C444p12,
}

/// The chroma sampling and chroma siting of each y4m colorspace.
pub open spec fn y4m_mapping(c: Colorspace) -> (ChromaSampling, ChromaSamplePosition) {
    match c {
        Colorspace::Cmono | Colorspace::Cmono12 => (ChromaSampling::Cs400, ChromaSamplePosition::Unknown),
        Colorspace::C420jpeg => (ChromaSampling::Cs420, ChromaSamplePosition::Bilateral),
        Colorspace::C420paldv => (ChromaSampling::Cs420, ChromaSamplePosition::Interpolated),
        Colorspace::C420mpeg2 => (ChromaSampling::Cs420, ChromaSamplePosition::Vertical),
        Colorspace::C420 | Colorspace::C420p10 | Colorspace::C420p12 => (
            ChromaSampling::Cs420,
            ChromaSamplePosition::Colocated,
        ),
        Colorspace::C422 | Colorspace::C422p10 | Colorspace::C422p12 => (
            ChromaSampling::Cs422,
            ChromaSamplePosition::Vertical,
        ),
        Colorspace::C444 | Colorspace::C444p10 | Colorspace::C444p12 => (
            ChromaSampling::Cs444,
            ChromaSamplePosition::Colocated,
        ),
    }
}

/// Maps a y4m colorspace to its chroma sampling and chroma sample position.
pub fn map_y4m_color_space(color_space: Colorspace) -> (r: (ChromaSampling, ChromaSamplePosition))
    ensures
        r == y4m_mapping(color_space),
{
    match color_space {
        Colorspace::Cmono | Colorspace::Cmono12 => (ChromaSampling::Cs400, ChromaSamplePosition::Unknown),
        Colorspace::C420jpeg => (ChromaSampling::Cs420, ChromaSamplePosition::Bilateral),
        Colorspace::C420paldv => (ChromaSampling::Cs420, ChromaSamplePosition::Interpolated),
        Colorspace::C420mpeg2 => (ChromaSampling::Cs420, ChromaSamplePosition::Vertical),
        Colorspace::C420 | Colorspace::C420p10 | Colorspace::C420p12 => (
            ChromaSampling::Cs420,
            ChromaSamplePosition::Colocated,
        ),
        Colorspace::C422 | Colorspace::C422p10 | Colorspace::C422p12 => (
            ChromaSampling::Cs422,
            ChromaSamplePosition::Vertical,
        ),
        Colorspace::C444 | Colorspace::C444p10 | Colorspace::C444p12 => (
            ChromaSampling::Cs444,
            ChromaSamplePosition::Colocated,
        ),
    }
}

/// The chroma sampling of a y4m colorspace.
pub fn get_chroma_sampling(color_space: Colorspace) -> (r: ChromaSampling)
    ensures
        r == y4m_mapping(color_space).0,
{
    match color_space {
        Colorspace::Cmono | Colorspace::Cmono12 => ChromaSampling::Cs400,
        Colorspace::C420jpeg | Colorspace::C420paldv | Colorspace::C420mpeg2 | Colorspace::C420
        | Colorspace::C420p10 | Colorspace::C420p12 => ChromaSampling::Cs420,
        Colorspace::C422 | Colorspace::C422p10 | Colorspace::C422p12 => ChromaSampling::Cs422,
        Colorspace::C444 | Colorspace::C444p10 | Colorspace::C444p12 => ChromaSampling::Cs444,
    }
}

/// The container formats that inputs can be read from.
#[derive(Debug, Clone, Copy, PartialEq, Eq, Structural)]
pub enum VideoContainer {
    /// YUV4MPEG2.
    Y4M,
}

/// The kind of an input file, as told by its name.
#[derive(Debug, Clone, Copy, PartialEq, Eq, Structural)]
pub enum InputType {
    /// A video in a known container.
    Video(VideoContainer),
    /// Anything else.
    Unknown,
}

/// What `std::path::Path::extension` gives for a path, as UTF-8: the text
/// after the last dot of the final component, if there is one.
pub uninterp spec fn extension_of(path: Seq<char>) -> Option<Seq<char>>;

/// What `str::to_lowercase` gives for a text.
pub uninterp spec fn lower_of(s: Seq<char>) -> Seq<char>;

/// Relies on `std::path::Path::extension`, with `OsStr::to_str` turning the
/// result into UTF-8: the extension of a file name, if it has one.
#[verifier::external_body]
fn path_extension(filename: &str) -> (r: Option<String>)
    ensures
        match r {
            Some(e) => extension_of(filename@) == Some(e@),
            None => extension_of(filename@) is None,
        },
{
    std::path::Path::new(filename).extension().and_then(|e| e.to_str()).map(|e| e.to_string())
}

/// Relies on `str::to_lowercase`: the lowercase form of a text, which depends
/// on its characters alone.
#[verifier::external_body]
fn lowercase(s: &str) -> (r: String)
    ensures
        r@ == lower_of(s@),
{
    s.to_lowercase()
}

/// The input type that the bytes of a lowercase extension name: `y4m`
/// (121, 52, 109) is a YUV4MPEG2 video.
pub open spec fn input_type_of(ext: Seq<u8>) -> InputType {
    if ext == seq![121u8, 52u8, 109u8] {
        InputType::Video(VideoContainer::Y4M)
    } else {
        InputType::Unknown
    }
}

impl InputType {
    /// The input type that a lowercase file extension names: `y4m` is a
    /// YUV4MPEG2 video, anything else is unknown.
    pub fn from_extension(ext: &str) -> (r: Self)
        ensures
            r == input_type_of(ext.spec_bytes()),
    {
        let b = ext.as_bytes();
        if b.len() == 3 && b[0] == 121u8 && b[1] == 52u8 && b[2] == 109u8 {
            assert(b@ =~= seq![121u8, 52u8, 109u8]);
            InputType::Video(VideoContainer::Y4M)
        } else {
            InputType::Unknown
        }
    }

    /// Tells the input type of a file by its extension, ignoring case; a name
    /// without an extension is unknown.
    pub fn detect(filename: &str) -> (r: Self)
        ensures
            extension_of(filename@) is None ==> r == InputType::Unknown,
            extension_of(filename@) is Some ==> exists|lowered: &str|
                lowered@ == lower_of(extension_of(filename@)->Some_0) && r == input_type_of(
                    lowered.spec_bytes(),
                ),
    {
        match path_extension(filename) {
            Some(ext) => {
                let lowered = lowercase(ext.as_str());
                let l = lowered.as_str();
                let r = Self::from_extension(l);
                assert(l@ == lower_of(extension_of(filename@)->Some_0) && r == input_type_of(l.spec_bytes()));
                r
            },
            None => InputType::Unknown,
        }
    }
}

} // verus!

//! Traits for code that is generic over low and high bit depth samples.
use vstd::prelude::*;

verus! {

/// Conversion into a sample or integer type from another primitive type.
pub trait CastFromPrimitive<T>: Copy + Sized {
    /// The value that `cast_from` produces.
    spec fn cast_spec(v: T) -> Self;

    /// Converts `v`, keeping the low bits where the target is narrower.
    fn cast_from(v: T) -> (r: Self)
        ensures
            r == Self::cast_spec(v),
    ;
}

impl CastFromPrimitive<u8> for u8 {
    open spec fn cast_spec(v: u8) -> u8 {
        v
    }

    fn cast_from(v: u8) -> (r: u8) {
        v
    }
}

impl CastFromPrimitive<u16> for u8 {
    open spec fn cast_spec(v: u16) -> u8 {
        v as u8
    }

    fn cast_from(v: u16) -> (r: u8) {
        v as u8
    }
}

impl CastFromPrimitive<u8> for u16 {
    open spec fn cast_spec(v: u8) -> u16 {
        v as u16
    }

    fn cast_from(v: u8) -> (r: u16) {
        v as u16
    }
}

impl CastFromPrimitive<u16> for u16 {
    open spec fn cast_spec(v: u16) -> u16 {
        v
    }

    fn cast_from(v: u16) -> (r: u16) {
        v
    }
}

impl CastFromPrimitive<u8> for i32 {
    open spec fn cast_spec(v: u8) -> i32 {
        v as i32
    }

    fn cast_from(v: u8) -> (r: i32) {
        v as i32
    }
}

impl CastFromPrimitive<u16> for i32 {
    open spec fn cast_spec(v: u16) -> i32 {
        v as i32
    }

    fn cast_from(v: u16) -> (r: i32) {
        v as i32
    }
}

/// The storage width of a sample type.
#[derive(Debug, Clone, Copy, PartialEq, Eq)]
pub enum PixelType {
    U8,
    U16,
}

/// A type that may hold one sample of a video plane: `u8` for low bit depth
/// video and `u16` for high bit depth video.
pub trait Pixel: CastFromPrimitive<u8> + CastFromPrimitive<u16> {
    /// The sample's numeric value.
    spec fn value(&self) -> int;

    /// Bytes that one sample of this type occupies.
    spec fn byte_width() -> nat;

    /// Every sample value fits in 16 bits.
    proof fn lemma_value_range(&self)
        ensures
            0 <= self.value() < 0x10000,
    ;

    /// Conversions from `u8` and `u16` keep every value that fits.
    proof fn lemma_cast_value(v8: u8, v16: u16)
        ensures
            <Self as CastFromPrimitive<u8>>::cast_spec(v8).value() == v8 as int,
            Self::byte_width() == 2 ==> <Self as CastFromPrimitive<u16>>::cast_spec(v16).value()
                == v16 as int,
            Self::byte_width() == 1 || Self::byte_width() == 2,
    ;

    /// Which storage width this type has.
    fn type_enum() -> (r: PixelType)
        ensures
            (r == PixelType::U8) == (Self::byte_width() == 1),
            (r == PixelType::U16) == (Self::byte_width() == 2),
    ;

    /// The sample widened to `u32`.
    fn to_u32(&self) -> (r: u32)
        ensures
            r as int == self.value(),
    ;
}

impl Pixel for u8 {
    open spec fn value(&self) -> int {
        *self as int
    }

    open spec fn byte_width() -> nat {
        1
    }

    proof fn lemma_value_range(&self) {
    }

    proof fn lemma_cast_value(v8: u8, v16: u16) {
    }

    fn type_enum() -> (r: PixelType) {
        PixelType::U8
    }

    fn to_u32(&self) -> (r: u32) {
        *self as u32
    }
}

impl Pixel for u16 {
    open spec fn value(&self) -> int {
        *self as int
    }

    open spec fn byte_width() -> nat {
        2
    }

    proof fn lemma_value_range(&self) {
    }

    proof fn lemma_cast_value(v8: u8, v16: u16) {
    }

    fn type_enum() -> (r: PixelType) {
        PixelType::U16
    }

    fn to_u32(&self) -> (r: u32) {
        *self as u32
    }
}

/// The values of a run of samples.
pub open spec fn values<T: Pixel>(s: Seq<T>) -> Seq<int> {
    s.map_values(|p: T| p.value())
}

} // verus!

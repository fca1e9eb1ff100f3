//! Generation of normally distributed test data: validation of the
//! distribution's parameters and serialization of the drawn values as
//! fixed-width floating-point values in a selectable byte order.
//!
//! Floating-point values are carried throughout as their IEEE 754 bit
//! patterns (`u64` for doubles, `u32` for singles), so that validation and
//! serialization are plain integer logic; the draws themselves are made by
//! the unverified front end and handed in as bit patterns.

use vstd::prelude::*;

mod codec;
mod params;

pub use codec::decode_f32;
pub use codec::decode_f64;
pub use codec::encode_f32;
pub use codec::encode_f64;
pub use codec::from_u8_f32;
pub use codec::from_u8_f64;
pub use codec::lemma_decode_encode_f32;
pub use codec::lemma_decode_encode_f64;
pub use codec::lemma_encode_f32_len;
pub use codec::lemma_encode_f64_len;
pub use codec::to_u8_f32;
pub use codec::to_u8_f64;
pub use codec::word32_be_bytes;
pub use codec::word32_bytes;
pub use codec::word32_from_be_bytes;
pub use codec::word32_from_bytes;
pub use codec::word32_from_le_bytes;
pub use codec::word32_le_bytes;
pub use codec::word64_be_bytes;
pub use codec::word64_bytes;
pub use codec::word64_from_be_bytes;
pub use codec::word64_from_bytes;
pub use codec::word64_from_le_bytes;
pub use codec::word64_le_bytes;
pub use params::f32_bits_positive_finite;
pub use params::f64_bits_positive_finite;
pub use params::NormalParams32;
pub use params::NormalParams64;

verus! {

/// Byte order of serialized output.  `Native` stands for whatever order the
/// executing platform uses and is resolved at the point of encoding.
#[derive(Clone, Copy, Debug, PartialEq, Eq, Structural)]
pub enum Endianess {
    Big,
    Little,
    Native,
}

impl Default for Endianess {
    fn default() -> (r: Self)
        ensures
            r == Endianess::Native,
    {
        Endianess::Native
    }
}

/// Width of the generated values: 32-bit (`Float`) or 64-bit (`Double`).
#[derive(Clone, Copy, Debug, PartialEq, Eq, Structural)]
pub enum Datatype {
    Float,
    Double,
}

impl Datatype {
    /// The serialized width of one value: 4 bytes for a float, 8 for a
    /// double.
    pub fn width(&self) -> (w: usize)
        ensures
            *self == Datatype::Float ==> w == 4,
            *self == Datatype::Double ==> w == 8,
    {
        match self {
            Datatype::Float => 4,
            Datatype::Double => 8,
        }
    }
}

/// The single validation error of the library: the requested standard
/// deviation is not a positive finite number.
#[derive(Clone, Copy, Debug, PartialEq, Eq, Structural)]
pub enum SampleError {
    InvalidDistributionParameters,
}

} // verus!

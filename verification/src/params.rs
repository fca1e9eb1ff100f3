//! Validated parameters of a normal distribution.
//!
//! The distribution's mean and standard deviation are held as IEEE 754 bit
//! patterns.  A standard deviation is acceptable exactly when it is a
//! positive finite number, and on the bit level that is a plain interval:
//! the sign bit must be clear, the exponent field must not be all ones
//! (which would mean an infinity or a NaN), and the pattern must not be
//! zero.  Any mean is acceptable.

use vstd::prelude::*;

use crate::SampleError;

verus! {

/// True when `bits` is the IEEE 754 pattern of a positive finite 64-bit
/// value: every pattern strictly between `+0.0` (all zeros) and `+infinity`
/// (`0x7FF0_0000_0000_0000`).
pub open spec fn f64_bits_positive_finite(bits: u64) -> bool {
    0 < bits < 0x7FF0_0000_0000_0000u64
}

/// True when `bits` is the IEEE 754 pattern of a positive finite 32-bit
/// value: every pattern strictly between `+0.0` (all zeros) and `+infinity`
/// (`0x7F80_0000`).
pub open spec fn f32_bits_positive_finite(bits: u32) -> bool {
    0 < bits < 0x7F80_0000u32
}

/// Parameters of a normal distribution over 64-bit values, validated on
/// construction: the standard deviation is a positive finite number.
pub struct NormalParams64 {
    pub mean_bits: u64,
    pub std_dev_bits: u64,
}

impl NormalParams64 {
    /// Well-formedness: the held standard deviation is positive and finite.
    pub open spec fn wf(self) -> bool {
        f64_bits_positive_finite(self.std_dev_bits)
    }

    /// Accepts the parameters exactly when the standard deviation is a
    /// positive finite number; any mean is accepted.
    pub fn new(mean_bits: u64, std_dev_bits: u64) -> (r: Result<Self, SampleError>)
        ensures
            r is Ok <==> f64_bits_positive_finite(std_dev_bits),
            r matches Ok(p) ==> p.wf() && p.mean_bits == mean_bits && p.std_dev_bits
                == std_dev_bits,
            r matches Err(e) ==> e == SampleError::InvalidDistributionParameters,
    {
        if 0 < std_dev_bits && std_dev_bits < 0x7FF0_0000_0000_0000u64 {
            Ok(NormalParams64 { mean_bits, std_dev_bits })
        } else {
            Err(SampleError::InvalidDistributionParameters)
        }
    }
}

/// Parameters of a normal distribution over 32-bit values, validated on
/// construction: the standard deviation is a positive finite number.
pub struct NormalParams32 {
    pub mean_bits: u32,
    pub std_dev_bits: u32,
}

impl NormalParams32 {
    /// Well-formedness: the held standard deviation is positive and finite.
    pub open spec fn wf(self) -> bool {
        f32_bits_positive_finite(self.std_dev_bits)
    }

    /// Accepts the parameters exactly when the standard deviation is a
    /// positive finite number; any mean is accepted.
    pub fn new(mean_bits: u32, std_dev_bits: u32) -> (r: Result<Self, SampleError>)
        ensures
            r is Ok <==> f32_bits_positive_finite(std_dev_bits),
            r matches Ok(p) ==> p.wf() && p.mean_bits == mean_bits && p.std_dev_bits
                == std_dev_bits,
            r matches Err(e) ==> e == SampleError::InvalidDistributionParameters,
    {
        if 0 < std_dev_bits && std_dev_bits < 0x7F80_0000u32 {
            Ok(NormalParams32 { mean_bits, std_dev_bits })
        } else {
            Err(SampleError::InvalidDistributionParameters)
        }
    }
}

} // verus!

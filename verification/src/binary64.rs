//! Percentages carried as IEEE 754 binary64 encodings.
//!
//! Coverage reports and configuration files state percentages as JSON numbers,
//! which are read as binary64 values. The library keeps such a value as its
//! 64-bit encoding, so that nothing is lost, and orders encodings exactly as
//! IEEE 754 orders the values they encode.

use vstd::prelude::*;

verus! {

/// The sign bit of a binary64 encoding.
pub const SIGN_BIT: u64 = 0x8000_0000_0000_0000;

/// The encoding of positive infinity; larger magnitudes encode NaN.
pub const INFINITY_BITS: u64 = 0x7FF0_0000_0000_0000;

/// The encoding of `0.0`.
pub const ZERO_BITS: u64 = 0;

/// The encoding of `100.0`.
pub const HUNDRED_BITS: u64 = 0x4059_0000_0000_0000;

/// A number given by its IEEE 754 binary64 encoding.
#[derive(Clone, Copy, Debug, PartialEq, Eq, Structural)]
pub struct Binary64 {
    /// The binary64 encoding (`f64::to_bits`) of the value.
    pub bits: u64,
}

/// The magnitude part (all bits but the sign) of an encoding.
pub open spec fn magnitude(bits: u64) -> int {
    if bits >= SIGN_BIT {
        bits - SIGN_BIT
    } else {
        bits as int
    }
}

/// Whether an encoding is a NaN.
pub open spec fn is_nan(bits: u64) -> bool {
    magnitude(bits) > INFINITY_BITS
}

/// An integer that orders non-NaN encodings as IEEE 754 orders their values:
/// for non-negative values the encoding grows with the value, for negative
/// values it grows as the value falls, and both zeros meet at 0.
pub open spec fn order_key(bits: u64) -> int {
    if bits >= SIGN_BIT {
        -magnitude(bits)
    } else {
        magnitude(bits)
    }
}

/// IEEE 754 `a <= b` on the values that two encodings denote.
pub open spec fn spec_le(a: u64, b: u64) -> bool {
    !is_nan(a) && !is_nan(b) && order_key(a) <= order_key(b)
}

/// IEEE 754 `a < b` on the values that two encodings denote.
pub open spec fn spec_lt(a: u64, b: u64) -> bool {
    !is_nan(a) && !is_nan(b) && order_key(a) < order_key(b)
}

/// Whether an encoding denotes a value in the closed range `0.0..=100.0`.
pub open spec fn spec_in_percent_range(bits: u64) -> bool {
    spec_le(ZERO_BITS, bits) && spec_le(bits, HUNDRED_BITS)
}

fn magnitude_of(bits: u64) -> (res: u64)
    ensures
        res == magnitude(bits),
{
    if bits >= SIGN_BIT {
        bits - SIGN_BIT
    } else {
        bits
    }
}

fn order_key_of(bits: u64) -> (res: i128)
    ensures
        res == order_key(bits),
{
    let m = magnitude_of(bits) as i128;
    if bits >= SIGN_BIT {
        -m
    } else {
        m
    }
}

impl Binary64 {
    /// The value `0.0`.
    pub fn zero() -> (res: Binary64)
        ensures
            res.bits == ZERO_BITS,
    {
        Binary64 { bits: ZERO_BITS }
    }

    /// The value `100.0`.
    pub fn hundred() -> (res: Binary64)
        ensures
            res.bits == HUNDRED_BITS,
    {
        Binary64 { bits: HUNDRED_BITS }
    }

    /// Whether the value is a NaN.
    pub fn is_nan(&self) -> (res: bool)
        ensures
            res == is_nan(self.bits),
    {
        magnitude_of(self.bits) > INFINITY_BITS
    }

    /// IEEE 754 `self <= other`.
    pub fn le(&self, other: &Binary64) -> (res: bool)
        ensures
            res == spec_le(self.bits, other.bits),
    {
        !self.is_nan() && !other.is_nan() && order_key_of(self.bits) <= order_key_of(other.bits)
    }

    /// IEEE 754 `self < other`.
    pub fn lt(&self, other: &Binary64) -> (res: bool)
        ensures
            res == spec_lt(self.bits, other.bits),
    {
        !self.is_nan() && !other.is_nan() && order_key_of(self.bits) < order_key_of(other.bits)
    }

    /// Whether the value lies in `0.0..=100.0`, as `RangeInclusive::contains`
    /// decides it.
    pub fn in_percent_range(&self) -> (res: bool)
        ensures
            res == spec_in_percent_range(self.bits),
    {
        Binary64::zero().le(self) && self.le(&Binary64::hundred())
    }
}

} // verus!

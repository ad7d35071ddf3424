//! Share ratios, held by their IEEE 754 binary64 bit pattern.

use vstd::prelude::*;

verus! {

/// The bit that carries the sign of a binary64 value.
pub const SIGN_BIT: u64 = 0x8000_0000_0000_0000;

/// The bit pattern of positive infinity: every larger magnitude is a NaN.
pub const INFINITY_BITS: u64 = 0x7FF0_0000_0000_0000;

/// A share ratio: a binary64 number kept as its bit pattern.
///
/// Comparisons follow the arithmetic order of the numbers the patterns
/// stand for: the two zeros are equal, and a NaN equals nothing.
#[derive(Clone, Copy, Debug)]
pub struct Ratio {
    pub bits: u64,
}

/// Whether the pattern has its sign bit set.
pub open spec fn sign_set(bits: u64) -> bool {
    bits >= SIGN_BIT
}

/// The pattern with its sign bit cleared.
pub open spec fn magnitude(bits: u64) -> int {
    if bits >= SIGN_BIT {
        bits - SIGN_BIT
    } else {
        bits as int
    }
}

/// Whether the pattern stands for no number.
pub open spec fn is_nan(bits: u64) -> bool {
    magnitude(bits) > INFINITY_BITS
}

/// Whether the pattern is one of the two zeros.
pub open spec fn is_zero(bits: u64) -> bool {
    magnitude(bits) == 0
}

/// Numeric equality of two patterns.
pub open spec fn same_number(a: u64, b: u64) -> bool {
    &&& !is_nan(a)
    &&& !is_nan(b)
    &&& (a == b || (is_zero(a) && is_zero(b)))
}

/// Whether the pattern stands for a number that is zero or above.
pub open spec fn at_least_zero(bits: u64) -> bool {
    &&& !is_nan(bits)
    &&& (!sign_set(bits) || is_zero(bits))
}

impl Ratio {
    /// A ratio from the bit pattern of a binary64 number.
    pub fn from_bits(bits: u64) -> (r: Ratio)
        ensures
            r.bits == bits,
    {
        Ratio { bits }
    }

    /// The bit pattern of this ratio.
    pub fn to_bits(&self) -> (bits: u64)
        ensures
            bits == self.bits,
    {
        self.bits
    }

    fn magnitude_bits(&self) -> (m: u64)
        ensures
            m == magnitude(self.bits),
    {
        if self.bits >= SIGN_BIT {
            self.bits - SIGN_BIT
        } else {
            self.bits
        }
    }

    /// Whether this ratio is no number at all.
    pub fn is_nan(&self) -> (b: bool)
        ensures
            b == is_nan(self.bits),
    {
        self.magnitude_bits() > INFINITY_BITS
    }

    /// Numeric equality: `0.0` equals `-0.0`, and a NaN equals nothing,
    /// itself included.
    pub fn same_number(&self, other: &Ratio) -> (b: bool)
        ensures
            b == same_number(self.bits, other.bits),
    {
        let a: u64 = self.magnitude_bits();
        let b: u64 = other.magnitude_bits();
        a <= INFINITY_BITS && b <= INFINITY_BITS && (self.bits == other.bits || (a == 0 && b == 0))
    }

    /// Whether this ratio is a number that is zero or above.
    pub fn at_least_zero(&self) -> (b: bool)
        ensures
            b == at_least_zero(self.bits),
    {
        let a: u64 = self.magnitude_bits();
        a <= INFINITY_BITS && (self.bits < SIGN_BIT || a == 0)
    }
}

} // verus!

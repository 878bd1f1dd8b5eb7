//! Coordinates and quality scores arrive as IEEE 754 single-precision
//! values. The filtering logic only ever compares them, so the library
//! carries each one as its 32-bit pattern and defines the comparison
//! order on the bits: sign-magnitude order with the two zeros equal,
//! and every comparison against a NaN false.

use vstd::prelude::*;

verus! {

/// An IEEE 754 single-precision value, held as its raw bit pattern.
#[derive(Clone, Copy, PartialEq, Eq, Structural, Debug)]
pub struct FloatBits {
    pub bits: u32,
}

/// The bit pattern with the sign bit cleared.
pub open spec fn abs_bits(b: u32) -> u32 {
    if b >= 0x8000_0000 {
        (b - 0x8000_0000) as u32
    } else {
        b
    }
}

/// A pattern encodes a NaN when its magnitude bits exceed those of infinity.
pub open spec fn is_nan_bits(b: u32) -> bool {
    abs_bits(b) > 0x7f80_0000
}

/// Rank of a pattern in the numeric order: positive values rank by their
/// magnitude bits, negative values by the negated magnitude, so the two
/// zeros share rank 0 and the order agrees with the numeric order of the
/// encoded values.
pub open spec fn order_key(b: u32) -> int {
    if b >= 0x8000_0000 {
        0x8000_0000 - b
    } else {
        b as int
    }
}

/// `a <= b` in the numeric order of the encoded values; false whenever
/// either side is a NaN.
pub open spec fn float_le_bits(a: u32, b: u32) -> bool {
    &&& !is_nan_bits(a)
    &&& !is_nan_bits(b)
    &&& order_key(a) <= order_key(b)
}

impl FloatBits {
    /// Wraps a raw bit pattern, as produced by `f32::to_bits`.
    pub fn from_bits(bits: u32) -> (r: FloatBits)
        ensures
            r.bits == bits,
    {
        FloatBits { bits }
    }

    pub fn is_nan(&self) -> (r: bool)
        ensures
            r == is_nan_bits(self.bits),
    {
        let a = if self.bits >= 0x8000_0000 {
            self.bits - 0x8000_0000
        } else {
            self.bits
        };
        a > 0x7f80_0000
    }

    /// Numeric `self <= other`; false whenever either side is a NaN.
    pub fn le(&self, other: &FloatBits) -> (r: bool)
        ensures
            r == float_le_bits(self.bits, other.bits),
    {
        if self.is_nan() || other.is_nan() {
            false
        } else {
            let a = self.bits;
            let b = other.bits;
            if a >= 0x8000_0000 {
                if b >= 0x8000_0000 {
                    a >= b
                } else {
                    true
                }
            } else {
                if b >= 0x8000_0000 {
                    a == 0 && b == 0x8000_0000
                } else {
                    a <= b
                }
            }
        }
    }
}

/// The order admits every non-NaN value as equal to itself, so a bound
/// compared against itself passes an inclusive comparison.
pub proof fn lemma_float_le_refl(a: u32)
    requires
        !is_nan_bits(a),
    ensures
        float_le_bits(a, a),
{
}

} // verus!

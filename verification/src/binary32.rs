//! The binary32 interchange format, seen as a 32-bit pattern.
//!
//! A pattern splits into a sign bit, an eight-bit biased exponent field and a
//! 23-bit fraction field. Everything else in the crate reads floating-point
//! values through the functions of this module.
use vstd::prelude::*;

verus! {

/// Offset between the stored exponent field and the true exponent.
pub const EXPONENT_BIAS: i64 = 127;

/// The exponent field of infinities and NaNs.
pub const EXPONENT_ALL_ONES: u32 = 255;

/// The sign bit of a pattern: 0 for non-negative, 1 for negative.
pub open spec fn sign_field(bits: u32) -> u32 {
    bits / 0x8000_0000
}

/// The stored (biased) exponent of a pattern, in `0..=255`.
pub open spec fn exponent_field(bits: u32) -> u32 {
    (bits / 0x80_0000) % 0x100
}

/// The stored fraction of a pattern, in `0..2^23`.
pub open spec fn fraction_field(bits: u32) -> u32 {
    bits % 0x80_0000
}

/// The pattern made of the three fields.
pub open spec fn pack(sign: int, exponent: int, fraction: int) -> int {
    sign * 0x8000_0000 + exponent * 0x80_0000 + fraction
}

/// A binary32 value, held as its bit pattern.
#[derive(Clone, Copy, Debug, PartialEq, Eq, Structural)]
pub struct Binary32 {
    pub bits: u32,
}

impl Binary32 {
    /// Neither an infinity nor a NaN.
    pub open spec fn is_finite(self) -> bool {
        exponent_field(self.bits) != EXPONENT_ALL_ONES
    }

    /// A NaN of either sign and any payload.
    pub open spec fn is_nan(self) -> bool {
        exponent_field(self.bits) == EXPONENT_ALL_ONES && fraction_field(self.bits) != 0
    }

    /// Positive or negative zero.
    pub open spec fn is_zero(self) -> bool {
        exponent_field(self.bits) == 0 && fraction_field(self.bits) == 0
    }

    /// The magnitude of the integer significand of a finite value: the
    /// fraction, with the implicit leading bit added for normal numbers.
    pub open spec fn magnitude(self) -> int {
        if exponent_field(self.bits) == 0 {
            fraction_field(self.bits) as int
        } else {
            fraction_field(self.bits) + 0x80_0000
        }
    }

    /// The signed integer significand `m` of a finite value `m * 2^scale()`.
    pub open spec fn significand(self) -> int {
        if sign_field(self.bits) == 0 {
            self.magnitude()
        } else {
            -self.magnitude()
        }
    }

    /// The power of two that scales `significand()` to the value of a finite
    /// pattern.
    pub open spec fn scale(self) -> int {
        if exponent_field(self.bits) == 0 {
            -149
        } else {
            exponent_field(self.bits) - 150
        }
    }

    pub fn new(bits: u32) -> (r: Binary32)
        ensures
            r.bits == bits,
    {
        Binary32 { bits }
    }

    /// The sign bit.
    pub fn sign(&self) -> (r: u32)
        ensures
            r == sign_field(self.bits),
            r <= 1,
    {
        let bits = self.bits;
        assert(bits >> 31 == bits / 0x8000_0000 && bits >> 31 <= 1) by (bit_vector);
        bits >> 31
    }

    /// The stored exponent field.
    pub fn exponent(&self) -> (r: u32)
        ensures
            r == exponent_field(self.bits),
            r <= 255,
    {
        let bits = self.bits;
        assert((bits >> 23) & 0xff == (bits / 0x80_0000) % 0x100 && (bits >> 23) & 0xff <= 255)
            by (bit_vector);
        (bits >> 23) & 0xff
    }

    /// The stored fraction field.
    pub fn fraction(&self) -> (r: u32)
        ensures
            r == fraction_field(self.bits),
            r < 0x80_0000,
    {
        let bits = self.bits;
        assert(1u32 << 23 == 0x80_0000) by (bit_vector);
        assert(bits & 0x7f_ffff == bits % 0x80_0000 && bits & 0x7f_ffff < 0x80_0000)
            by (bit_vector);
        bits & ((1u32 << 23) - 1)
    }
}

} // verus!

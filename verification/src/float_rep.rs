//! The plain decomposition of a floating-point value: every pattern is read
//! as a number, with no separate forms for denormals, infinities and NaNs.
use vstd::prelude::*;
use crate::binary32::{Binary32, EXPONENT_BIAS, exponent_field, fraction_field, sign_field};

verus! {

/// The semantic form of a floating-point value.
#[derive(Clone, Copy, Debug, PartialEq, Eq, Structural)]
pub enum FloatBits {
    Value(u128, i64),
    Nan(u64),
    Inf(u64),
}

/// The form that a binary32 pattern is read as: the stored fraction with the
/// leading bit set at place 23 and the sign at place 24, and the unbiased
/// exponent, whatever the exponent field holds.
pub open spec fn read_as_number(bits: u32) -> FloatBits {
    FloatBits::Value(
        (fraction_field(bits) + 0x80_0000 + sign_field(bits) * 0x100_0000) as u128,
        (exponent_field(bits) - EXPONENT_BIAS) as i64,
    )
}

/// A floating-point format that decomposes its values.
pub trait FloatRep {
    /// The semantic form of the value.
    spec fn representation(&self) -> FloatBits;

    /// The widths of the format: the bits of the significand, leading bit
    /// included, and the bits of the exponent field.
    spec fn precision(&self) -> (u32, u32);

    fn float_bits(&self) -> (r: FloatBits)
        ensures
            r == self.representation(),
    ;

    fn prec(&self) -> (r: (u32, u32))
        ensures
            r == self.precision(),
    ;
}

impl FloatRep for Binary32 {
    open spec fn representation(&self) -> FloatBits {
        read_as_number(self.bits)
    }

    open spec fn precision(&self) -> (u32, u32) {
        (24, 8)
    }

    fn float_bits(&self) -> (r: FloatBits) {
        let sign = self.sign();
        let fraction = self.fraction();
        assert(fraction | (1u32 << 23) | (sign << 24) == fraction + 0x80_0000 + sign * 0x100_0000)
            by (bit_vector)
            requires
                sign <= 1,
                fraction < 0x80_0000,
        ;
        let frac = fraction | (1u32 << 23) | (sign << 24);
        let exp = self.exponent();
        FloatBits::Value(frac as u128, exp as i64 - EXPONENT_BIAS)
    }

    fn prec(&self) -> (r: (u32, u32)) {
        (24, 8)
    }
}

} // verus!

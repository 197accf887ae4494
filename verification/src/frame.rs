//! The frame that a denominator sets for Euclidean division.
//!
//! The remainder stays at or above zero when the quotient is rounded down
//! for a positive denominator and up for a negative one. A zero denominator
//! sets no frame: the quotient is then whatever the format gives for the
//! division, and the remainder is zero by convention.
use vstd::prelude::*;
use crate::binary32::{Binary32, pack, sign_field};

verus! {

/// The direction in which a quotient is rounded to an integer.
#[derive(Clone, Copy, Debug, PartialEq, Eq, Structural)]
pub enum Rounding {
    /// Towards negative infinity.
    Floor,
    /// Towards positive infinity.
    Ceil,
}

/// The rounding that keeps the remainder from going negative: down for a
/// denominator above zero, up for one below zero, and none for a denominator
/// that is neither, which is a zero of either sign or a NaN.
pub open spec fn rounding_for(d: Binary32) -> Option<Rounding> {
    if d.is_zero() || d.is_nan() {
        None
    } else if sign_field(d.bits) == 0 {
        Some(Rounding::Floor)
    } else {
        Some(Rounding::Ceil)
    }
}

/// The pattern of the quiet NaN with a clear sign and no payload.
pub const QUIET_NAN: u32 = 0x7fc0_0000;

/// The sign of a product or quotient of the two operands: 0 where their
/// signs agree, 1 where they differ.
pub open spec fn sign_of_product(n: Binary32, d: Binary32) -> int {
    if sign_field(n.bits) == sign_field(d.bits) {
        0
    } else {
        1
    }
}

/// The quotient of a finite numerator by a zero denominator, as the format
/// rules it: an infinity with the sign of the quotient for a numerator that
/// is not zero, and a NaN for zero by zero, of which the quiet one with a
/// clear sign is taken.
pub open spec fn quotient_by_zero(n: Binary32, d: Binary32) -> Binary32 {
    if n.is_zero() {
        Binary32 { bits: QUIET_NAN }
    } else {
        Binary32 { bits: pack(sign_of_product(n, d), 255, 0) as u32 }
    }
}

/// The quotient of the finite `n` by the zero `d`.
pub fn divide_by_zero(n: Binary32, d: Binary32) -> (q: Binary32)
    requires
        n.is_finite(),
        d.is_zero(),
    ensures
        q == quotient_by_zero(n, d),
        n.is_zero() ==> q.is_nan(),
        !n.is_zero() ==> q.bits == pack(sign_of_product(n, d), 255, 0),
{
    if n.exponent() == 0 && n.fraction() == 0 {
        Binary32 { bits: QUIET_NAN }
    } else {
        let sign = n.sign() ^ d.sign();
        let ns = n.sign();
        let ds = d.sign();
        assert((ns ^ ds) == (if ns == ds {
            0u32
        } else {
            1u32
        }) && ((ns ^ ds) << 31) | 0x7f80_0000 == (ns ^ ds) * 0x8000_0000 + 255 * 0x80_0000)
            by (bit_vector)
            requires
                ns <= 1,
                ds <= 1,
        ;
        Binary32 { bits: (sign << 31) | 0x7f80_0000 }
    }
}

/// The rounding of the quotient for the denominator `d`, or `None` where the
/// division falls back on the convention for zero denominators.
pub fn quotient_rounding(d: Binary32) -> (r: Option<Rounding>)
    ensures
        r == rounding_for(d),
{
    let stored = d.exponent();
    let fraction = d.fraction();
    let zero = stored == 0 && fraction == 0;
    let nan = stored == 255 && fraction != 0;
    if zero || nan {
        None
    } else if d.sign() == 0 {
        Some(Rounding::Floor)
    } else {
        Some(Rounding::Ceil)
    }
}

} // verus!

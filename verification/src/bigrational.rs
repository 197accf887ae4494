//! Arbitrary-precision integers and ratios of the `num` crate.
//!
//! Nothing in this module is proved. Each function makes one call into `num`
//! and states what that call returns, over the integer that a `BigInt` holds
//! and the numerator and denominator that a `BigRational` holds. `num` keeps
//! every ratio it computes in lowest terms with a positive denominator, and
//! the contracts say so through [`lowest`].
use vstd::prelude::*;
use vstd::arithmetic::power2::pow2;
use num::BigInt;
use num::rational::BigRational;
use crate::fraction::{Fraction, lowest};

verus! {

/// `num::BigInt`, an integer of any size.
#[verifier::external_type_specification]
#[verifier::external_body]
pub struct ExBigInt(num::BigInt);

/// `num::rational::Ratio`, a numerator and a denominator of one integer type.
#[verifier::external_type_specification]
#[verifier::external_body]
#[verifier::reject_recursive_types(T)]
pub struct ExRatio<T>(num::rational::Ratio<T>);

/// The integer that a `BigInt` holds.
pub uninterp spec fn bigint_value(x: BigInt) -> int;

/// The numerator that a ratio holds, as `Ratio::numer` hands it out.
pub uninterp spec fn ratio_numer(x: BigRational) -> int;

/// The denominator that a ratio holds, as `Ratio::denom` hands it out.
pub uninterp spec fn ratio_denom(x: BigRational) -> int;

/// The binary32 pattern that `ToPrimitive::to_f32` gives for the ratio of
/// numerator `numer` and denominator `denom`, or `None` where it gives none.
pub uninterp spec fn converted_binary32(numer: int, denom: int) -> Option<u32>;

/// The numerator and the denominator of a ratio.
pub open spec fn fraction_of(x: BigRational) -> Fraction {
    Fraction { num: ratio_numer(x), den: ratio_denom(x) }
}

/// `BigInt::from` on an `i64`: the big integer of the same value.
#[verifier::external_body]
pub(crate) fn bigint_from_i64(x: i64) -> (r: BigInt)
    ensures
        bigint_value(r) == x,
{
    BigInt::from(x)
}

/// `<<` on a `BigInt` and a `usize`: the integer times two to the power
/// `bits`. The sign stays and no bit is lost.
#[verifier::external_body]
pub(crate) fn bigint_shl(x: BigInt, bits: usize) -> (r: BigInt)
    ensures
        bigint_value(r) == bigint_value(x) * pow2(bits as nat),
{
    x << bits
}

/// `Ratio::new`: the ratio of the two integers in lowest terms with a positive
/// denominator. It panics on a zero denominator, which `requires` leaves out.
#[verifier::external_body]
pub(crate) fn ratio_new(numer: BigInt, denom: BigInt) -> (r: BigRational)
    requires
        bigint_value(denom) != 0,
    ensures
        fraction_of(r) == lowest(bigint_value(numer), bigint_value(denom)),
{
    BigRational::new(numer, denom)
}

/// `Ratio::from_integer`: the integer over one.
#[verifier::external_body]
pub(crate) fn ratio_from_integer(t: BigInt) -> (r: BigRational)
    ensures
        fraction_of(r) == (Fraction { num: bigint_value(t), den: 1 }),
{
    BigRational::from_integer(t)
}

/// `num::zero` at `BigRational`: zero over one.
#[verifier::external_body]
pub(crate) fn ratio_zero() -> (r: BigRational)
    ensures
        fraction_of(r) == (Fraction { num: 0, den: 1 }),
{
    num::zero()
}

/// `<` on two ratios with positive denominators: whether the value of the
/// first is below the value of the second.
#[verifier::external_body]
pub(crate) fn ratio_lt(a: &BigRational, b: &BigRational) -> (r: bool)
    requires
        ratio_denom(*a) > 0,
        ratio_denom(*b) > 0,
    ensures
        r == (ratio_numer(*a) * ratio_denom(*b) < ratio_numer(*b) * ratio_denom(*a)),
{
    a < b
}

/// `/` on two ratios: the quotient of the values, in lowest terms. It panics
/// on a zero divisor, which `requires` leaves out.
#[verifier::external_body]
pub(crate) fn ratio_div(a: &BigRational, b: &BigRational) -> (r: BigRational)
    requires
        ratio_denom(*a) != 0,
        ratio_denom(*b) != 0,
        ratio_numer(*b) != 0,
    ensures
        fraction_of(r) == lowest(
            ratio_numer(*a) * ratio_denom(*b),
            ratio_denom(*a) * ratio_numer(*b),
        ),
{
    a / b
}

/// `*` on two ratios: the product of the values, in lowest terms.
#[verifier::external_body]
pub(crate) fn ratio_mul(a: &BigRational, b: &BigRational) -> (r: BigRational)
    requires
        ratio_denom(*a) != 0,
        ratio_denom(*b) != 0,
    ensures
        fraction_of(r) == lowest(
            ratio_numer(*a) * ratio_numer(*b),
            ratio_denom(*a) * ratio_denom(*b),
        ),
{
    a * b
}

/// `-` on two ratios: the difference of the values, in lowest terms.
#[verifier::external_body]
pub(crate) fn ratio_sub(a: &BigRational, b: &BigRational) -> (r: BigRational)
    requires
        ratio_denom(*a) != 0,
        ratio_denom(*b) != 0,
    ensures
        fraction_of(r) == lowest(
            ratio_numer(*a) * ratio_denom(*b) - ratio_numer(*b) * ratio_denom(*a),
            ratio_denom(*a) * ratio_denom(*b),
        ),
{
    a - b
}

/// `Ratio::floor` on a ratio with a positive denominator: the largest integer
/// not above the value, over one.
#[verifier::external_body]
pub(crate) fn ratio_floor(a: &BigRational) -> (r: BigRational)
    requires
        ratio_denom(*a) > 0,
    ensures
        fraction_of(r) == (Fraction { num: ratio_numer(*a) / ratio_denom(*a), den: 1 }),
{
    a.floor()
}

/// `Ratio::ceil` on a ratio with a positive denominator: the smallest integer
/// not below the value, over one.
#[verifier::external_body]
pub(crate) fn ratio_ceil(a: &BigRational) -> (r: BigRational)
    requires
        ratio_denom(*a) > 0,
    ensures
        fraction_of(r) == (Fraction { num: -((-ratio_numer(*a)) / ratio_denom(*a)), den: 1 }),
{
    a.ceil()
}

/// `ToPrimitive::to_f32` on a ratio, the result taken by its bit pattern. The
/// pattern depends on the numerator and the denominator alone. The conversion
/// goes through a double, which `num` refuses only where it is a NaN, the
/// quotient of two zeros: with a nonzero denominator there is a pattern.
#[verifier::external_body]
pub(crate) fn ratio_to_binary32(a: &BigRational) -> (r: Option<u32>)
    ensures
        r == converted_binary32(ratio_numer(*a), ratio_denom(*a)),
        ratio_denom(*a) != 0 ==> r is Some,
{
    match num::ToPrimitive::to_f32(a) {
        Some(x) => Some(x.to_bits()),
        None => None,
    }
}

} // verus!

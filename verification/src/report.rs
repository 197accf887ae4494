//! What a run of a strategy reports: which operands it is run on, and when
//! its result is worth a line.
use vstd::prelude::*;
use crate::binary32::{Binary32, exponent_field, fraction_field, sign_field};

verus! {

/// The pattern of the negated value: the same exponent and fraction under
/// the other sign.
pub open spec fn negation(x: Binary32) -> Binary32 {
    Binary32 { bits: if x.bits < 0x8000_0000 {
        (x.bits + 0x8000_0000) as u32
    } else {
        (x.bits - 0x8000_0000) as u32
    } }
}

/// The operand pairs of a run: the pair as given, and with all signs asked
/// for, also the pair with the numerator negated, with the denominator
/// negated, and with both negated, in that order.
pub open spec fn operand_pairs(n: Binary32, d: Binary32, all_signs: bool) -> Seq<
    (Binary32, Binary32),
> {
    if all_signs {
        seq![(n, d), (negation(n), d), (n, negation(d)), (negation(n), negation(d))]
    } else {
        seq![(n, d)]
    }
}

/// A result is passed over in silence only in quiet mode, and only where it
/// reconstructs the numerator and keeps the remainder in range.
pub open spec fn worth_a_line(quiet: bool, reconstructed: bool, in_range: bool) -> bool {
    !quiet || !reconstructed || !in_range
}

/// The value under the other sign: the sign bit flips, and the exponent and
/// the fraction stay as they are.
pub fn negate(x: Binary32) -> (r: Binary32)
    ensures
        r == negation(x),
        sign_field(r.bits) == 1 - sign_field(x.bits),
        exponent_field(r.bits) == exponent_field(x.bits),
        fraction_field(r.bits) == fraction_field(x.bits),
{
    let bits = x.bits;
    assert(bits ^ 0x8000_0000 == if bits < 0x8000_0000 {
        (bits + 0x8000_0000) as u32
    } else {
        (bits - 0x8000_0000) as u32
    }) by (bit_vector);
    Binary32 { bits: bits ^ 0x8000_0000 }
}

/// The operand pairs that a run reports on, in the order of the report.
pub fn runs(n: Binary32, d: Binary32, all_signs: bool) -> (r: Vec<(Binary32, Binary32)>)
    ensures
        r@ == operand_pairs(n, d, all_signs),
{
    let mut r: Vec<(Binary32, Binary32)> = Vec::new();
    r.push((n, d));
    if all_signs {
        r.push((negate(n), d));
        r.push((n, negate(d)));
        r.push((negate(n), negate(d)));
    }
    assert(r@ =~= operand_pairs(n, d, all_signs));
    r
}

/// Whether the result of a run is reported.
pub fn must_print(quiet: bool, reconstructed: bool, in_range: bool) -> (r: bool)
    ensures
        r == worth_a_line(quiet, reconstructed, in_range),
{
    !quiet || !reconstructed || !in_range
}

} // verus!

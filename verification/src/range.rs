//! The range that a Euclidean remainder has to keep: at least zero and below
//! the magnitude of the divisor.
//!
//! The test is made on bit patterns. For numbers it is the comparison of
//! their exact values; an infinite divisor is above every number, and a NaN
//! on either side fails the test.
use vstd::prelude::*;
use vstd::arithmetic::mul::{lemma_mul_inequality, lemma_mul_strict_inequality};
use vstd::arithmetic::power2::{
    lemma2_to64, lemma_pow2_adds, lemma_pow2_pos, lemma_pow2_strictly_increases,
    lemma_pow2_unfold, pow2,
};
use crate::binary32::{Binary32, exponent_field, fraction_field};
use crate::fraction::{abs, lemma_cancel, lemma_lowest};
use crate::rational::{exact_value, lemma_exact_value_zero, positive_part};

verus! {

/// Whether the remainder `r` is at least zero and below the magnitude of the
/// divisor `d`.
pub open spec fn within_divisor(r: Binary32, d: Binary32) -> bool {
    if r.is_nan() || d.is_nan() || !r.is_finite() {
        false
    } else if !d.is_finite() {
        exact_value(r).num >= 0
    } else {
        let rv = exact_value(r);
        let dv = exact_value(d);
        0 <= rv.num && rv.num * dv.den < abs(dv.num) * rv.den
    }
}

/// The magnitude of a finite value counted in units of 2^-149, the smallest
/// step of the format.
pub open spec fn weight(x: Binary32) -> nat {
    (x.magnitude() * pow2((x.scale() + 149) as nat)) as nat
}

/// The pattern without its sign bit.
pub open spec fn magnitude_bits(x: Binary32) -> int {
    exponent_field(x.bits) * 0x80_0000 + fraction_field(x.bits)
}

/// Among finite values, a larger pattern is a larger magnitude.
pub proof fn lemma_weight_increases(x: Binary32, y: Binary32)
    requires
        x.is_finite(),
        y.is_finite(),
        magnitude_bits(x) < magnitude_bits(y),
    ensures
        weight(x) < weight(y),
{
    lemma2_to64();
    let ex = exponent_field(x.bits);
    let ey = exponent_field(y.bits);
    let sx = (x.scale() + 149) as nat;
    let sy = (y.scale() + 149) as nat;
    lemma_pow2_pos(sx);
    lemma_pow2_pos(sy);
    if ex == ey {
        lemma_mul_strict_inequality(x.magnitude(), y.magnitude(), pow2(sy) as int);
    } else {
        assert(ex < ey);
        // weight(x) < 2^23 * 2^(sy) <= weight(y)
        assert(x.magnitude() * pow2(sx) < 0x80_0000 * pow2(sy)) by {
            if ex == 0 {
                lemma_mul_inequality(1, pow2(sy) as int, 0x80_0000);
            } else {
                lemma_mul_strict_inequality(x.magnitude(), 0x100_0000, pow2(sx) as int);
                lemma_pow2_unfold(sx + 1);
                if sx + 1 < sy {
                    lemma_pow2_strictly_increases(sx + 1, sy);
                }
                lemma_mul_inequality(pow2(sx + 1) as int, pow2(sy) as int, 0x80_0000);
                assert(0x100_0000 * pow2(sx) == 0x80_0000 * pow2(sx + 1));
            }
        }
        lemma_mul_inequality(0x80_0000, y.magnitude(), pow2(sy) as int);
    }
}

/// The exact value of a finite pattern has the magnitude `weight / 2^149`.
proof fn lemma_weight_is_magnitude(x: Binary32)
    requires
        x.is_finite(),
    ensures
        exact_value(x).den > 0,
        abs(exact_value(x).num) * pow2(149) == weight(x) * exact_value(x).den,
{
    let s = x.scale();
    let up = pow2(positive_part(s)) as int;
    let down = pow2(positive_part(-s)) as int;
    let unit = pow2(149) as int;
    let w = pow2((s + 149) as nat) as int;
    let m = x.magnitude();
    let v = exact_value(x);
    lemma_pow2_pos(positive_part(-s));
    lemma_pow2_pos(positive_part(s));
    lemma_lowest(x.significand() * up, down);
    lemma_exact_value_zero(x);
    // 2^max(s, 0) * 2^149 == 2^(s + 149) * 2^max(-s, 0)
    lemma_pow2_adds(positive_part(s), 149);
    lemma_pow2_adds((s + 149) as nat, positive_part(-s));
    assert(up * unit == w * down);
    let a = abs(v.num) as int;
    assert(a * down == (m * up) * v.den) by (nonlinear_arith)
        requires
            v.num * down == (x.significand() * up) * v.den,
            x.significand() == m || x.significand() == -m,
            m >= 0,
            up > 0,
            v.den > 0,
            down > 0,
            a == v.num || a == -v.num,
            a >= 0,
    ;
    assert((a * unit) * down == (a * down) * unit) by (nonlinear_arith);
    assert(((m * up) * v.den) * unit == (m * v.den) * (up * unit)) by (nonlinear_arith);
    assert((m * v.den) * (w * down) == ((m * w) * v.den) * down) by (nonlinear_arith);
    lemma_cancel(a * unit, (m * w) * v.den, down);
}

/// For finite values, comparing the patterns without their signs compares
/// the magnitudes of the exact values.
pub proof fn lemma_magnitude_order(r: Binary32, d: Binary32)
    requires
        r.is_finite(),
        d.is_finite(),
    ensures
        magnitude_bits(r) < magnitude_bits(d) <==> abs(exact_value(r).num) * exact_value(d).den
            < abs(exact_value(d).num) * exact_value(r).den,
{
    let rv = exact_value(r);
    let dv = exact_value(d);
    let wr = weight(r) as int;
    let wd = weight(d) as int;
    let unit = pow2(149) as int;
    let ra = abs(rv.num) as int;
    let da = abs(dv.num) as int;
    lemma_pow2_pos(149);
    lemma_weight_is_magnitude(r);
    lemma_weight_is_magnitude(d);
    if magnitude_bits(r) < magnitude_bits(d) {
        lemma_weight_increases(r, d);
    } else if magnitude_bits(d) < magnitude_bits(r) {
        lemma_weight_increases(d, r);
    } else {
        assert(exponent_field(r.bits) == exponent_field(d.bits));
        assert(fraction_field(r.bits) == fraction_field(d.bits));
        assert(wr == wd);
    }
    assert((wr < wd) <==> (ra * dv.den < da * rv.den)) by (nonlinear_arith)
        requires
            ra * unit == wr * rv.den,
            da * unit == wd * dv.den,
            unit > 0,
            rv.den > 0,
            dv.den > 0,
    {
        assert((ra * dv.den) * unit == (wr * rv.den) * dv.den);
        assert((da * rv.den) * unit == (wd * dv.den) * rv.den);
        assert((wr * rv.den) * dv.den == wr * (rv.den * dv.den));
        assert((wd * dv.den) * rv.den == wd * (rv.den * dv.den));
        assert(rv.den * dv.den > 0);
    }
}

/// Tells whether the remainder `r` is at least zero and below the magnitude
/// of the divisor `d`.
pub fn in_range(r: Binary32, d: Binary32) -> (ok: bool)
    ensures
        ok == within_divisor(r, d),
{
    let rb = r.bits;
    let db = d.bits;
    let ra = rb & 0x7fff_ffff;
    let da = db & 0x7fff_ffff;
    proof {
        assert(rb & 0x7fff_ffff == ((rb / 0x80_0000) % 0x100) * 0x80_0000 + rb % 0x80_0000)
            by (bit_vector);
        assert(db & 0x7fff_ffff == ((db / 0x80_0000) % 0x100) * 0x80_0000 + db % 0x80_0000)
            by (bit_vector);
        assert(ra == magnitude_bits(r));
        assert(da == magnitude_bits(d));
        if r.is_finite() {
            lemma_exact_value_zero(r);
            if d.is_finite() {
                lemma_magnitude_order(r, d);
            }
        }
    }
    if ra > 0x7f80_0000 || da > 0x7f80_0000 {
        return false;
    }
    (r.sign() == 0 || ra == 0) && ra < da
}

} // verus!

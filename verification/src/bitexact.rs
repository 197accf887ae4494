//! Euclidean division and remainder on decomposed significands, in 128-bit
//! integer arithmetic alone.
//!
//! This strategy is experimental and known to be incomplete. The sign of the
//! quotient is the exclusive or of the operands' signs and the remainder is
//! always positive: nothing yet moves the quotient between floor and ceiling
//! for operands of different sign. Significands are shifted left by only 25
//! places more than their exponents, so operands with exponents below -25
//! are out of reach, and those with large exponents lose their high bits.
//! Quotients of more than 25 bits are out of reach too, and so are
//! remainders of two or more, which take more than 25 bits in units of 2^-24.
//!
//! A zero denominator follows the convention of the other strategies: the
//! quotient is what the format gives for the division, the remainder zero.
use vstd::prelude::*;
use vstd::arithmetic::div_mod::{
    lemma_fundamental_div_mod, lemma_mod_decreases, lemma_mod_pos_bound, lemma_small_mod,
};
use vstd::arithmetic::mul::{
    lemma_mul_inequality, lemma_mul_is_associative, lemma_mul_strict_inequality,
};
use vstd::arithmetic::power2::{lemma2_to64, lemma_pow2_adds, lemma_pow2_pos, lemma_pow2_unfold, pow2};
use vstd::pervasive::unreached;
use crate::binary32::{Binary32, exponent_field, fraction_field, pack, sign_field};
use crate::bits::{
    bit_length, lemma_aligned_fits, lemma_bit_length, lemma_bit_length_below,
    lemma_shl_is_mul_mod, word_modulus,
};
use crate::float_utils::{FloatBits, Floaty};
use crate::fraction::abs;
use crate::frame::{divide_by_zero, quotient_by_zero, sign_of_product};
use crate::range::{
    lemma_magnitude_order, lemma_weight_increases, magnitude_bits, weight, within_divisor,
};
use crate::rational::{exact_value, lemma_exact_value_zero};

verus! {

/// The magnitude of a normal number's significand in the working domain:
/// shifted left by 25 places more than its exponent, within 128 bits.
pub open spec fn wide(x: Binary32) -> nat {
    ((x.magnitude() * pow2((x.scale() + 48) as nat)) % word_modulus()) as nat
}

/// `v` shifted left until its highest bit stands at place 24, for `v` below
/// 2^25.
pub open spec fn aligned(v: nat) -> nat {
    v * pow2((25 - bit_length(v)) as nat)
}

/// The pattern that stands for the integer `v` counted in units of
/// 2^`unit`. Zero is the zero of the sign. For any other `v` the exponent is
/// that of its highest bit, the fraction is the 23 bits below it, and what
/// lies lower is cut off.
pub open spec fn scaled_pattern(sign: int, v: nat, unit: int) -> int {
    if v == 0 {
        sign * 0x8000_0000
    } else {
        pack(sign, bit_length(v) - 1 + unit + 127, ((aligned(v) / 2) % 0x80_0000) as int)
    }
}

/// The operands within reach of the 128-bit working domain: normal numbers
/// with exponents from -25 to 102, a divisor that keeps a bit in the domain,
/// and a quotient and a remainder of at most 25 bits.
pub open spec fn prop_in_reach(n: Binary32, d: Binary32) -> bool {
    &&& 102 <= exponent_field(n.bits) <= 229
    &&& 102 <= exponent_field(d.bits) <= 229
    &&& wide(d) != 0
    &&& wide(n) / wide(d) < 0x200_0000
    &&& (wide(n) % wide(d)) / 0x100_0000 < 0x200_0000
}

/// The operands that the strategy can take: those within reach of the
/// working domain, and a finite numerator over a zero denominator.
pub open spec fn prop_defined(n: Binary32, d: Binary32) -> bool {
    prop_in_reach(n, d) || (n.is_finite() && d.is_zero())
}

/// Quotient and remainder of the strategy. For a zero denominator they are
/// the quotient that the format gives and a zero remainder. Otherwise they
/// are the integer quotient of the two widened significands, and what is
/// left of the numerator counted in units of 2^-24, each cut to 24 bits.
pub open spec fn prop_divmod(n: Binary32, d: Binary32) -> (Binary32, Binary32) {
    if d.is_zero() {
        (quotient_by_zero(n, d), Binary32 { bits: 0 })
    } else {
        let q = wide(n) / wide(d);
        let r = (wide(n) % wide(d)) / 0x100_0000;
        (
            Binary32 { bits: scaled_pattern(sign_of_product(n, d), q, 0) as u32 },
            Binary32 { bits: scaled_pattern(0, r, -24) as u32 },
        )
    }
}

/// A number that is not zero has its highest bit at place 24 once aligned.
proof fn lemma_aligned_leads(v: nat)
    requires
        0 < v < pow2(25),
    ensures
        aligned(v) >= 0x100_0000,
{
    lemma2_to64();
    lemma_bit_length(v);
    lemma_bit_length_below(v, 25);
    let b = bit_length(v);
    let k = (25 - b) as nat;
    lemma_pow2_adds((b - 1) as nat, k);
    lemma_mul_inequality(pow2((b - 1) as nat) as int, v as int, pow2(k) as int);
}

/// What is left of the numerator weighs less than the divisor: `v` counts it
/// in units of 2^-24, and cutting it to 24 bits cannot make it larger.
proof fn lemma_remainder_weight(n: Binary32, d: Binary32)
    requires
        prop_in_reach(n, d),
        (wide(n) % wide(d)) / 0x100_0000 > 0,
    ensures
        ({
            let r = prop_divmod(n, d).1;
            &&& sign_field(r.bits) == 0
            &&& r.is_finite()
            &&& d.is_finite()
            &&& weight(r) < weight(d)
        }),
{
    lemma2_to64();
    let rem = wide(n) % wide(d);
    let v = rem / 0x100_0000;
    let r = prop_divmod(n, d).1;
    let b = bit_length(v);
    lemma_aligned_fits(v, 25);
    lemma_aligned_leads(v);
    let a = aligned(v);
    let h = a / 2;
    // The fields of the remainder's pattern.
    assert(b >= 1);
    assert(r.bits == (b + 102) * 0x80_0000 + (h - 0x80_0000));
    assert(exponent_field(r.bits) == b + 102);
    assert(sign_field(r.bits) == 0);
    assert(r.magnitude() == h);
    assert(r.scale() + 149 == b + 101);
    // weight(r) <= v * 2^125
    let p = pow2((b + 100) as nat) as int;
    lemma_pow2_unfold((b + 101) as nat);
    lemma_pow2_pos((b + 100) as nat);
    assert(h * (2 * p) <= a * p) by (nonlinear_arith)
        requires
            h * 2 <= a,
            p >= 0,
    ;
    lemma_pow2_adds((25 - b) as nat, (b + 100) as nat);
    lemma_mul_is_associative(v as int, pow2((25 - b) as nat) as int, p);
    assert(weight(r) <= v * pow2(125));
    // v * 2^24 < wide(d) <= magnitude(d) * 2^(exponent field - 102)
    let md = d.magnitude();
    let sd = (d.scale() + 48) as nat;
    lemma_mod_pos_bound(wide(n) as int, wide(d) as int);
    lemma_mod_decreases((md * pow2(sd)) as nat, word_modulus() as nat);
    assert(v * pow2(24) < md * pow2(sd));
    // Both sides times 2^101.
    lemma_pow2_pos(101);
    lemma_mul_strict_inequality((v * pow2(24)) as int, md * pow2(sd), pow2(101) as int);
    lemma_pow2_adds(24, 101);
    lemma_mul_is_associative(v as int, pow2(24) as int, pow2(101) as int);
    lemma_pow2_adds(sd, 101);
    lemma_mul_is_associative(md, pow2(sd) as int, pow2(101) as int);
    assert(d.scale() + 149 == sd + 101);
}

/// The remainder of operands within reach of the working domain keeps the
/// range: it is at least zero and below the magnitude of the divisor.
pub proof fn lemma_prop_remainder_in_range(n: Binary32, d: Binary32)
    requires
        prop_in_reach(n, d),
    ensures
        within_divisor(prop_divmod(n, d).1, d),
{
    let v = (wide(n) % wide(d)) / 0x100_0000;
    let r = prop_divmod(n, d).1;
    let rv = exact_value(r);
    let dv = exact_value(d);
    lemma_exact_value_zero(d);
    if v == 0 {
        assert(r.bits == 0);
        lemma_exact_value_zero(r);
        assert(0 < abs(dv.num) * rv.den) by (nonlinear_arith)
            requires
                abs(dv.num) > 0,
                rv.den > 0,
        ;
        assert(rv.num == 0);
        assert(rv.num * dv.den == 0);
    } else {
        lemma_remainder_weight(n, d);
        lemma_exact_value_zero(r);
        if magnitude_bits(d) < magnitude_bits(r) {
            lemma_weight_increases(d, r);
        } else if magnitude_bits(d) == magnitude_bits(r) {
            assert(exponent_field(r.bits) == exponent_field(d.bits));
            assert(fraction_field(r.bits) == fraction_field(d.bits));
            assert(weight(r) == weight(d));
        }
        lemma_magnitude_order(r, d);
        assert(abs(rv.num) == rv.num);
    }
}

/// Clears the sign of a decomposed significand and shifts it into the
/// working domain.
fn widen(f: u128, e: i64) -> (r: u128)
    requires
        f < 0x200_0000,
        0 <= 24 + e < 128,
    ensures
        r == ((f % 0x100_0000) * pow2((24 + e) as nat)) % word_modulus(),
{
    let shift: u32 = (24 + e) as u32;
    let magnitude = f & !(1u128 << 24);
    proof {
        assert(f & !(1u128 << 24) == f % 0x100_0000) by (bit_vector)
            requires
                f < 0x200_0000,
        ;
        lemma_shl_is_mul_mod(magnitude, shift);
    }
    magnitude << shift
}

/// Shifts `v` left until its highest bit stands at place 24, and gives the
/// exponent of that bit where `v` counts units of 2^`unit`.
fn align(v: u128, unit: i64) -> (r: (u128, i64))
    requires
        v < 0x200_0000,
        -24 <= unit <= 0,
    ensures
        r.0 == aligned(v as nat),
        r.0 < 0x200_0000,
        r.1 == bit_length(v as nat) - 1 + unit,
        bit_length(v as nat) <= 25,
        v != 0 ==> r.0 >= 0x100_0000,
{
    proof {
        lemma2_to64();
        lemma_aligned_fits(v as nat, 25);
        if v != 0 {
            lemma_aligned_leads(v as nat);
        }
    }
    let z = v.leading_zeros() as i64;
    let s = -127 + z + 24;
    let shift: u32 = s as u32;
    proof {
        lemma_shl_is_mul_mod(v, shift);
        lemma_small_mod(aligned(v as nat), word_modulus() as nat);
    }
    let f = v << shift;
    let e = 127 - z + unit;
    (f, e)
}

/// Packs a sign, an exponent and an aligned significand into a pattern. A
/// significand of zero is the zero of the sign.
fn make_float(f: u128, e: i64, s: u128) -> (r: Binary32)
    requires
        f < 0x200_0000,
        -127 <= e <= 128,
        s <= 1,
    ensures
        r.bits == if f == 0 {
            s * 0x8000_0000
        } else {
            pack(s as int, e + 127, ((f / 2) % 0x80_0000) as int)
        },
{
    let sign = s as u32;
    if f == 0 {
        assert(sign << 31 == sign * 0x8000_0000) by (bit_vector)
            requires
                sign <= 1,
        ;
        return Binary32 { bits: sign << 31 };
    }
    let stored = (e + 127) as u32;
    let half = (f >> 1) as u32;
    assert(1u32 << 23 == 0x80_0000) by (bit_vector);
    assert(f >> 1 == f / 2) by (bit_vector);
    assert((sign << 31) | ((stored & 0xff) << 23) | (half & 0x7f_ffff) == sign * 0x8000_0000
        + stored * 0x80_0000 + half % 0x80_0000) by (bit_vector)
        requires
            sign <= 1,
            stored <= 255,
    ;
    let bits = (sign << 31) | ((stored & 0xff) << 23) | (half & ((1u32 << 23) - 1));
    Binary32 { bits }
}

/// Whether the strategy can take the two operands.
pub fn prop_is_defined(n0: Binary32, d0: Binary32) -> (ok: bool)
    ensures
        ok == prop_defined(n0, d0),
{
    let en = n0.exponent();
    let ed = d0.exponent();
    if ed == 0 && d0.fraction() == 0 {
        return en != 255;
    }
    if en < 102 || en > 229 || ed < 102 || ed > 229 {
        return false;
    }
    match (n0.float_bits(), d0.float_bits()) {
        (FloatBits::Value(nf, ne), FloatBits::Value(df, de)) => {
            let nf = widen(nf, ne + 1);
            let df = widen(df, de + 1);
            if df == 0 {
                return false;
            }
            assert(1u128 << 25 == 0x200_0000) by (bit_vector);
            let rf = nf % df;
            assert(rf >> 24 == rf / 0x100_0000) by (bit_vector);
            nf / df < (1u128 << 25) && (rf >> 24) < (1u128 << 25)
        },
        _ => false,
    }
}

/// Euclidean division and remainder of `n0` by `d0` on their decomposed
/// significands.
pub fn divmod_euclid_prop(n0: Binary32, d0: Binary32) -> (res: (Binary32, Binary32))
    requires
        prop_defined(n0, d0),
    ensures
        res == prop_divmod(n0, d0),
        d0.is_zero() ==> res.1.bits == 0,
        d0.is_zero() && !n0.is_zero() ==> res.0.bits == pack(sign_of_product(n0, d0), 255, 0),
        d0.is_zero() && n0.is_zero() ==> res.0.is_nan(),
        prop_in_reach(n0, d0) ==> within_divisor(res.1, d0),
{
    if d0.exponent() == 0 && d0.fraction() == 0 {
        // Division by zero gives an infinity or a NaN, and a zero remainder
        // by convention.
        (divide_by_zero(n0, d0), Binary32 { bits: 0 })
    } else {
        proof {
            lemma_prop_remainder_in_range(n0, d0);
        }
        divide_in_reach(n0, d0)
    }
}

/// The strategy on operands within reach of the working domain.
fn divide_in_reach(n0: Binary32, d0: Binary32) -> (res: (Binary32, Binary32))
    requires
        prop_in_reach(n0, d0),
    ensures
        res == prop_divmod(n0, d0),
{
    let n = n0.float_bits();
    let d = d0.float_bits();

    match (n, d) {
        (FloatBits::Value(nf, ne), FloatBits::Value(df, de)) => {
            let ne = ne + 1;
            let de = de + 1;
            // The sign is that of the product of the operands.
            let sign = (nf ^ df) >> 24;
            proof {
                let sn = sign_field(n0.bits) as u128;
                let sd = sign_field(d0.bits) as u128;
                let mn = n0.magnitude() as u128;
                let md = d0.magnitude() as u128;
                assert(((nf ^ df) >> 24) == (if sn == sd {
                    0u128
                } else {
                    1u128
                })) by (bit_vector)
                    requires
                        nf == mn + sn * 0x100_0000,
                        df == md + sd * 0x100_0000,
                        mn < 0x100_0000,
                        md < 0x100_0000,
                        sn <= 1,
                        sd <= 1,
                ;
            }
            let nf = widen(nf, ne);
            let df = widen(df, de);
            assert(nf == wide(n0) && df == wide(d0));

            // Calculate quotient.
            let qf = nf / df;

            // Align and adjust exponent.
            let (mut qf, qe) = align(qf, 0);
            let ghost q = nf / df;
            let qs: u32 = (24 - qe) as u32;

            // Hit the floor.
            proof {
                lemma2_to64();
                lemma_aligned_fits(q as nat, 25);
                lemma_shl_is_mul_mod(q, qs);
                lemma_small_mod(aligned(q as nat), word_modulus() as nat);
                assert(qf == q << qs);
                assert((1u128 << qs) >= 1 && ((q << qs) & !(((1u128 << qs) - 1) as u128)) == (q
                    << qs) && ((q << qs) >> qs) == q) by (bit_vector)
                    requires
                        qs <= 25,
                        q < 0x200_0000,
                ;
            }
            qf &= !((1u128 << qs) - 1);

            // Calculate remainder.
            proof {
                lemma_fundamental_div_mod(nf as int, df as int);
                assert(q * df == df * q) by (nonlinear_arith);
                assert(0 <= q * df <= nf) by (nonlinear_arith)
                    requires
                        nf == df * q + (nf % df),
                        0 <= nf % df,
                        0 <= q,
                        0 <= df,
                ;
            }
            let left = nf - (qf >> qs) * df;
            assert(left >> 24 == left / 0x100_0000) by (bit_vector);
            let rf = left >> 24;

            // Align and adjust exponent.
            let ghost r = rf;
            let (rf, re) = align(rf, -24);

            let quotient = make_float(qf, qe, sign);
            let remainder = make_float(rf, re, 0);
            assert(quotient.bits == scaled_pattern(sign_of_product(n0, d0), q as nat, 0));
            assert(remainder.bits == scaled_pattern(0, r as nat, -24));
            (quotient, remainder)
        },
        _ => unreached(),
    }
}

} // verus!

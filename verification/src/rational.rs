//! Euclidean division and remainder computed on exact fractions.
//!
//! Both operands are taken by their exact value, a fraction of big integers.
//! The quotient is the Euclidean quotient of the two values and the remainder
//! is what is left of the numerator, both exact; they are turned back into
//! binary32 only at the end, either as they are or after rounding onto the
//! grid of multiples of 2^-24.
use vstd::prelude::*;
use vstd::arithmetic::power2::{lemma2_to64, lemma_pow2_pos, pow2};
use num::rational::BigRational;
use crate::bigrational::{
    bigint_from_i64, bigint_shl, converted_binary32, fraction_of, ratio_ceil, ratio_denom,
    ratio_div, ratio_floor, ratio_from_integer, ratio_lt, ratio_mul, ratio_new, ratio_numer,
    ratio_sub, ratio_to_binary32, ratio_zero,
};
use crate::binary32::Binary32;
use crate::fraction::{
    Fraction, abs, lemma_cancel, lemma_euclid_division, lemma_euclid_division_unique,
    lemma_integer_is_lowest, lemma_lowest, lemma_lowest_fixed, lemma_lowest_same_value,
    lowest,
};

verus! {

/// The exponent of the grid that the exact mode rounds onto: results are
/// multiples of 2^-24.
pub const GRID_BITS: u32 = 24;

/// `x` where it is positive, else zero.
pub open spec fn positive_part(x: int) -> nat {
    if x > 0 {
        x as nat
    } else {
        0
    }
}

/// The exact value of a finite pattern, in lowest terms.
pub open spec fn exact_value(x: Binary32) -> Fraction {
    lowest(
        x.significand() * pow2(positive_part(x.scale())),
        pow2(positive_part(-x.scale())) as int,
    )
}

/// The Euclidean quotient of two fractions: the integer `q` for which
/// `n - q * d` is at least zero and below the magnitude of `d`. It is the
/// floor of `n / d` for a positive `d` and the ceiling for a negative one.
pub open spec fn euclid_quotient(n: Fraction, d: Fraction) -> int {
    (n.num * d.den) / (n.den * d.num)
}

/// The Euclidean remainder of two fractions, `n - q * d` for the Euclidean
/// quotient `q`, in lowest terms.
pub open spec fn euclid_remainder(n: Fraction, d: Fraction) -> Fraction {
    lowest((n.num * d.den) % (n.den * d.num), n.den * d.den)
}

/// The multiple of 2^-24 next to `x`: the nearest one above it if `up`, the
/// nearest one below it if not, and `x` itself where it is such a multiple.
pub open spec fn grid_round(x: Fraction, up: bool) -> Fraction {
    let scaled = x.num * 0x100_0000;
    if up {
        lowest(-((-scaled) / x.den), 0x100_0000)
    } else {
        lowest(scaled / x.den, 0x100_0000)
    }
}

/// The binary32 value that the conversion of `num` gives for a fraction.
pub open spec fn to_binary32(x: Fraction) -> Binary32 {
    Binary32 { bits: converted_binary32(x.num, x.den).unwrap() }
}

/// Quotient and remainder of the rational strategy for finite `n0` and
/// nonzero finite `d0`: the Euclidean quotient and remainder of the exact
/// values, converted to binary32. In exact mode each is first rounded onto
/// the grid, upwards for a negative denominator and downwards otherwise.
pub open spec fn rational_divmod(n0: Binary32, d0: Binary32, exact: bool) -> (Binary32, Binary32) {
    let n = exact_value(n0);
    let d = exact_value(d0);
    let q = Fraction { num: euclid_quotient(n, d), den: 1 };
    let r = euclid_remainder(n, d);
    if exact {
        (to_binary32(grid_round(q, d.num < 0)), to_binary32(grid_round(r, d.num < 0)))
    } else {
        (to_binary32(q), to_binary32(r))
    }
}

proof fn lemma_mul_distributes_sub(x: int, y: int, z: int)
    ensures
        (x - y) * z == x * z - y * z,
{
    assert((x - y) * z == x * z - y * z) by (nonlinear_arith);
}

proof fn lemma_mul_distributes_add(x: int, y: int, z: int)
    ensures
        (x + y) * z == x * z + y * z,
{
    assert((x + y) * z == x * z + y * z) by (nonlinear_arith);
}

/// Swaps the second factors of two products that are multiplied.
proof fn lemma_rearrange(a: int, b: int, c: int, d: int)
    ensures
        (a * b) * (c * d) == (a * d) * (c * b),
{
    assert((a * b) * (c * d) == (a * d) * (c * b)) by (nonlinear_arith);
}

/// Fractions of equal value with positive denominators have the same floor.
proof fn lemma_floor_same_value(a: int, b: int, c: int, d: int)
    requires
        b > 0,
        d > 0,
        a * d == c * b,
    ensures
        a / b == c / d,
{
    lemma_euclid_division(c, d);
    let f = c / d;
    let r = c % d;
    let r1 = a - b * f;
    assert(r1 * d == b * r) by (nonlinear_arith)
        requires
            r1 == a - b * f,
            a * d == c * b,
            c == d * f + r,
    ;
    assert(0 <= r1 < b) by (nonlinear_arith)
        requires
            r1 * d == b * r,
            0 <= r < d,
            b > 0,
    ;
    lemma_euclid_division_unique(a, b, f, r1);
}

/// Negating the divisor negates the Euclidean quotient.
proof fn lemma_quotient_of_negated(x: int, d: int)
    requires
        d != 0,
    ensures
        x / d == -(x / (-d)),
        x % d == x % (-d),
{
    lemma_euclid_division(x, -d);
    let f = x / (-d);
    let r = x % (-d);
    assert(x == d * (-f) + r) by (nonlinear_arith)
        requires
            x == (-d) * f + r,
    ;
    lemma_euclid_division_unique(x, d, -f, r);
}

/// The exact value of a finite pattern as a ratio of big integers.
pub fn exact_rational(x: Binary32) -> (r: BigRational)
    requires
        x.is_finite(),
    ensures
        fraction_of(r) == exact_value(x),
        ratio_denom(r) > 0,
{
    let sign = x.sign();
    let stored = x.exponent();
    let fraction = x.fraction();
    let magnitude: i64 = if stored == 0 {
        fraction as i64
    } else {
        fraction as i64 + 0x80_0000
    };
    let significand: i64 = if sign == 0 {
        magnitude
    } else {
        -magnitude
    };
    let scale: i64 = if stored == 0 {
        -149
    } else {
        stored as i64 - 150
    };
    proof {
        lemma2_to64();
        lemma_pow2_pos(positive_part(-x.scale()));
        lemma_lowest(
            x.significand() * pow2(positive_part(x.scale())),
            pow2(positive_part(-x.scale())) as int,
        );
    }
    let numer = bigint_from_i64(significand);
    if scale < 0 {
        let one = bigint_from_i64(1);
        let denom = bigint_shl(one, (-scale) as usize);
        assert(x.significand() * pow2(0) == x.significand());
        assert(1 * pow2((-scale) as nat) == pow2((-scale) as nat));
        ratio_new(numer, denom)
    } else {
        proof {
            lemma_integer_is_lowest(x.significand() * pow2(scale as nat));
        }
        ratio_from_integer(bigint_shl(numer, scale as usize))
    }
}

/// The Euclidean quotient and remainder of two ratios, the divisor not zero.
pub fn euclid_divmod(n: &BigRational, d: &BigRational) -> (res: (BigRational, BigRational))
    requires
        ratio_denom(*n) > 0,
        ratio_denom(*d) > 0,
        ratio_numer(*d) != 0,
    ensures
        fraction_of(res.0) == (Fraction {
            num: euclid_quotient(fraction_of(*n), fraction_of(*d)),
            den: 1,
        }),
        fraction_of(res.1) == euclid_remainder(fraction_of(*n), fraction_of(*d)),
{
    let ghost nf = fraction_of(*n);
    let ghost df = fraction_of(*d);
    let ghost p = nf.num * df.den;
    let ghost k = nf.den * df.num;
    let q = ratio_div(n, d);
    let zero = ratio_zero();
    proof {
        assert(k != 0) by (nonlinear_arith)
            requires
                k == nf.den * df.num,
                nf.den > 0,
                df.num != 0,
        ;
        assert((k < 0) == (df.num < 0)) by (nonlinear_arith)
            requires
                k == nf.den * df.num,
                nf.den > 0,
        ;
        lemma_lowest(p, k);
    }
    let ghost x = fraction_of(q);
    let q = if ratio_lt(d, &zero) {
        proof {
            assert((-x.num) * (-k) == p * x.den) by (nonlinear_arith)
                requires
                    x.num * k == p * x.den,
            ;
            lemma_floor_same_value(-x.num, x.den, p, -k);
            lemma_quotient_of_negated(p, k);
        }
        ratio_ceil(&q)
    } else {
        proof {
            lemma_floor_same_value(x.num, x.den, p, k);
        }
        ratio_floor(&q)
    };
    // The rounded quotient is an integer: its denominator is one.
    assert(ratio_numer(q) == p / k && ratio_denom(q) == 1);
    let qd = ratio_mul(&q, d);
    proof {
        lemma_remainder_value(nf, df, fraction_of(qd));
    }
    let r = ratio_sub(n, &qd);
    (q, r)
}

/// Subtracting the quotient times the divisor from the dividend leaves the
/// Euclidean remainder: `m` is that product in lowest terms.
proof fn lemma_remainder_value(n: Fraction, d: Fraction, m: Fraction)
    requires
        n.den > 0,
        d.den > 0,
        d.num != 0,
        m == lowest(euclid_quotient(n, d) * d.num, 1 * d.den),
    ensures
        m.den > 0,
        lowest(n.num * m.den - m.num * n.den, n.den * m.den) == euclid_remainder(n, d),
{
    let q = euclid_quotient(n, d);
    let p = n.num * d.den;
    let k = n.den * d.num;
    assert(k != 0) by (nonlinear_arith)
        requires
            k == n.den * d.num,
            n.den > 0,
            d.num != 0,
    ;
    lemma_euclid_division(p, k);
    lemma_lowest(q * d.num, 1 * d.den);
    let rem = p % k;
    let n1 = n.num * m.den - m.num * n.den;
    let d1 = n.den * m.den;
    let d2 = n.den * d.den;
    assert(m.num * d.den == (q * d.num) * m.den);
    lemma_mul_distributes_sub(n.num * m.den, m.num * n.den, d2);
    lemma_rearrange(n.num, m.den, n.den, d.den);
    lemma_rearrange(m.num, n.den, n.den, d.den);
    assert(n1 * d2 == p * d1 - (m.num * d.den) * (n.den * n.den));
    assert(((q * d.num) * m.den) * (n.den * n.den) == ((n.den * d.num) * q) * (n.den * m.den))
        by (nonlinear_arith);
    lemma_mul_distributes_sub(p, k * q, d1);
    assert(rem == p - k * q);
    assert(n1 * d2 == rem * d1);
    assert(d1 > 0 && d2 > 0) by (nonlinear_arith)
        requires
            d1 == n.den * m.den,
            d2 == n.den * d.den,
            n.den > 0,
            m.den > 0,
            d.den > 0,
    ;
    lemma_lowest_same_value(n1, d1, rem, d2);
}

/// The quotient times the divisor, plus the remainder, is the dividend:
/// exactly, as fractions.
pub proof fn lemma_euclid_reconstructs(n: Fraction, d: Fraction)
    requires
        n.den > 0,
        d.den > 0,
        d.num != 0,
    ensures
        ({
            let q = euclid_quotient(n, d);
            let r = euclid_remainder(n, d);
            (q * d.num * r.den + r.num * d.den) * n.den == n.num * (d.den * r.den)
        }),
{
    let q = euclid_quotient(n, d);
    let r = euclid_remainder(n, d);
    let p = n.num * d.den;
    let k = n.den * d.num;
    let d2 = n.den * d.den;
    assert(k != 0 && d2 > 0) by (nonlinear_arith)
        requires
            k == n.den * d.num,
            d2 == n.den * d.den,
            n.den > 0,
            d.den > 0,
            d.num != 0,
    ;
    lemma_euclid_division(p, k);
    lemma_lowest(p % k, d2);
    let rem = p % k;
    let lhs = (q * d.num * r.den + r.num * d.den) * n.den;
    let rhs = n.num * (d.den * r.den);
    let w = r.den * d.den;
    let x = q * d.num * r.den;
    let y = r.num * d.den;
    // lhs * d.den == (k * q) * w + (r.num * d2) * d.den
    lemma_mul_distributes_add(x, y, n.den);
    lemma_mul_distributes_add(x * n.den, y * n.den, d.den);
    assert((y * n.den) * d.den == (r.num * d2) * d.den) by (nonlinear_arith)
        requires
            y == r.num * d.den,
            d2 == n.den * d.den,
    ;
    assert((x * n.den) * d.den == (k * q) * w) by (nonlinear_arith)
        requires
            x == q * d.num * r.den,
            k == n.den * d.num,
            w == r.den * d.den,
    ;
    // (r.num * d2) * d.den == rem * w
    assert((rem * r.den) * d.den == rem * w) by (nonlinear_arith)
        requires
            w == r.den * d.den,
    ;
    lemma_mul_distributes_add(k * q, rem, w);
    assert(rhs * d.den == p * w) by (nonlinear_arith)
        requires
            rhs == n.num * (d.den * r.den),
            p == n.num * d.den,
            w == r.den * d.den,
    ;
    assert(lhs * d.den == rhs * d.den);
    lemma_cancel(lhs, rhs, d.den);
}

/// The remainder is at least zero and below the magnitude of the divisor.
pub proof fn lemma_euclid_remainder_in_range(n: Fraction, d: Fraction)
    requires
        n.den > 0,
        d.den > 0,
        d.num != 0,
    ensures
        ({
            let r = euclid_remainder(n, d);
            &&& r.den > 0
            &&& 0 <= r.num
            &&& r.num * d.den < abs(d.num) * r.den
        }),
{
    let r = euclid_remainder(n, d);
    let p = n.num * d.den;
    let k = n.den * d.num;
    let d2 = n.den * d.den;
    let a = abs(d.num) as int;
    assert(k != 0 && d2 > 0 && abs(k) == n.den * a) by (nonlinear_arith)
        requires
            k == n.den * d.num,
            d2 == n.den * d.den,
            n.den > 0,
            d.den > 0,
            d.num != 0,
            a == d.num || a == -d.num,
            a > 0,
    ;
    lemma_euclid_division(p, k);
    lemma_lowest(p % k, d2);
    let rem = p % k;
    assert(0 <= r.num) by (nonlinear_arith)
        requires
            r.num * d2 == rem * r.den,
            d2 > 0,
            r.den > 0,
            0 <= rem,
    ;
    assert(r.num * d.den < a * r.den) by (nonlinear_arith)
        requires
            r.num * d2 == rem * r.den,
            d2 == n.den * d.den,
            rem < n.den * a,
            n.den > 0,
            r.den > 0,
    {
        assert((r.num * d.den) * n.den == rem * r.den);
        assert(rem * r.den < (n.den * a) * r.den);
        assert((n.den * a) * r.den == (a * r.den) * n.den);
    }
}

/// Rounding onto the grid leaves what lies on it alone: a fraction in lowest
/// terms that is a multiple of 2^-24 comes back as it is, in either
/// direction. Every integer is such a fraction, so the quotient is never
/// moved.
pub proof fn lemma_grid_round_fixed(x: Fraction, up: bool)
    requires
        x.is_lowest(),
        (x.num * 0x100_0000) % x.den == 0,
    ensures
        grid_round(x, up) == x,
{
    let s = x.num * 0x100_0000;
    let k = s / x.den;
    lemma_euclid_division(s, x.den);
    assert(-s == x.den * (-k) + 0) by (nonlinear_arith)
        requires
            s == x.den * k,
    ;
    lemma_euclid_division_unique(-s, x.den, -k, 0);
    assert(k * x.den == x.num * 0x100_0000) by (nonlinear_arith)
        requires
            s == x.den * k,
            s == x.num * 0x100_0000,
    ;
    lemma_lowest_same_value(k, 0x100_0000, x.num, x.den);
    lemma_lowest_fixed(x);
}

/// Rounds a ratio onto the grid of multiples of 2^-24.
pub fn to_grid(x: &BigRational, up: bool) -> (r: BigRational)
    requires
        ratio_denom(*x) > 0,
    ensures
        fraction_of(r) == grid_round(fraction_of(*x), up),
        ratio_denom(r) > 0,
{
    let ghost xf = fraction_of(*x);
    assert(1i64 << 24u32 == 0x100_0000) by (bit_vector);
    let unit: i64 = 1i64 << GRID_BITS;
    let frac = ratio_from_integer(bigint_from_i64(unit));
    let scaled = ratio_mul(x, &frac);
    let ghost s = fraction_of(scaled);
    proof {
        lemma_lowest(xf.num * 0x100_0000, xf.den * 1);
    }
    let rounded = if up {
        proof {
            assert((-s.num) * xf.den == (-(xf.num * 0x100_0000)) * s.den) by (nonlinear_arith)
                requires
                    s.num * xf.den == (xf.num * 0x100_0000) * s.den,
            ;
            lemma_floor_same_value(-s.num, s.den, -(xf.num * 0x100_0000), xf.den);
        }
        ratio_ceil(&scaled)
    } else {
        proof {
            lemma_floor_same_value(s.num, s.den, xf.num * 0x100_0000, xf.den);
        }
        ratio_floor(&scaled)
    };
    let r = ratio_div(&rounded, &frac);
    proof {
        lemma_lowest(ratio_numer(rounded), 0x100_0000);
    }
    r
}

/// Converts a ratio to binary32 as `num` does.
fn round_to_binary32(x: &BigRational) -> (r: Binary32)
    requires
        ratio_denom(*x) > 0,
    ensures
        r == to_binary32(fraction_of(*x)),
{
    Binary32 { bits: ratio_to_binary32(x).unwrap() }
}

/// Euclidean division and remainder of `n0` by `d0` through exact fractions.
///
/// In exact mode the results are rounded onto the grid of multiples of 2^-24
/// before they are converted, in the direction that the quotient was rounded
/// in; otherwise they are converted as they are.
pub fn divmod_euclid_rational(n0: Binary32, d0: Binary32, exact: bool) -> (res: (
    Binary32,
    Binary32,
))
    requires
        n0.is_finite(),
        d0.is_finite(),
        !d0.is_zero(),
    ensures
        res == rational_divmod(n0, d0, exact),
{
    let n = exact_rational(n0);
    let d = exact_rational(d0);
    proof {
        lemma_exact_value_zero(d0);
    }
    let (q, r) = euclid_divmod(&n, &d);
    proof {
        lemma_euclid_remainder_in_range(fraction_of(n), fraction_of(d));
    }
    if exact {
        let up = ratio_lt(&d, &ratio_zero());
        let q = to_grid(&q, up);
        let r = to_grid(&r, up);
        (round_to_binary32(&q), round_to_binary32(&r))
    } else {
        // This may not produce the exact answer: the conversion rounds, on
        // its way through a double. Still, good enough in most situations.
        (round_to_binary32(&q), round_to_binary32(&r))
    }
}

/// The exact value of a finite pattern is zero for the two zeros alone, and
/// negative exactly when the pattern is a negative number.
pub proof fn lemma_exact_value_zero(x: Binary32)
    requires
        x.is_finite(),
    ensures
        exact_value(x).den > 0,
        exact_value(x).num == 0 <==> x.is_zero(),
        exact_value(x).num < 0 <==> x.significand() < 0,
{
    let m = x.significand() * pow2(positive_part(x.scale()));
    let s = pow2(positive_part(-x.scale())) as int;
    let v = exact_value(x);
    lemma_pow2_pos(positive_part(x.scale()));
    lemma_pow2_pos(positive_part(-x.scale()));
    lemma_lowest(m, s);
    let w = pow2(positive_part(x.scale())) as int;
    let g = x.significand();
    assert((m == 0 <==> g == 0) && (m < 0 <==> g < 0)) by (nonlinear_arith)
        requires
            m == g * w,
            w > 0,
    ;
    assert((v.num == 0 <==> m == 0) && (v.num < 0 <==> m < 0)) by (nonlinear_arith)
        requires
            v.num * s == m * v.den,
            s > 0,
            v.den > 0,
    ;
}

/// The rational strategy without grid rounding.
pub fn divmod_euclid_exactish(n0: Binary32, d0: Binary32) -> (res: (Binary32, Binary32))
    requires
        n0.is_finite(),
        d0.is_finite(),
        !d0.is_zero(),
    ensures
        res == rational_divmod(n0, d0, false),
{
    divmod_euclid_rational(n0, d0, false)
}

/// The rational strategy with grid rounding.
pub fn divmod_euclid_exact(n0: Binary32, d0: Binary32) -> (res: (Binary32, Binary32))
    requires
        n0.is_finite(),
        d0.is_finite(),
        !d0.is_zero(),
    ensures
        res == rational_divmod(n0, d0, true),
{
    divmod_euclid_rational(n0, d0, true)
}

} // verus!

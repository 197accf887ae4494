//! Fractions of mathematical integers, and their lowest terms.
//!
//! The exact value of every finite floating-point number is a fraction, and
//! so is everything the rational strategies compute from it. A fraction in
//! lowest terms with a positive denominator stands for its value alone: two
//! such fractions of equal value are the same fraction.
use vstd::prelude::*;
use vstd::arithmetic::div_mod::{lemma_fundamental_div_mod, lemma_mod_multiples_basic};

verus! {

/// The absolute value of an integer.
pub open spec fn abs(x: int) -> nat {
    if x < 0 {
        (-x) as nat
    } else {
        x as nat
    }
}

/// The greatest common divisor of two naturals, `gcd(0, 0)` being 0.
pub open spec fn gcd(a: nat, b: nat) -> nat
    decreases b,
{
    if b == 0 {
        a
    } else {
        gcd(b, a % b)
    }
}

/// A numerator over a denominator.
pub struct Fraction {
    pub num: int,
    pub den: int,
}

impl Fraction {
    /// Lowest terms: a positive denominator that shares no factor with the
    /// numerator.
    pub open spec fn is_lowest(self) -> bool {
        self.den > 0 && gcd(abs(self.num), abs(self.den)) == 1
    }

    /// Equal in value: the cross products agree.
    pub open spec fn same_value(self, other: Fraction) -> bool {
        self.num * other.den == other.num * self.den
    }
}

/// The fraction `n / d` in lowest terms, for `d != 0`.
pub open spec fn lowest(n: int, d: int) -> Fraction {
    let g = gcd(abs(n), abs(d)) as int;
    if d > 0 {
        Fraction { num: n / g, den: d / g }
    } else {
        Fraction { num: (-n) / g, den: (-d) / g }
    }
}

/// Coefficients `(x, y)` with `a * x + b * y == gcd(a, b)`.
pub open spec fn bezout(a: nat, b: nat) -> (int, int)
    decreases b,
{
    if b == 0 {
        (1, 0)
    } else {
        let (x, y) = bezout(b, a % b);
        (y, x - (a / b) * y)
    }
}

pub proof fn lemma_gcd_positive(a: nat, b: nat)
    requires
        a > 0 || b > 0,
    ensures
        gcd(a, b) > 0,
    decreases b,
{
    if b != 0 {
        lemma_gcd_positive(b, a % b);
    }
}

/// A multiple of `g` leaves no remainder, and is `g` times its quotient.
proof fn lemma_multiple(x: int, g: int, k: int)
    requires
        g > 0,
        x == g * k,
    ensures
        x % g == 0,
        x / g == k,
{
    lemma_mod_multiples_basic(k, g);
    assert(k * g == g * k) by (nonlinear_arith);
    lemma_fundamental_div_mod(x, g);
    assert(k == x / g) by (nonlinear_arith)
        requires
            g > 0,
            x == g * k,
            x == g * (x / g),
    ;
}

/// What leaves no remainder is `g` times its quotient.
proof fn lemma_exact_division(x: int, g: int)
    requires
        g > 0,
        x % g == 0,
    ensures
        x == g * (x / g),
{
    lemma_fundamental_div_mod(x, g);
}

pub proof fn lemma_gcd_divides(a: nat, b: nat)
    requires
        a > 0 || b > 0,
    ensures
        gcd(a, b) > 0,
        a % gcd(a, b) == 0,
        b % gcd(a, b) == 0,
    decreases b,
{
    lemma_gcd_positive(a, b);
    let g = gcd(a, b) as int;
    if b == 0 {
        lemma_multiple(a as int, g, 1);
        lemma_multiple(0, g, 0);
    } else {
        lemma_gcd_divides(b, a % b);
        let r = (a % b) as int;
        let q = (a / b) as int;
        lemma_exact_division(b as int, g);
        lemma_exact_division(r, g);
        lemma_fundamental_div_mod(a as int, b as int);
        let kb = b as int / g;
        let kr = r / g;
        assert(a == g * (kb * q + kr)) by (nonlinear_arith)
            requires
                a == b * q + r,
                b == g * kb,
                r == g * kr,
        ;
        lemma_multiple(a as int, g, kb * q + kr);
    }
}

pub proof fn lemma_bezout(a: nat, b: nat)
    ensures
        a * bezout(a, b).0 + b * bezout(a, b).1 == gcd(a, b),
    decreases b,
{
    if b != 0 {
        lemma_bezout(b, a % b);
        let (x, y) = bezout(b, a % b);
        let q = (a / b) as int;
        let r = (a % b) as int;
        lemma_fundamental_div_mod(a as int, b as int);
        assert(a * y + b * (x - q * y) == b * x + r * y) by (nonlinear_arith)
            requires
                a == b * q + r,
        ;
    }
}

/// A number coprime to `b` can be cancelled from a multiple of `b`.
pub proof fn lemma_coprime_cancels(a: nat, b: nat, c: int)
    requires
        b > 0,
        gcd(a, b) == 1,
        (a * c) % (b as int) == 0,
    ensures
        c % (b as int) == 0,
{
    lemma_bezout(a, b);
    let (x, y) = bezout(a, b);
    lemma_exact_division(a * c, b as int);
    let k = (a * c) / (b as int);
    assert(c == b * (k * x + c * y)) by (nonlinear_arith)
        requires
            a * x + b * y == 1,
            a * c == b * k,
    ;
    lemma_multiple(c, b as int, k * x + c * y);
}

/// Dividing two numbers by their greatest common divisor leaves them coprime.
pub proof fn lemma_quotients_coprime(a: nat, b: nat)
    requires
        a > 0 || b > 0,
    ensures
        gcd(a / gcd(a, b), b / gcd(a, b)) == 1,
{
    lemma_gcd_divides(a, b);
    lemma_bezout(a, b);
    let g = gcd(a, b) as int;
    let (x, y) = bezout(a, b);
    lemma_exact_division(a as int, g);
    lemma_exact_division(b as int, g);
    let a1 = a / gcd(a, b);
    let b1 = b / gcd(a, b);
    assert(a1 * x + b1 * y == 1) by (nonlinear_arith)
        requires
            g > 0,
            a == g * a1,
            b == g * b1,
            a * x + b * y == g,
    ;
    assert(a1 > 0 || b1 > 0) by (nonlinear_arith)
        requires
            a > 0 || b > 0,
            a == g * a1,
            b == g * b1,
    ;
    lemma_gcd_divides(a1, b1);
    let h = gcd(a1, b1) as int;
    lemma_exact_division(a1 as int, h);
    lemma_exact_division(b1 as int, h);
    let a2 = a1 as int / h;
    let b2 = b1 as int / h;
    assert(h == 1) by (nonlinear_arith)
        requires
            h > 0,
            a1 == h * a2,
            b1 == h * b2,
            a1 * x + b1 * y == 1,
    {
        assert(h * (a2 * x + b2 * y) == 1);
    }
}

/// The lowest terms of a fraction are in lowest terms, and of its value.
pub proof fn lemma_lowest(n: int, d: int)
    requires
        d != 0,
    ensures
        lowest(n, d).is_lowest(),
        lowest(n, d).same_value(Fraction { num: n, den: d }),
{
    let a = abs(n);
    let b = abs(d);
    lemma_gcd_divides(a, b);
    lemma_quotients_coprime(a, b);
    let g = gcd(a, b) as int;
    lemma_exact_division(a as int, g);
    lemma_exact_division(b as int, g);
    let a1 = a as int / g;
    let b1 = b as int / g;
    assert(a1 >= 0 && b1 > 0) by (nonlinear_arith)
        requires
            g > 0,
            a == g * a1,
            b == g * b1,
            b > 0,
    ;
    let sn = if d > 0 {
        n
    } else {
        -n
    };
    // The numerator carries the sign of the value; the denominator is |d| / g.
    if sn >= 0 {
        lemma_multiple(sn, g, a1);
    } else {
        assert(sn == g * (-a1)) by (nonlinear_arith)
            requires
                -sn == g * a1,
        ;
        lemma_multiple(sn, g, -a1);
    }
    let f = lowest(n, d);
    assert(f.den == b1);
    assert(abs(f.num) == a1);
    assert(f.num * d == n * f.den) by (nonlinear_arith)
        requires
            sn == g * f.num,
            b == g * f.den,
            (d > 0 && sn == n && b == d) || (d < 0 && sn == -n && b == -d),
    ;
}

/// One positive number that divides another is no larger.
proof fn lemma_divisor_bound(x: int, y: int)
    requires
        x > 0,
        y > 0,
        y % x == 0,
    ensures
        x <= y,
{
    lemma_exact_division(y, x);
    assert(x <= y) by (nonlinear_arith)
        requires
            x > 0,
            y > 0,
            y == x * (y / x),
    ;
}

/// In a pair of equal-valued fractions, the denominator of one in lowest
/// terms divides the denominator of the other.
proof fn lemma_lowest_denominator_divides(p: Fraction, q: Fraction)
    requires
        p.is_lowest(),
        q.den > 0,
        p.same_value(q),
    ensures
        q.den % p.den == 0,
{
    let a = abs(p.num);
    if p.num >= 0 {
        assert(a * q.den == p.den * q.num) by (nonlinear_arith)
            requires
                a == p.num,
                p.num * q.den == q.num * p.den,
        ;
        lemma_multiple(a * q.den, p.den, q.num);
    } else {
        assert(a * q.den == p.den * (-q.num)) by (nonlinear_arith)
            requires
                a == -p.num,
                p.num * q.den == q.num * p.den,
        ;
        lemma_multiple(a * q.den, p.den, -q.num);
    }
    lemma_coprime_cancels(a, p.den as nat, q.den);
}

/// Two fractions in lowest terms that are equal in value are the same.
pub proof fn lemma_lowest_unique(p: Fraction, q: Fraction)
    requires
        p.is_lowest(),
        q.is_lowest(),
        p.same_value(q),
    ensures
        p == q,
{
    lemma_lowest_denominator_divides(p, q);
    lemma_lowest_denominator_divides(q, p);
    lemma_divisor_bound(p.den, q.den);
    lemma_divisor_bound(q.den, p.den);
    assert(p.num == q.num) by (nonlinear_arith)
        requires
            p.den > 0,
            p.den == q.den,
            p.num * q.den == q.num * p.den,
    ;
}

/// A nonzero factor can be cancelled from both sides of an equation.
pub proof fn lemma_cancel(x: int, y: int, k: int)
    requires
        k != 0,
        x * k == y * k,
    ensures
        x == y,
{
    assert((x - y) * k == 0) by (nonlinear_arith)
        requires
            x * k == y * k,
    ;
    assert(x - y == 0) by (nonlinear_arith)
        requires
            (x - y) * k == 0,
            k != 0,
    ;
}

/// Fractions of equal value have the same lowest terms.
pub proof fn lemma_lowest_same_value(n1: int, d1: int, n2: int, d2: int)
    requires
        d1 != 0,
        d2 != 0,
        n1 * d2 == n2 * d1,
    ensures
        lowest(n1, d1) == lowest(n2, d2),
{
    lemma_lowest(n1, d1);
    lemma_lowest(n2, d2);
    let p = lowest(n1, d1);
    let q = lowest(n2, d2);
    let k = d1 * d2;
    let m = p.den * q.den;
    assert((p.num * q.den) * k == (p.num * d1) * (q.den * d2)) by (nonlinear_arith)
        requires
            k == d1 * d2,
    ;
    assert((n1 * p.den) * (q.den * d2) == (n1 * d2) * m) by (nonlinear_arith)
        requires
            m == p.den * q.den,
    ;
    assert((q.num * p.den) * k == (q.num * d2) * (p.den * d1)) by (nonlinear_arith)
        requires
            k == d1 * d2,
    ;
    assert((n2 * q.den) * (p.den * d1) == (n2 * d1) * m) by (nonlinear_arith)
        requires
            m == p.den * q.den,
    ;
    assert(k != 0) by (nonlinear_arith)
        requires
            k == d1 * d2,
            d1 != 0,
            d2 != 0,
    ;
    lemma_cancel(p.num * q.den, q.num * p.den, k);
    lemma_lowest_unique(p, q);
}

/// A fraction in lowest terms is its own lowest terms.
pub proof fn lemma_lowest_fixed(f: Fraction)
    requires
        f.is_lowest(),
    ensures
        lowest(f.num, f.den) == f,
{
    lemma_lowest(f.num, f.den);
    lemma_lowest_unique(lowest(f.num, f.den), f);
}

/// An integer over one is in lowest terms.
pub proof fn lemma_integer_is_lowest(n: int)
    ensures
        (Fraction { num: n, den: 1 }).is_lowest(),
        lowest(n, 1) == (Fraction { num: n, den: 1 }),
{
    assert(gcd(abs(n), 1) == 1) by {
        reveal_with_fuel(gcd, 3);
    }
    lemma_lowest_fixed(Fraction { num: n, den: 1 });
}

/// Division of integers is Euclidean for divisors of either sign: the
/// remainder is never negative and stays below the magnitude of the divisor.
pub proof fn lemma_euclid_division(x: int, d: int)
    requires
        d != 0,
    ensures
        x == d * (x / d) + x % d,
        0 <= x % d < abs(d),
{
    assert(x == d * (x / d) + x % d && 0 <= x % d && (d > 0 ==> x % d < d) && (d < 0 ==> x % d
        < -d)) by (nonlinear_arith)
        requires
            d != 0,
    ;
}

/// The quotient and remainder of Euclidean division are the only pair that
/// reconstructs the dividend with a remainder in range.
pub proof fn lemma_euclid_division_unique(x: int, d: int, q: int, r: int)
    requires
        d != 0,
        x == d * q + r,
        0 <= r < abs(d),
    ensures
        q == x / d,
        r == x % d,
{
    lemma_euclid_division(x, d);
    let q0 = x / d;
    let r0 = x % d;
    let m = abs(d) as int;
    assert(d * (q - q0) == r0 - r) by (nonlinear_arith)
        requires
            x == d * q + r,
            x == d * q0 + r0,
    ;
    assert(q - q0 == 0) by (nonlinear_arith)
        requires
            d != 0,
            d * (q - q0) == r0 - r,
            -m < r0 - r < m,
            m == d || m == -d,
    ;
}

} // verus!

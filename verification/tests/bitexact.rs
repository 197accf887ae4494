use edm::binary32::Binary32;
use edm::bitexact::{divmod_euclid_prop, prop_is_defined};

fn b(x: f32) -> Binary32 {
    Binary32::new(x.to_bits())
}

fn pair(x: (Binary32, Binary32)) -> (f32, f32) {
    (f32::from_bits(x.0.bits), f32::from_bits(x.1.bits))
}

/// The steps written out on plain integers, with wrapping shifts, to hold
/// the library to.
fn by_hand(n0: f32, d0: f32) -> Option<(u32, u32)> {
    if d0 == 0.0 {
        if !n0.is_finite() {
            return None;
        }
        let q = if n0 == 0.0 {
            0x7fc0_0000
        } else {
            ((n0.to_bits() ^ d0.to_bits()) & 0x8000_0000) | 0x7f80_0000
        };
        return Some((q, 0));
    }
    let split = |x: f32| {
        let bits = x.to_bits();
        let e = ((bits >> 23) & 0xff) as i64;
        if e == 0 || e == 255 {
            return None;
        }
        Some(((bits >> 31) as u128, ((bits & 0x7f_ffff) | 0x80_0000) as u128, e - 127 + 1))
    };
    let (ns, nf, ne) = split(n0)?;
    let (ds, df, de) = split(d0)?;
    if 24 + ne < 0 || 24 + ne >= 128 || 24 + de < 0 || 24 + de >= 128 {
        return None;
    }
    let sign = (ns ^ ds) as u32;
    let nf = nf << (24 + ne);
    let df = df << (24 + de);
    if df == 0 {
        return None;
    }
    let qf = nf / df;
    let qz = qf.leading_zeros() as i64;
    if qz < 103 {
        return None;
    }
    let qa = qf << (qz - 103);
    let qe = 127 - qz;
    let rf = (nf - qf * df) >> 24;
    let rz = rf.leading_zeros() as i64;
    if rz < 103 {
        return None;
    }
    let ra = rf << (rz - 103);
    let re = 127 - rz - 24;
    let make = |f: u128, e: i64, s: u32| {
        if f == 0 {
            s << 31
        } else {
            (s << 31) | ((((e + 127) as u32) & 0xff) << 23) | (((f >> 1) as u32) & 0x7f_ffff)
        }
    };
    Some((make(qa, qe, sign), make(ra, re, 0)))
}

#[test]
fn bitexact_on_small_integers() {
    assert!(prop_is_defined(b(7.0), b(2.0)));
    assert_eq!(pair(divmod_euclid_prop(b(7.0), b(2.0))), (3.0, 1.0));
    assert_eq!(pair(divmod_euclid_prop(b(9.0), b(4.0))), (2.0, 1.0));
    assert_eq!(pair(divmod_euclid_prop(b(99.0), b(7.0))), (14.0, 1.0));
}

#[test]
fn bitexact_on_fractions() {
    assert_eq!(pair(divmod_euclid_prop(b(5.625), b(0.5))), (11.0, 0.125));
}

#[test]
fn bitexact_zero_remainder_is_zero() {
    assert_eq!(pair(divmod_euclid_prop(b(0.75), b(0.125))), (6.0, 0.0));
    assert_eq!(pair(divmod_euclid_prop(b(8.0), b(2.0))), (4.0, 0.0));
    let (q, r) = divmod_euclid_prop(b(1.0), b(1.0));
    assert_eq!((q.bits, r.bits), (1.0f32.to_bits(), 0));
    let (q, r) = divmod_euclid_prop(b(2.9802322e-8), b(2.9802322e-8));
    assert_eq!((q.bits, r.bits), (1.0f32.to_bits(), 0));
}

#[test]
fn bitexact_reconstructs_exactly_where_nothing_is_cut() {
    for (n, d) in [(1.0f32, 1.0f32), (7.0, 2.0), (99.0, 7.0), (5.625, 0.5), (1.0, 3.0)] {
        assert!(prop_is_defined(b(n), b(d)));
        let (q, r) = pair(divmod_euclid_prop(b(n), b(d)));
        assert_eq!(q * d + r, n, "{} {}", n, d);
        assert!(edm::range::in_range(b(r), b(d)), "{} {}", n, d);
    }
}

#[test]
fn bitexact_remainder_stays_in_range() {
    let samples = [
        7.0f32, -7.0, 2.0, 0.5, 0.1, -0.3, 1.0, 3.0, 1000.5, 16777215.0, 33554430.0, 6.5e-7,
        2.9802322e-8, 1.0e20, -3.0e25, 1.0e30, 5.0e30, 65536.0, 123456.79,
    ];
    let mut seen = 0;
    for n in samples {
        for d in samples {
            if prop_is_defined(b(n), b(d)) {
                let (_q, r) = divmod_euclid_prop(b(n), b(d));
                assert!(edm::range::in_range(r, b(d)), "{} {}", n, d);
                seen += 1;
            }
        }
    }
    assert!(seen > 50);
}

#[test]
fn bitexact_zero_denominator_convention() {
    for d in [0.0f32, -0.0] {
        for n in [1.0f32, -1.0, 7.5, -3.0e38, 1.0e-45, -1.0e-40] {
            assert!(prop_is_defined(b(n), b(d)));
            let (q, r) = divmod_euclid_prop(b(n), b(d));
            assert_eq!(q.bits, (n / d).to_bits(), "{} {}", n, d);
            assert_eq!(r.bits, 0, "{} {}", n, d);
        }
        for n in [0.0f32, -0.0] {
            assert!(prop_is_defined(b(n), b(d)));
            let (q, r) = pair(divmod_euclid_prop(b(n), b(d)));
            assert!(q.is_nan());
            assert_eq!(r.to_bits(), 0);
        }
        assert!(!prop_is_defined(b(f32::INFINITY), b(d)));
        assert!(!prop_is_defined(b(f32::NAN), b(d)));
    }
    let (q, r) = divmod_euclid_prop(b(1.0), b(0.0));
    assert_eq!((q.bits, r.bits), (0x7f80_0000, 0));
    let (q, r) = divmod_euclid_prop(b(1.0), b(-0.0));
    assert_eq!((q.bits, r.bits), (0xff80_0000, 0));
    let (q, r) = divmod_euclid_prop(b(0.0), b(0.0));
    assert_eq!((q.bits, r.bits), (0x7fc0_0000, 0));
}

#[test]
fn bitexact_sign_is_the_product_of_signs_and_remainder_positive() {
    // The quotient is not moved between floor and ceiling: a known limit.
    assert_eq!(pair(divmod_euclid_prop(b(-7.0), b(2.0))), (-3.0, 1.0));
    assert_eq!(pair(divmod_euclid_prop(b(7.0), b(-2.0))), (-3.0, 1.0));
    assert_eq!(pair(divmod_euclid_prop(b(-7.0), b(-2.0))), (3.0, 1.0));
}

#[test]
fn bitexact_zero_quotient_is_zero() {
    let (q, r) = divmod_euclid_prop(b(1.0), b(3.0));
    assert_eq!((q.bits, r.bits), (0, 1.0f32.to_bits()));
    // The sign of a zero quotient is that of the product of the operands.
    let (q, r) = divmod_euclid_prop(b(-1.0), b(3.0));
    assert_eq!((q.bits, r.bits), (0x8000_0000, 1.0f32.to_bits()));
}

#[test]
fn bitexact_is_undefined_outside_its_domain() {
    assert!(!prop_is_defined(b(0.0), b(1.0)));
    assert!(!prop_is_defined(b(1.0e-40), b(1.0)));
    assert!(!prop_is_defined(b(1.0), b(f32::INFINITY)));
    assert!(!prop_is_defined(b(f32::NAN), b(1.0)));
    // Exponents below -25 cannot be shifted into the working domain.
    assert!(!prop_is_defined(b(1.0e-8), b(1.0)));
    assert!(prop_is_defined(b(2.9802322e-8), b(1.0)));
    // A quotient of more than 25 bits cannot be aligned.
    assert!(!prop_is_defined(b(1.0e9), b(1.0)));
    // Nor can a remainder of two or more, which takes more than 25 bits in
    // units of 2^-24.
    assert!(!prop_is_defined(b(100.0), b(7.0)));
    assert!(prop_is_defined(b(99.0), b(7.0)));
    // 2^103 loses every bit of its significand but the divisor must keep one.
    assert!(!prop_is_defined(b(1.0), b(1.0141205e31)));
}

#[test]
fn bitexact_agrees_with_the_steps_by_hand() {
    let samples = [
        7.0f32, -7.0, 2.0, 0.5, 0.1, -0.3, 1.0, 3.0, 1000.5, 16777215.0, 33554430.0, 6.5e-7,
        2.9802322e-8, 1.0e20, -3.0e25, 1.0e30, 5.0e30, 0.0, 1.0e-40, 65536.0, 123456.79,
    ];
    let mut seen = 0;
    for n0 in samples {
        for d0 in samples {
            let want = by_hand(n0, d0);
            assert_eq!(prop_is_defined(b(n0), b(d0)), want.is_some(), "{} {}", n0, d0);
            if let Some((q, r)) = want {
                let got = divmod_euclid_prop(b(n0), b(d0));
                assert_eq!((got.0.bits, got.1.bits), (q, r), "{} {}", n0, d0);
                seen += 1;
            }
        }
    }
    assert!(seen > 50);
}

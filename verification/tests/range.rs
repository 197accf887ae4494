use edm::binary32::Binary32;
use edm::range::in_range;

fn b(x: f32) -> Binary32 {
    Binary32::new(x.to_bits())
}

#[test]
fn remainders_inside_the_range() {
    assert!(in_range(b(0.0), b(1.0)));
    assert!(in_range(b(-0.0), b(1.0)));
    assert!(in_range(b(1.0), b(2.0)));
    assert!(in_range(b(1.0), b(-2.0)));
    assert!(in_range(b(1.9999999), b(2.0)));
    assert!(in_range(b(1.0e-45), b(3.0e-45)));
    assert!(in_range(b(3.0e38), b(f32::INFINITY)));
    assert!(in_range(b(0.0), b(f32::NEG_INFINITY)));
}

#[test]
fn remainders_outside_the_range() {
    assert!(!in_range(b(2.0), b(2.0)));
    assert!(!in_range(b(2.0), b(-2.0)));
    assert!(!in_range(b(-1.0e-45), b(2.0)));
    assert!(!in_range(b(-1.0), b(2.0)));
    assert!(!in_range(b(3.0), b(2.0)));
    assert!(!in_range(b(0.0), b(0.0)));
    assert!(!in_range(b(0.0), b(-0.0)));
    assert!(!in_range(b(f32::INFINITY), b(f32::INFINITY)));
    assert!(!in_range(b(f32::NEG_INFINITY), b(1.0)));
}

#[test]
fn nan_on_either_side_is_out_of_range() {
    assert!(!in_range(b(f32::NAN), b(1.0)));
    assert!(!in_range(b(0.0), b(f32::NAN)));
    assert!(!in_range(b(f32::NAN), b(f32::NAN)));
    assert!(!in_range(Binary32::new(0xff80_0001), b(f32::INFINITY)));
}

#[test]
fn range_test_agrees_with_float_comparison() {
    let mut values = vec![
        0.0f32,
        -0.0,
        1.0,
        -1.0,
        f32::MIN_POSITIVE,
        -f32::MIN_POSITIVE,
        f32::MAX,
        f32::MIN,
        f32::INFINITY,
        f32::NEG_INFINITY,
        f32::NAN,
        1.0e-45,
        -1.0e-45,
        1.1754942e-38,
    ];
    let mut bits: u32 = 12345;
    for _ in 0..200 {
        bits = bits.wrapping_mul(1664525).wrapping_add(1013904223);
        values.push(f32::from_bits(bits));
    }
    for &r in &values {
        for &d in &values {
            let want = r >= 0.0 && r < d.abs();
            assert_eq!(in_range(b(r), b(d)), want, "{} {}", r, d);
        }
    }
}

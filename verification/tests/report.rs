use edm::binary32::Binary32;
use edm::report::{must_print, negate, runs};

fn b(x: f32) -> Binary32 {
    Binary32::new(x.to_bits())
}

#[test]
fn negation_is_the_negation_of_floats() {
    let values = [
        0.0f32,
        -0.0,
        1.5,
        -2.25,
        1.0e-45,
        f32::MAX,
        f32::INFINITY,
        f32::NEG_INFINITY,
    ];
    for x in values {
        assert_eq!(negate(b(x)).bits, (-x).to_bits(), "{}", x);
        assert_eq!(negate(negate(b(x))), b(x), "{}", x);
    }
    assert_eq!(negate(Binary32::new(0x7fc0_0001)).bits, 0xffc0_0001);
}

#[test]
fn a_plain_run_takes_the_operands_as_given() {
    assert_eq!(runs(b(7.0), b(2.0), false), vec![(b(7.0), b(2.0))]);
}

#[test]
fn an_all_signs_run_takes_the_four_sign_combinations() {
    assert_eq!(
        runs(b(7.0), b(-2.0), true),
        vec![
            (b(7.0), b(-2.0)),
            (b(-7.0), b(-2.0)),
            (b(7.0), b(2.0)),
            (b(-7.0), b(2.0)),
        ]
    );
}

#[test]
fn quiet_mode_is_silent_only_where_both_invariants_hold() {
    assert!(!must_print(true, true, true));
    assert!(must_print(true, false, true));
    assert!(must_print(true, true, false));
    assert!(must_print(true, false, false));
    for reconstructed in [false, true] {
        for in_range in [false, true] {
            assert!(must_print(false, reconstructed, in_range));
        }
    }
}

use edm::binary32::Binary32;
use edm::frame::{quotient_rounding, Rounding};

fn b(x: f32) -> Binary32 {
    Binary32::new(x.to_bits())
}

#[test]
fn positive_denominators_round_down() {
    assert_eq!(quotient_rounding(b(2.0)), Some(Rounding::Floor));
    assert_eq!(quotient_rounding(b(f32::MIN_POSITIVE)), Some(Rounding::Floor));
    assert_eq!(quotient_rounding(b(1e-45)), Some(Rounding::Floor));
    assert_eq!(quotient_rounding(b(f32::INFINITY)), Some(Rounding::Floor));
}

#[test]
fn negative_denominators_round_up() {
    assert_eq!(quotient_rounding(b(-2.0)), Some(Rounding::Ceil));
    assert_eq!(quotient_rounding(b(-1e-45)), Some(Rounding::Ceil));
    assert_eq!(quotient_rounding(b(f32::NEG_INFINITY)), Some(Rounding::Ceil));
}

#[test]
fn zero_denominators_of_both_signs_set_no_frame() {
    assert_eq!(quotient_rounding(b(0.0)), None);
    assert_eq!(quotient_rounding(b(-0.0)), None);
}

#[test]
fn nan_denominators_set_no_frame() {
    assert_eq!(quotient_rounding(b(f32::NAN)), None);
    assert_eq!(quotient_rounding(Binary32::new(0xffc0_0001)), None);
}

#[test]
fn frame_agrees_with_float_comparison() {
    let values = [
        0.0f32, -0.0, 1.0, -1.0, 1e-45, -1e-45, 3.0e38, -3.0e38, f32::INFINITY,
        f32::NEG_INFINITY, f32::NAN,
    ];
    for d in values {
        let expected = if d > 0.0 {
            Some(Rounding::Floor)
        } else if d < 0.0 {
            Some(Rounding::Ceil)
        } else {
            None
        };
        assert_eq!(quotient_rounding(b(d)), expected, "{}", d);
    }
}

use edm::binary32::Binary32;
use edm::float_utils::{DisplayFloat, FloatBits, Floaty};

#[test]
fn float_utils_test_float_rep_f32() {
    let try_real = |x: f32, fb: FloatBits, r: &str| {
        let b = Binary32::new(x.to_bits());
        assert_eq!(b.float_bits(), fb, "{}", x);
        assert_eq!(&DisplayFloat(b).to_string(), r, "{}", x);
    };

    try_real(
        1.0,
        FloatBits::Value(1 << 23, 0),
        "+1.00000000000000000000000b+0",
    );
    try_real(
        -0.5,
        FloatBits::Value(0b11 << 23, -1),
        "-1.00000000000000000000000b-1",
    );
    try_real(
        -0.0,
        FloatBits::Denorm(1 << 24),
        "-0.00000000000000000000000b-127",
    );
    try_real(-1.0 / 0.0, FloatBits::Inf(1), "-∞");

    let x: f32 = -0.0 / 0.0;
    let b = Binary32::new(x.to_bits());
    assert!(matches!(b.float_bits(), FloatBits::Nan(_)));
    assert_eq!("NaN", &DisplayFloat(b).to_string());
}

use edm::binary32::Binary32;
use edm::float_rep::{FloatBits, FloatRep};

#[test]
fn float_rep_test_float_rep_f32() {
    let try_real = |x: f32| match Binary32::new(x.to_bits()).float_bits() {
        FloatBits::Value(f, e) => (f, e),
        v => panic!("float {} not real: {:?}", x, v),
    };

    let r = try_real(1.0);
    assert_eq!(r, (1 << 23, 0));
}

#[test]
fn plain_decomposition_folds_sign_and_leading_bit() {
    let b = Binary32::new((-0.5f32).to_bits());
    assert_eq!(b.float_bits(), FloatBits::Value(0b11 << 23, -1));
    assert_eq!(b.prec(), (24, 8));
}

#[test]
fn plain_decomposition_reads_every_pattern_as_a_number() {
    let zero = Binary32::new(0);
    assert_eq!(zero.float_bits(), FloatBits::Value(1 << 23, -127));
    let inf = Binary32::new(f32::INFINITY.to_bits());
    assert_eq!(inf.float_bits(), FloatBits::Value(1 << 23, 128));
}

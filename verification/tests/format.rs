use edm::binary32::Binary32;
use edm::float_utils::{DisplayFloat, FloatBits, Floaty};

fn show(x: f32) -> String {
    DisplayFloat(Binary32::new(x.to_bits())).to_string()
}

#[test]
fn numbers_in_binary_scientific_notation() {
    assert_eq!(show(1.0), "+1.00000000000000000000000b+0");
    assert_eq!(show(-0.5), "-1.00000000000000000000000b-1");
    assert_eq!(show(1.5), "+1.10000000000000000000000b+0");
    assert_eq!(show(-6.0), "-1.10000000000000000000000b+2");
    assert_eq!(show(0.1), "+1.10011001100110011001101b-4");
    assert_eq!(show(f32::MAX), "+1.11111111111111111111111b+127");
    assert_eq!(show(f32::MIN_POSITIVE), "+1.00000000000000000000000b-126");
    assert_eq!(show(1.2676506e30), "+1.00000000000000000000000b+100");
}

#[test]
fn denormals_have_leading_zero_and_fixed_exponent() {
    assert_eq!(show(0.0), "+0.00000000000000000000000b-127");
    assert_eq!(show(-0.0), "-0.00000000000000000000000b-127");
    assert_eq!(show(1.0e-45), "+0.00000000000000000000001b-127");
    assert_eq!(show(-5.877472e-39), "-0.10000000000000000000000b-127");
}

#[test]
fn infinities_and_nans() {
    assert_eq!(show(f32::INFINITY), "+∞");
    assert_eq!(show(f32::NEG_INFINITY), "-∞");
    assert_eq!(show(f32::NAN), "NaN");
    assert_eq!(DisplayFloat(Binary32::new(0xff80_0001)).to_string(), "NaN");
}

#[test]
fn classification_of_each_kind() {
    let c = |x: f32| Binary32::new(x.to_bits()).float_bits();
    assert_eq!(c(1.0), FloatBits::Value(1 << 23, 0));
    assert_eq!(c(-0.5), FloatBits::Value(0b11 << 23, -1));
    assert_eq!(c(3.0), FloatBits::Value(0b011 << 22, 1));
    assert_eq!(c(0.0), FloatBits::Denorm(0));
    assert_eq!(c(-0.0), FloatBits::Denorm(1 << 24));
    assert_eq!(c(1.0e-45), FloatBits::Denorm(1));
    assert_eq!(c(f32::INFINITY), FloatBits::Inf(0));
    assert_eq!(c(f32::NEG_INFINITY), FloatBits::Inf(1));
    assert_eq!(
        Binary32::new(0x7fc0_0000).float_bits(),
        FloatBits::Nan(0x40_0000)
    );
    assert_eq!(
        Binary32::new(0xff80_0001).float_bits(),
        FloatBits::Nan((1 << 24) | 1)
    );
    assert_eq!(Binary32::new(0).prec(), (25, 8));
}

#[test]
fn reassembly_gives_the_pattern_back() {
    let mut bits: u32 = 0;
    for _ in 0..20000 {
        let b = Binary32::new(bits);
        assert_eq!(b.float_bits().to_binary32(), Some(b), "{:#x}", bits);
        bits = bits.wrapping_mul(1664525).wrapping_add(1013904223);
    }
    for bits in [0u32, 1, 0x7f_ffff, 0x80_0000, 0x7f7f_ffff, 0x7f80_0000, 0x7f80_0001, 0xffff_ffff] {
        let b = Binary32::new(bits);
        assert_eq!(b.float_bits().to_binary32(), Some(b), "{:#x}", bits);
    }
}

#[test]
fn forms_of_no_pattern_do_not_reassemble() {
    assert_eq!(FloatBits::Value(1 << 22, 0).to_binary32(), None);
    assert_eq!(FloatBits::Value(1 << 25, 0).to_binary32(), None);
    assert_eq!(FloatBits::Value(1 << 23, 128).to_binary32(), None);
    assert_eq!(FloatBits::Value(1 << 23, -127).to_binary32(), None);
    assert_eq!(FloatBits::Denorm(1 << 23).to_binary32(), None);
    assert_eq!(FloatBits::Nan(0).to_binary32(), None);
    assert_eq!(FloatBits::Nan(1 << 24).to_binary32(), None);
    assert_eq!(FloatBits::Inf(2).to_binary32(), None);
    assert_eq!(
        FloatBits::Value(0b11 << 23, -1).to_binary32(),
        Some(Binary32::new((-0.5f32).to_bits()))
    );
    assert_eq!(FloatBits::Inf(1).to_binary32(), Some(Binary32::new(0xff80_0000)));
}

/// A format of the caller's own: a sign, a leading bit and `width - 2` bits
/// of fraction.
struct Tiny {
    form: FloatBits,
    width: u32,
}

impl Floaty for Tiny {
    fn classification(&self) -> FloatBits {
        self.form
    }

    fn precision(&self) -> (u32, u32) {
        (self.width, 3)
    }

    fn float_bits(&self) -> FloatBits {
        self.form
    }

    fn prec(&self) -> (u32, u32) {
        (self.width, 3)
    }
}

#[test]
fn other_formats_render_by_their_own_widths() {
    let t = |form, width| DisplayFloat(Tiny { form, width }).to_string();
    assert_eq!(t(FloatBits::Value(0b0_1_101, 2), 5), "+1.101b+2");
    assert_eq!(t(FloatBits::Value(0b1_1_001, -3), 5), "-1.001b-3");
    assert_eq!(t(FloatBits::Denorm(0b1_0_011), 5), "-0.011b-127");
    assert_eq!(t(FloatBits::Value(0b01, 0), 2), "+1.0b+0");
    assert_eq!(t(FloatBits::Value(0b11, 0), 2), "-1.0b+0");
    assert_eq!(t(FloatBits::Value(0b0_1_1, 7), 3), "+1.1b+7");
    assert_eq!(t(FloatBits::Inf(0), 0), "+∞");
    assert_eq!(t(FloatBits::Nan(5), 1000), "NaN");
}

#[test]
fn exponents_of_any_size() {
    let t = |e| DisplayFloat(Tiny { form: FloatBits::Value(0b010, e), width: 3 }).to_string();
    assert_eq!(t(0), "+1.0b+0");
    assert_eq!(t(9), "+1.0b+9");
    assert_eq!(t(10), "+1.0b+10");
    assert_eq!(t(-10), "+1.0b-10");
    assert_eq!(t(1234567890123), "+1.0b+1234567890123");
    assert_eq!(t(i64::MAX), "+1.0b+9223372036854775807");
    assert_eq!(t(i64::MIN), "+1.0b-9223372036854775808");
}

#[test]
fn widest_significand() {
    let f = (1u128 << 127) | (1 << 126) | 1;
    let s = DisplayFloat(Tiny { form: FloatBits::Value(f, 1), width: 128 }).to_string();
    let mut want = String::from("-1.");
    for _ in 0..125 {
        want.push('0');
    }
    want.push_str("1b+1");
    assert_eq!(s, want);
    assert_eq!(s, format!("-1.{:0w$b}b{:+}", 1u128, 1, w = 126));
}

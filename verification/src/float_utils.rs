//! Decomposition of a floating-point value into its semantic form.
//!
//! A value is one of four things: a normal number, a denormal (zero
//! included), an infinity or a NaN. The integer significand handed out for
//! numbers folds the sign in, one place above the leading bit.
use vstd::prelude::*;
use vstd::arithmetic::power2::pow2;
use vstd::bits::lemma_u128_shr_is_div;
use vstd::string::StringExecFns;
use crate::binary32::{
    Binary32, EXPONENT_BIAS, exponent_field, fraction_field, pack, sign_field,
};
use crate::digits::{binary_digits, push_binary, push_signed, sign_char, sign_str, signed_decimal};

verus! {

/// The semantic form of a floating-point value.
///
/// For binary32 the significand of `Value` has its leading bit at place 23
/// and the sign at place 24; `Denorm` and `Nan` carry the stored fraction with
/// the sign at place 24 and no leading bit; `Inf` carries the sign alone. The
/// exponent of `Value` is unbiased.
#[derive(Clone, Copy, Debug, PartialEq, Eq, Structural)]
pub enum FloatBits {
    Value(u128, i64),
    Denorm(u128),
    Nan(u128),
    Inf(u128),
}

/// The semantic form of a binary32 pattern.
pub open spec fn classify(bits: u32) -> FloatBits {
    let sign = sign_field(bits);
    let e = exponent_field(bits);
    let f = fraction_field(bits);
    if e == 0 {
        FloatBits::Denorm((f + sign * 0x100_0000) as u128)
    } else if e == 255 {
        if f == 0 {
            FloatBits::Inf(sign as u128)
        } else {
            FloatBits::Nan((f + sign * 0x100_0000) as u128)
        }
    } else {
        FloatBits::Value((f + 0x80_0000 + sign * 0x100_0000) as u128, (e - EXPONENT_BIAS) as i64)
    }
}

impl FloatBits {
    /// The forms that some binary32 pattern decomposes into.
    pub open spec fn is_binary32(self) -> bool {
        match self {
            FloatBits::Value(f, e) => {
                &&& f < 0x200_0000
                &&& f % 0x100_0000 >= 0x80_0000
                &&& -126 <= e <= 127
            },
            FloatBits::Denorm(f) => f < 0x200_0000 && f % 0x100_0000 < 0x80_0000,
            FloatBits::Nan(f) => f < 0x200_0000 && 0 < f % 0x100_0000 < 0x80_0000,
            FloatBits::Inf(s) => s <= 1,
        }
    }

    /// The binary32 pattern that decomposes into this form.
    pub open spec fn pattern(self) -> int {
        match self {
            FloatBits::Value(f, e) => pack(
                f as int / 0x100_0000,
                e + EXPONENT_BIAS,
                f as int % 0x80_0000,
            ),
            FloatBits::Denorm(f) => pack(f as int / 0x100_0000, 0, f as int % 0x80_0000),
            FloatBits::Nan(f) => pack(f as int / 0x100_0000, 255, f as int % 0x80_0000),
            FloatBits::Inf(s) => pack(s as int, 255, 0),
        }
    }

    /// Reassembles the binary32 pattern of a form, or `None` when no binary32
    /// pattern decomposes into it.
    pub fn to_binary32(&self) -> (r: Option<Binary32>)
        ensures
            self.is_binary32() ==> r == Some(Binary32 { bits: self.pattern() as u32 }),
            !self.is_binary32() ==> r is None,
    {
        match *self {
            FloatBits::Value(f, e) => {
                if f < 0x200_0000 && f % 0x100_0000 >= 0x80_0000 && -126 <= e && e <= 127 {
                    let sign = (f / 0x100_0000) as u32;
                    let stored = (e + EXPONENT_BIAS) as u32;
                    let fraction = (f % 0x80_0000) as u32;
                    Some(Binary32 { bits: assemble(sign, stored, fraction) })
                } else {
                    None
                }
            },
            FloatBits::Denorm(f) => {
                if f < 0x200_0000 && f % 0x100_0000 < 0x80_0000 {
                    let sign = (f / 0x100_0000) as u32;
                    let fraction = (f % 0x80_0000) as u32;
                    Some(Binary32 { bits: assemble(sign, 0, fraction) })
                } else {
                    None
                }
            },
            FloatBits::Nan(f) => {
                if f < 0x200_0000 && f % 0x100_0000 < 0x80_0000 && f % 0x100_0000 > 0 {
                    let sign = (f / 0x100_0000) as u32;
                    let fraction = (f % 0x80_0000) as u32;
                    Some(Binary32 { bits: assemble(sign, 255, fraction) })
                } else {
                    None
                }
            },
            FloatBits::Inf(s) => {
                if s <= 1 {
                    Some(Binary32 { bits: assemble(s as u32, 255, 0) })
                } else {
                    None
                }
            },
        }
    }
}

/// Puts the three fields of a pattern at their places.
fn assemble(sign: u32, exponent: u32, fraction: u32) -> (bits: u32)
    requires
        sign <= 1,
        exponent <= 255,
        fraction < 0x80_0000,
    ensures
        bits == pack(sign as int, exponent as int, fraction as int),
{
    assert((sign << 31) | (exponent << 23) | fraction == sign * 0x8000_0000 + exponent * 0x80_0000
        + fraction) by (bit_vector)
        requires
            sign <= 1,
            exponent <= 255,
            fraction < 0x80_0000,
    ;
    (sign << 31) | (exponent << 23) | fraction
}

/// A floating-point format that decomposes its values.
pub trait Floaty {
    /// The semantic form of the value.
    spec fn classification(&self) -> FloatBits;

    /// The widths of the format: the bits of the integer significand (leading
    /// bit and folded sign included) and the bits of the exponent field.
    spec fn precision(&self) -> (u32, u32);

    fn float_bits(&self) -> (r: FloatBits)
        ensures
            r == self.classification(),
    ;

    fn prec(&self) -> (r: (u32, u32))
        ensures
            r == self.precision(),
    ;
}

impl Floaty for Binary32 {
    open spec fn classification(&self) -> FloatBits {
        classify(self.bits)
    }

    open spec fn precision(&self) -> (u32, u32) {
        (25, 8)
    }

    fn float_bits(&self) -> (r: FloatBits) {
        let sign = self.sign();
        let exp = self.exponent();
        let f = self.fraction();
        let width = self.prec().1;
        assert(1u32 << 8 == 256) by (bit_vector);
        assert(f | (sign << 24) == f + sign * 0x100_0000 && f | (1u32 << 23) | (sign << 24) == f
            + 0x80_0000 + sign * 0x100_0000) by (bit_vector)
            requires
                sign <= 1,
                f < 0x80_0000,
        ;
        if exp == 0 {
            // Denormalized number, including 0.
            let f = f | (sign << 24);
            FloatBits::Denorm(f as u128)
        } else if exp == (1u32 << width) - 1 {
            // Not really a number.
            if f == 0 {
                FloatBits::Inf(sign as u128)
            } else {
                FloatBits::Nan((f | (sign << 24)) as u128)
            }
        } else {
            // "Normal" number.
            let f = f | (1u32 << 23) | (sign << 24);
            FloatBits::Value(f as u128, exp as i64 - EXPONENT_BIAS)
        }
    }

    fn prec(&self) -> (r: (u32, u32)) {
        (25, 8)
    }
}

/// A value of some format, to be written in binary scientific notation.
pub struct DisplayFloat<T: Floaty>(pub T);

/// The fraction digits of an integer significand `f` in a format whose
/// significand is `nf` bits wide: the `nf - 2` bits below the leading bit, or
/// a single `0` where the format has none.
pub open spec fn fraction_text(f: nat, nf: nat) -> Seq<char> {
    if nf == 2 {
        seq!['0']
    } else {
        binary_digits(f, (nf - 2) as nat)
    }
}

/// The text of a semantic form in a format whose integer significand is `nf`
/// bits wide.
///
/// Numbers read sign, leading digit, point, fraction in binary, `b` and the
/// signed decimal exponent; a denormal has leading digit 0 and the fixed
/// exponent -127; an infinity is its sign and the glyph; a NaN is `NaN`.
pub open spec fn render(form: FloatBits, nf: u32) -> Seq<char> {
    match form {
        FloatBits::Value(f, e) => seq![sign_char(f as nat / pow2((nf - 1) as nat)), '1', '.']
            + fraction_text(f as nat, nf as nat) + seq!['b'] + signed_decimal(e as int),
        FloatBits::Denorm(f) => seq![sign_char(f as nat / pow2((nf - 1) as nat)), '0', '.']
            + fraction_text(f as nat, nf as nat) + seq!['b', '-', '1', '2', '7'],
        FloatBits::Inf(s) => seq![sign_char(s as nat), '\u{221e}'],
        FloatBits::Nan(_) => seq!['N', 'a', 'N'],
    }
}

/// The significand widths for which a form has a text: numbers need room for
/// the sign and the leading bit inside the 128 bits of the significand.
pub open spec fn renders(form: FloatBits, nf: u32) -> bool {
    form is Value || form is Denorm ==> 2 <= nf <= 128
}

impl<T: Floaty> DisplayFloat<T> {
    /// Writes the sign, leading digit, point and fraction of a number.
    fn number_head(f: u128, nf: u32, leading: &'static str) -> (out: String)
        requires
            2 <= nf <= 128,
            leading@.len() == 2,
        ensures
            out@ == seq![sign_char(f as nat / pow2((nf - 1) as nat))] + leading@ + fraction_text(
                f as nat,
                nf as nat,
            ),
    {
        let shift: u128 = (nf - 1) as u128;
        proof {
            lemma_u128_shr_is_div(f, shift);
            reveal_strlit("0");
        }
        let mut out = String::from_str(sign_str(f >> shift));
        out.append(leading);
        if nf == 2 {
            out.append("0");
        } else {
            push_binary(&mut out, f, nf - 2);
        }
        out
    }

    /// The value in binary scientific notation.
    pub fn to_string(&self) -> (s: String)
        requires
            renders(self.0.classification(), self.0.precision().0),
        ensures
            s@ == render(self.0.classification(), self.0.precision().0),
    {
        let (nf, _ne) = self.0.prec();
        proof {
            reveal_strlit("1.");
            reveal_strlit("0.");
            reveal_strlit("b");
            reveal_strlit("b-127");
            reveal_strlit("\u{221e}");
            reveal_strlit("NaN");
        }
        let out = match self.0.float_bits() {
            FloatBits::Value(f, e) => {
                let mut out = Self::number_head(f, nf, "1.");
                out.append("b");
                push_signed(&mut out, e);
                out
            },
            FloatBits::Denorm(f) => {
                let mut out = Self::number_head(f, nf, "0.");
                out.append("b-127");
                out
            },
            FloatBits::Inf(s) => {
                let mut out = String::from_str(sign_str(s));
                out.append("\u{221e}");
                out
            },
            FloatBits::Nan(_) => String::from_str("NaN"),
        };
        assert(out@ =~= render(self.0.classification(), self.0.precision().0));
        out
    }
}

/// Decomposing a pattern and reassembling the form gives the pattern back, for
/// every pattern: numbers, infinities and NaNs alike.
pub proof fn lemma_classify_round_trip(bits: u32)
    ensures
        classify(bits).is_binary32(),
        classify(bits).pattern() == bits,
{
}

/// Reassembling a binary32 form and decomposing the pattern gives the form
/// back, so each pattern has exactly one form and each form one pattern.
pub proof fn lemma_pattern_classifies(form: FloatBits)
    requires
        form.is_binary32(),
    ensures
        0 <= form.pattern() <= u32::MAX,
        classify(form.pattern() as u32) == form,
{
}

} // verus!

//! Digits of integers as text: the pieces a formatted value is built from.
use vstd::prelude::*;
use vstd::arithmetic::power2::pow2;
use vstd::bits::lemma_u128_shr_is_div;

verus! {

/// The character of a digit below ten.
pub open spec fn digit_char(d: nat) -> char {
    if d == 0 {
        '0'
    } else if d == 1 {
        '1'
    } else if d == 2 {
        '2'
    } else if d == 3 {
        '3'
    } else if d == 4 {
        '4'
    } else if d == 5 {
        '5'
    } else if d == 6 {
        '6'
    } else if d == 7 {
        '7'
    } else if d == 8 {
        '8'
    } else {
        '9'
    }
}

/// The sign character that stands for a sign word: `+` when its lowest bit is
/// clear, `-` when it is set.
pub open spec fn sign_char(s: nat) -> char {
    if s % 2 == 0 {
        '+'
    } else {
        '-'
    }
}

/// The lowest `width` binary digits of `x`, most significant first.
pub open spec fn binary_digits(x: nat, width: nat) -> Seq<char> {
    Seq::new(width, |i: int| digit_char((x / pow2((width - 1 - i) as nat)) % 2))
}

/// The decimal digits of `n`, most significant first, without leading zeros.
pub open spec fn decimal_digits(n: nat) -> Seq<char>
    decreases n,
{
    if n < 10 {
        seq![digit_char(n)]
    } else {
        decimal_digits(n / 10).push(digit_char(n % 10))
    }
}

/// The decimal digits of `e` behind its sign, which is written for
/// non-negative numbers too.
pub open spec fn signed_decimal(e: int) -> Seq<char> {
    if e < 0 {
        seq!['-'] + decimal_digits((-e) as nat)
    } else {
        seq!['+'] + decimal_digits(e as nat)
    }
}

/// The text of one digit.
pub fn digit_str(d: u8) -> (r: &'static str)
    requires
        d < 10,
    ensures
        r@ == seq![digit_char(d as nat)],
{
    proof {
        reveal_strlit("0");
        reveal_strlit("1");
        reveal_strlit("2");
        reveal_strlit("3");
        reveal_strlit("4");
        reveal_strlit("5");
        reveal_strlit("6");
        reveal_strlit("7");
        reveal_strlit("8");
        reveal_strlit("9");
    }
    let r = if d == 0 {
        "0"
    } else if d == 1 {
        "1"
    } else if d == 2 {
        "2"
    } else if d == 3 {
        "3"
    } else if d == 4 {
        "4"
    } else if d == 5 {
        "5"
    } else if d == 6 {
        "6"
    } else if d == 7 {
        "7"
    } else if d == 8 {
        "8"
    } else {
        "9"
    };
    assert(r@ =~= seq![digit_char(d as nat)]);
    r
}

/// The text of the sign that a sign word stands for.
pub fn sign_str(s: u128) -> (r: &'static str)
    ensures
        r@ == seq![sign_char(s as nat)],
{
    proof {
        reveal_strlit("+");
        reveal_strlit("-");
    }
    assert(s & 1 == s % 2) by (bit_vector);
    let r = if s & 1 == 0 {
        "+"
    } else {
        "-"
    };
    assert(r@ =~= seq![sign_char(s as nat)]);
    r
}

/// Appends the lowest `width` binary digits of `x`.
pub fn push_binary(out: &mut String, x: u128, width: u32)
    requires
        width <= 128,
    ensures
        final(out)@ == old(out)@ + binary_digits(x as nat, width as nat),
{
    let mut i: u32 = 0;
    while i < width
        invariant
            i <= width <= 128,
            out@ == old(out)@ + binary_digits(x as nat, width as nat).subrange(0, i as int),
        decreases width - i,
    {
        let shift: u128 = (width - 1 - i) as u128;
        let bit = (x >> shift) & 1;
        proof {
            let y = x >> shift;
            assert(y & 1 == y % 2) by (bit_vector);
            lemma_u128_shr_is_div(x, shift);
            let digits = binary_digits(x as nat, width as nat);
            assert(digits.subrange(0, i + 1) =~= digits.subrange(0, i as int).push(
                digit_char(bit as nat),
            ));
        }
        out.append(digit_str(bit as u8));
        i = i + 1;
    }
    assert(binary_digits(x as nat, width as nat).subrange(0, width as int) =~= binary_digits(
        x as nat,
        width as nat,
    ));
}

/// Appends the decimal digits of `n`.
pub fn push_decimal(out: &mut String, n: u64)
    ensures
        final(out)@ == old(out)@ + decimal_digits(n as nat),
    decreases n,
{
    if n >= 10 {
        push_decimal(out, n / 10);
    }
    out.append(digit_str((n % 10) as u8));
    assert(out@ =~= old(out)@ + decimal_digits(n as nat));
}

/// Appends `e` in decimal behind its sign.
pub fn push_signed(out: &mut String, e: i64)
    ensures
        final(out)@ == old(out)@ + signed_decimal(e as int),
{
    proof {
        reveal_strlit("+");
        reveal_strlit("-");
    }
    if e < 0 {
        out.append("-");
        let magnitude: u64 = (-(e + 1)) as u64 + 1;
        push_decimal(out, magnitude);
    } else {
        out.append("+");
        push_decimal(out, e as u64);
    }
    assert(out@ =~= old(out)@ + signed_decimal(e as int));
}

} // verus!

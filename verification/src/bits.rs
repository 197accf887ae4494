//! Facts about 128-bit words: how long a number is in binary, and what a
//! left shift does to its value.
use vstd::prelude::*;
use vstd::arithmetic::div_mod::{lemma_mul_mod_noop_left, lemma_small_mod};
use vstd::arithmetic::mul::{lemma_mul_is_associative, lemma_mul_strict_inequality};
use vstd::arithmetic::power2::{
    lemma2_to64, lemma_pow2_adds, lemma_pow2_pos, lemma_pow2_strictly_increases,
    lemma_pow2_unfold, pow2,
};

verus! {

/// The number of values of a 128-bit word, 2^128.
pub open spec fn word_modulus() -> int {
    u128::MAX + 1
}

/// The number of binary digits of `x`, none for zero.
pub open spec fn bit_length(x: nat) -> nat
    decreases x,
{
    if x == 0 {
        0
    } else {
        1 + bit_length(x / 2)
    }
}

/// `u128::leading_zeros` of std: the zeros above the highest set bit of the
/// word, which are all 128 bits for zero.
pub assume_specification[ u128::leading_zeros ](x: u128) -> (r: u32)
    ensures
        r == 128 - bit_length(x as nat),
;

/// A number lies between the two powers of two that its length names.
pub proof fn lemma_bit_length(x: nat)
    ensures
        x < pow2(bit_length(x)),
        x > 0 ==> pow2((bit_length(x) - 1) as nat) <= x,
    decreases x,
{
    lemma2_to64();
    if x > 0 {
        lemma_bit_length(x / 2);
        lemma_pow2_unfold(bit_length(x));
        if x / 2 > 0 {
            lemma_pow2_unfold((bit_length(x) - 1) as nat);
        }
    }
}

/// A number below a power of two is no longer than the exponent.
pub proof fn lemma_bit_length_below(x: nat, k: nat)
    requires
        x < pow2(k),
    ensures
        bit_length(x) <= k,
{
    lemma_bit_length(x);
    if bit_length(x) > k {
        if bit_length(x) - 1 > k {
            lemma_pow2_strictly_increases(k, (bit_length(x) - 1) as nat);
        }
    }
}

/// 2^128 as the product of two 64-bit moduli.
pub proof fn lemma_word_modulus()
    ensures
        pow2(128) == word_modulus(),
{
    lemma2_to64();
    lemma_pow2_adds(64, 64);
    assert(0x10000000000000000int * 0x10000000000000000int == u128::MAX + 1);
}

/// A left shift multiplies by a power of two and keeps what fits in the word.
pub proof fn lemma_shl_is_mul_mod(x: u128, s: u32)
    requires
        s < 128,
    ensures
        (x << s) == (x * pow2(s as nat)) % word_modulus(),
    decreases s,
{
    lemma2_to64();
    let m = word_modulus();
    if s == 0 {
        assert(x << 0u32 == x) by (bit_vector);
        lemma_small_mod(x as nat, m as nat);
    } else {
        let t = (s - 1) as u32;
        assert(x << s == ((x << t) * 2) % 0x1_0000_0000_0000_0000_0000_0000_0000_0000int)
            by (bit_vector)
            requires
                0 < s < 128,
                t == s - 1,
        ;
        lemma_shl_is_mul_mod(x, t);
        let y = x * pow2(t as nat);
        lemma_mul_mod_noop_left(y, 2, m);
        lemma_pow2_unfold(s as nat);
        lemma_mul_is_associative(x as int, pow2(t as nat) as int, 2);
    }
}

/// Shifting a number left by what its length lacks to `width` cannot lose a
/// bit in a word, and brings it below 2^`width`.
pub proof fn lemma_aligned_fits(x: nat, width: nat)
    requires
        x < pow2(width),
        width < 128,
    ensures
        bit_length(x) <= width,
        x * pow2((width - bit_length(x)) as nat) < pow2(width),
        pow2(width) < word_modulus(),
{
    lemma_bit_length(x);
    lemma_bit_length_below(x, width);
    let k = (width - bit_length(x)) as nat;
    lemma_pow2_pos(k);
    lemma_mul_strict_inequality(x as int, pow2(bit_length(x)) as int, pow2(k) as int);
    lemma_pow2_adds(bit_length(x), k);
    lemma_pow2_strictly_increases(width, 128);
    lemma_word_modulus();
}

} // verus!

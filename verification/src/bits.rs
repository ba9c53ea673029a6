//! Binary digits of a number, most significant first.

use vstd::prelude::*;
use vstd::arithmetic::div_mod::lemma_div_denominator;
use vstd::arithmetic::power2::{lemma2_to64, lemma_pow2_pos, lemma_pow2_unfold, pow2};

verus! {

/// The number of binary digits of `n` without leading zeros; none for zero.
pub open spec fn bit_length(n: nat) -> nat
    decreases n,
{
    if n == 0 {
        0
    } else {
        1 + bit_length(n / 2)
    }
}

/// The number of digits that `decimal_to_binary` writes for `n`: as many as `n`
/// has, and at least the five of a symbol.
pub open spec fn binary_width(n: nat) -> nat {
    if bit_length(n) < 5 {
        5
    } else {
        bit_length(n)
    }
}

/// Digit `i` of `n` written in binary with `width` digits, counted from the most
/// significant.
pub open spec fn binary_digit(n: nat, width: nat, i: int) -> u8 {
    (n / pow2((width - 1 - i) as nat) % 2) as u8
}

/// The five binary digits of a number below 32, most significant first.
pub open spec fn five_digits(n: nat) -> Seq<u8> {
    seq![
        (n / 16 % 2) as u8,
        (n / 8 % 2) as u8,
        (n / 4 % 2) as u8,
        (n / 2 % 2) as u8,
        (n % 2) as u8,
    ]
}

/// With a width of five, `binary_digit` gives the five digits.
pub proof fn lemma_five_digits(n: nat)
    ensures
        forall|i: int| 0 <= i < 5 ==> five_digits(n)[i] == binary_digit(n, 5, i),
{
    lemma2_to64();
    assert(n / pow2(4) == n / 16);
    assert(n / pow2(3) == n / 8);
    assert(n / pow2(2) == n / 4);
    assert(n / pow2(1) == n / 2);
    assert(n / pow2(0) == n);
    assert forall|i: int| 0 <= i < 5 implies five_digits(n)[i] == binary_digit(n, 5, i) by {
        if i == 0 {
            assert(pow2((5 - 1 - i) as nat) == pow2(4));
        } else if i == 1 {
            assert(pow2((5 - 1 - i) as nat) == pow2(3));
        } else if i == 2 {
            assert(pow2((5 - 1 - i) as nat) == pow2(2));
        } else if i == 3 {
            assert(pow2((5 - 1 - i) as nat) == pow2(1));
        } else {
            assert(pow2((5 - 1 - i) as nat) == pow2(0));
        }
    }
}

/// A number has at most as many digits as its value.
proof fn lemma_bit_length_bound(n: nat)
    ensures
        bit_length(n) <= n,
        n < 32 ==> bit_length(n) <= 5,
    decreases n,
{
    reveal_with_fuel(bit_length, 7);
    if n >= 32 {
        lemma_bit_length_bound(n / 2);
    }
}

/// Dropping one more digit from the right halves the number once more.
proof fn lemma_drop_digit(n: nat, dropped: nat)
    ensures
        n / pow2(dropped) / 2 == n / pow2(dropped + 1),
        pow2(dropped) > 0,
{
    lemma_pow2_pos(dropped);
    lemma_pow2_unfold(dropped + 1);
    lemma_div_denominator(n as int, pow2(dropped) as int, 2);
}

/// Writes a number in binary, most significant digit first, padded with zeros
/// at the front to five digits. Zero gives five zeros.
pub fn decimal_to_binary(n: usize) -> (bits: Vec<u8>)
    ensures
        bits@.len() == binary_width(n as nat),
        forall|i: int| 0 <= i < bits@.len() ==> bits@[i] == binary_digit(n as nat, bits@.len(), i),
        n < 32 ==> bits@ == five_digits(n as nat),
{
    let mut width: usize = 0;
    let mut rest: usize = n;
    while rest > 0
        invariant
            width + bit_length(rest as nat) == bit_length(n as nat),
        decreases rest,
    {
        proof {
            lemma_bit_length_bound(n as nat);
        }
        rest = rest / 2;
        width = width + 1;
    }
    if width < 5 {
        width = 5;
    }
    proof {
        lemma_bit_length_bound(n as nat);
    }
    let mut bits: Vec<u8> = Vec::new();
    while bits.len() < width
        invariant
            bits@.len() <= width,
        decreases width - bits@.len(),
    {
        bits.push(0);
    }
    let mut rest: usize = n;
    let mut i: usize = width;
    proof {
        lemma2_to64();
        assert(pow2((width - i) as nat) == 1);
        assert(n as nat / 1 == n as nat);
    }
    while i > 0
        invariant
            i <= width,
            bits@.len() == width,
            rest == n as nat / pow2((width - i) as nat),
            forall|j: int| i <= j < width ==> bits@[j] == binary_digit(n as nat, width as nat, j),
        decreases i,
    {
        proof {
            lemma_drop_digit(n as nat, (width - i) as nat);
        }
        i = i - 1;
        bits.set(i, (rest % 2) as u8);
        rest = rest / 2;
    }
    proof {
        if n < 32 {
            lemma_five_digits(n as nat);
            assert(bits@ =~= five_digits(n as nat));
        }
    }
    bits
}

} // verus!

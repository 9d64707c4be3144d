//! Executable counterparts of the bit and byte functions of the model, written once
//! on the widest unsigned type; the narrower types widen and call them.

use vstd::prelude::*;
use vstd::arithmetic::power2::{
    lemma2_to64, lemma2_to64_rest, lemma_pow2_adds, lemma_pow2_pos, lemma_pow2_strictly_increases,
    lemma_pow2_unfold, pow2,
};
use super::model::{
    bit_count, bit_length, byte_capacity, drop_low_bytes, from_le_bytes, le_bytes,
    leading_zeros, lemma_le_bytes_len, magnitude, reverse_bytes, trailing_zeros,
};

verus! {

/// A number below 2 to the power `len` has at most `len` binary digits.
pub proof fn lemma_bit_length_bound(n: nat, len: nat)
    requires
        n < pow2(len),
    ensures
        bit_length(n) <= len,
        bit_count(n) <= len,
    decreases len,
{
    if n != 0 {
        if len == 0 {
            lemma2_to64();
        } else {
            lemma_pow2_unfold(len);
            lemma_bit_length_bound(n / 2, (len - 1) as nat);
        }
    }
}

/// 2 to the power 128 is one more than the greatest `u128`.
pub proof fn lemma_pow2_128()
    ensures
        pow2(128) == 0x1_0000_0000_0000_0000_0000_0000_0000_0000,
{
    lemma2_to64();
    lemma_pow2_adds(64, 64);
}

/// Sixteen bytes tell apart as many values as a `u128` has.
pub proof fn lemma_byte_capacities()
    ensures
        byte_capacity(1) == 0x100,
        byte_capacity(2) == 0x1_0000,
        byte_capacity(4) == 0x1_0000_0000,
        byte_capacity(8) == 0x1_0000_0000_0000_0000,
        byte_capacity(16) == 0x1_0000_0000_0000_0000_0000_0000_0000_0000,
{
    reveal_with_fuel(byte_capacity, 17);
}

/// The capacity grows with the number of bytes.
pub proof fn lemma_byte_capacity_grows(a: nat, b: nat)
    requires
        a <= b,
    ensures
        0 < byte_capacity(a) <= byte_capacity(b),
    decreases b,
{
    if b > 0 {
        if a < b {
            lemma_byte_capacity_grows(a, (b - 1) as nat);
        } else {
            lemma_byte_capacity_grows((a - 1) as nat, (b - 1) as nat);
        }
    }
}

/// Counts the binary digits of `x` that are 1.
pub fn count_set_bits(x: u128) -> (count: usize)
    ensures
        count == bit_count(x as nat),
        count <= 128,
{
    let mut rest: u128 = x;
    let mut count: usize = 0;
    proof {
        lemma_pow2_128();
        lemma_bit_length_bound(x as nat, 128);
    }
    while rest != 0
        invariant
            count + bit_count(rest as nat) == bit_count(x as nat),
            bit_count(x as nat) <= 128,
        decreases rest,
    {
        if rest % 2 == 1 {
            count = count + 1;
        }
        rest = rest / 2;
    }
    count
}

/// Counts the binary digits that `x` needs.
pub fn count_digits(x: u128) -> (count: usize)
    ensures
        count == bit_length(x as nat),
        count <= 128,
{
    let mut rest: u128 = x;
    let mut count: usize = 0;
    proof {
        lemma_pow2_128();
        lemma_bit_length_bound(x as nat, 128);
    }
    while rest != 0
        invariant
            count + bit_length(rest as nat) == bit_length(x as nat),
            bit_length(x as nat) <= 128,
        decreases rest,
    {
        count = count + 1;
        rest = rest / 2;
    }
    count
}

/// Counts the zeros above the highest 1 among the `width` low binary digits of `x`.
pub fn count_leading_zeros(x: u128, width: usize) -> (count: usize)
    ensures
        count == leading_zeros(x as nat, width as nat),
{
    let digits = count_digits(x);
    if digits >= width {
        0
    } else {
        width - digits
    }
}

/// Counts the zeros below the lowest 1 among the `width` low binary digits of `x`.
pub fn count_trailing_zeros(x: u128, width: usize) -> (count: usize)
    ensures
        count == trailing_zeros(x as nat, width as nat),
{
    let mut rest: u128 = x;
    let mut count: usize = 0;
    while count < width && rest % 2 == 0
        invariant
            count <= width,
            count + trailing_zeros(rest as nat, (width - count) as nat) == trailing_zeros(
                x as nat,
                width as nat,
            ),
        decreases width - count,
    {
        count = count + 1;
        rest = rest / 2;
    }
    count
}

/// Appending the next byte to the low bytes of `n` gives one byte more of them.
proof fn lemma_le_bytes_push(n: nat, count: nat)
    ensures
        le_bytes(n, count + 1) == le_bytes(n, count).push(drop_low_bytes(n, count) % 256),
    decreases count,
{
    if count == 0 {
        assert(le_bytes(n / 256, 0) =~= Seq::<nat>::empty());
        assert(le_bytes(n, 1) =~= le_bytes(n, 0).push(n % 256));
    } else {
        lemma_le_bytes_push(n / 256, (count - 1) as nat);
        lemma_drop_low_bytes_shift(n, (count - 1) as nat);
        assert(le_bytes(n, count + 1) =~= le_bytes(n, count).push(drop_low_bytes(n, count) % 256));
    }
}

/// Dropping one byte first and `count` more is dropping `count + 1`.
proof fn lemma_drop_low_bytes_shift(n: nat, count: nat)
    ensures
        drop_low_bytes(n / 256, count) == drop_low_bytes(n, count + 1),
    decreases count,
{
    reveal_with_fuel(drop_low_bytes, 2);
    if count > 0 {
        lemma_drop_low_bytes_shift(n, (count - 1) as nat);
    }
}

/// Puts the `count` low bytes of `x` in the opposite order.
pub fn reverse_byte_order(x: u128, count: usize) -> (r: u128)
    requires
        count <= 16,
    ensures
        r == reverse_bytes(x as nat, count as nat),
{
    let mut rest: u128 = x;
    let mut r: u128 = 0;
    let mut done: usize = 0;
    proof {
        assert(le_bytes(x as nat, 0).reverse() =~= Seq::<nat>::empty());
    }
    while done < count
        invariant
            done <= count <= 16,
            rest == drop_low_bytes(x as nat, done as nat),
            r == from_le_bytes(le_bytes(x as nat, done as nat).reverse()),
            r < byte_capacity(done as nat),
        decreases count - done,
    {
        proof {
            let before = le_bytes(x as nat, done as nat);
            let byte = (rest % 256) as nat;
            lemma_le_bytes_push(x as nat, done as nat);
            lemma_le_bytes_len(x as nat, done as nat);
            let after = before.push(byte).reverse();
            assert(after.drop_first() =~= before.reverse());
            assert(after[0] == byte);
            lemma_byte_capacity_grows((done + 1) as nat, 16);
            lemma_byte_capacities();
        }
        r = r * 256 + rest % 256;
        rest = rest / 256;
        done = done + 1;
    }
    r
}

/// A power of two with an exponent below `limit` is below the power with that
/// exponent.
pub proof fn lemma_pow2_below(e: nat, limit: nat)
    requires
        e < limit,
    ensures
        0 < pow2(e) < pow2(limit),
        2 * pow2(e) <= pow2(limit),
{
    lemma_pow2_pos(e);
    lemma_pow2_unfold((e + 1) as nat);
    if e + 1 < limit {
        lemma_pow2_strictly_increases((e + 1) as nat, limit);
    }
    lemma_pow2_strictly_increases(e, limit);
}

/// Computes 2 to the power `e`.
pub fn power_of_two(e: u32) -> (p: u64)
    requires
        e < 64,
    ensures
        p == pow2(e as nat),
{
    let mut p: u64 = 1;
    let mut i: u32 = 0;
    proof {
        lemma2_to64();
        lemma2_to64_rest();
    }
    while i < e
        invariant
            i <= e < 64,
            p == pow2(i as nat),
            pow2(63) == 0x8000_0000_0000_0000,
        decreases e - i,
    {
        proof {
            lemma_pow2_unfold((i + 1) as nat);
            lemma_pow2_below(i as nat, 63);
        }
        p = p * 2;
        i = i + 1;
    }
    p
}

/// Computes 2 to the power `e` in 128 bits.
pub fn wide_power_of_two(e: u32) -> (p: u128)
    requires
        e < 128,
    ensures
        p == pow2(e as nat),
{
    let mut p: u128 = 1;
    let mut i: u32 = 0;
    proof {
        lemma2_to64();
        lemma_pow2_128();
    }
    while i < e
        invariant
            i <= e < 128,
            p == pow2(i as nat),
            pow2(128) == 0x1_0000_0000_0000_0000_0000_0000_0000_0000,
        decreases e - i,
    {
        proof {
            lemma_pow2_unfold((i + 1) as nat);
            lemma_pow2_below(i as nat, 127);
            lemma_pow2_below(127, 128);
        }
        p = p * 2;
        i = i + 1;
    }
    p
}

/// The absolute value of `x`, which always fits the unsigned type of the same width.
pub fn unsigned_magnitude(x: i128) -> (m: u128)
    ensures
        m == magnitude(x as int),
{
    if x >= 0 {
        x as u128
    } else if x == i128::MIN {
        0x8000_0000_0000_0000_0000_0000_0000_0000
    } else {
        (-x) as u128
    }
}

/// `u16::to_be`: the argument itself on a target that stores the most significant
/// byte first, the argument with its two bytes exchanged on any other.
#[verifier::external_body]
fn to_big_endian_u16(x: u16) -> (r: u16)
    ensures
        r == x || r == reverse_bytes(x as nat, 2),
{
    x.to_be()
}

/// Whether this target stores the most significant byte of an integer first.
pub fn target_is_big_endian() -> bool {
    to_big_endian_u16(1) == 1
}

} // verus!

//! The mathematical vocabulary in which the contracts of the integer traits are
//! written: wrapping into a range, truncating division, bit counts and byte order.

use vstd::prelude::*;

verus! {

/// The integer of `[min, max]` that differs from `v` by a multiple of the number of
/// integers in that range. This is what fixed-width arithmetic keeps of a result
/// that does not fit.
pub open spec fn wrapped(v: int, min: int, max: int) -> int {
    let modulus = max - min + 1;
    let r = v % modulus;
    if r > max {
        r - modulus
    } else {
        r
    }
}

/// Quotient rounded toward zero.
pub open spec fn truncated_quotient(a: int, b: int) -> int {
    if a >= 0 {
        a / b
    } else {
        -((-a) / b)
    }
}

/// Remainder that goes with [`truncated_quotient`]: it has the sign of `a`.
pub open spec fn truncated_remainder(a: int, b: int) -> int {
    if a >= 0 {
        a % b
    } else {
        -((-a) % b)
    }
}

/// Whether the quotient of `a` by `b` leaves a range that starts at `min` and ends at
/// `-min - 1` or, for `min` zero, anywhere: only the least value of a signed type
/// divided by -1 does.
pub open spec fn division_overflows(a: int, b: int, min: int) -> bool {
    a == min && b == -1
}

/// -1, 0 or 1 as `v` is negative, zero or positive.
pub open spec fn sign_of(v: int) -> int {
    if v < 0 {
        -1
    } else if v > 0 {
        1
    } else {
        0
    }
}

/// The absolute value.
pub open spec fn magnitude(v: int) -> nat {
    if v < 0 {
        (-v) as nat
    } else {
        v as nat
    }
}

/// How many binary digits of `n` are 1.
pub open spec fn bit_count(n: nat) -> nat
    decreases n,
{
    if n == 0 {
        0
    } else {
        n % 2 + bit_count(n / 2)
    }
}

/// How many binary digits `n` needs: 0 for 0, else one more than the position of
/// the highest 1.
pub open spec fn bit_length(n: nat) -> nat
    decreases n,
{
    if n == 0 {
        0
    } else {
        1 + bit_length(n / 2)
    }
}

/// How many of the `width` low binary digits of `n` are 0 before the first 1;
/// `width` if all of them are.
pub open spec fn trailing_zeros(n: nat, width: nat) -> nat
    decreases width,
{
    if width == 0 || n % 2 == 1 {
        0
    } else {
        1 + trailing_zeros(n / 2, (width - 1) as nat)
    }
}

/// How many of the `width` binary digits of `n` stand above its highest 1.
pub open spec fn leading_zeros(n: nat, width: nat) -> nat {
    if bit_length(n) >= width {
        0
    } else {
        (width - bit_length(n)) as nat
    }
}

/// How many values `count` bytes can tell apart: 256 to the power `count`.
pub open spec fn byte_capacity(count: nat) -> nat
    decreases count,
{
    if count == 0 {
        1
    } else {
        256 * byte_capacity((count - 1) as nat)
    }
}

/// The `count` low bytes of `n`, least significant first.
pub open spec fn le_bytes(n: nat, count: nat) -> Seq<nat>
    decreases count,
{
    if count == 0 {
        Seq::empty()
    } else {
        seq![n % 256].add(le_bytes(n / 256, (count - 1) as nat))
    }
}

/// The number whose bytes, least significant first, are `bytes`.
pub open spec fn from_le_bytes(bytes: Seq<nat>) -> nat
    decreases bytes.len(),
{
    if bytes.len() == 0 {
        0
    } else {
        bytes[0] + 256 * from_le_bytes(bytes.drop_first())
    }
}

/// The number that has the `count` low bytes of `n` in the opposite order.
pub open spec fn reverse_bytes(n: nat, count: nat) -> nat {
    from_le_bytes(le_bytes(n, count).reverse())
}

/// `n` without its `count` low bytes.
pub open spec fn drop_low_bytes(n: nat, count: nat) -> nat
    decreases count,
{
    if count == 0 {
        n
    } else {
        drop_low_bytes(n, (count - 1) as nat) / 256
    }
}

/// Every item of `bytes` is below 256.
pub open spec fn all_bytes(bytes: Seq<nat>) -> bool {
    forall|i: int| 0 <= i < bytes.len() ==> #[trigger] bytes[i] < 256
}

/// What a value `v` of a type with range `[min, max]` and `count` bytes becomes
/// when the bytes of its two's complement pattern are put in the opposite order.
pub open spec fn byte_swapped_value(v: int, min: int, max: int, count: nat) -> int {
    let modulus = max - min + 1;
    let pattern = if v < 0 {
        v + modulus
    } else {
        v
    };
    let swapped = reverse_bytes(pattern as nat, count) as int;
    if swapped > max {
        swapped - modulus
    } else {
        swapped
    }
}

/// The quotient of a number that is not negative is no further from zero than the
/// number, and strictly nearer if the divisor is below -1.
pub proof fn lemma_quotient_bound(x: int, d: int)
    requires
        x >= 0,
        d != 0,
    ensures
        -x <= x / d <= x,
        x > 0 && d < -1 ==> -x < x / d,
        d > 0 ==> 0 <= x / d,
{
    let q = x / d;
    let r = x % d;
    assert(x == d * q + r && 0 <= r && (d > 0 ==> r < d) && (d < 0 ==> r < -d))
        by (nonlinear_arith)
        requires
            d != 0,
            q == x / d,
            r == x % d,
    ;
    assert(-x <= q <= x && (x > 0 && d < -1 ==> -x < q) && (d > 0 ==> 0 <= q))
        by (nonlinear_arith)
        requires
            x >= 0,
            d != 0,
            x == d * q + r,
            0 <= r,
            d > 0 ==> r < d,
            d < 0 ==> r < -d,
    ;
}

/// Unless it overflows, division rounded toward zero stays within a range that is
/// that of an unsigned or of a signed type.
pub proof fn lemma_truncated_quotient_in_range(a: int, b: int, min: int, max: int)
    requires
        min <= a <= max,
        b != 0,
        min == 0 || min == -max - 1,
        !division_overflows(a, b, min),
        min == 0 ==> b > 0,
    ensures
        min <= truncated_quotient(a, b) <= max,
{
    if a >= 0 {
        lemma_quotient_bound(a, b);
    } else {
        lemma_quotient_bound(-a, b);
    }
}

pub proof fn lemma_le_bytes_len(n: nat, count: nat)
    ensures
        le_bytes(n, count).len() == count,
        all_bytes(le_bytes(n, count)),
    decreases count,
{
    if count > 0 {
        lemma_le_bytes_len(n / 256, (count - 1) as nat);
    }
}

pub proof fn lemma_from_le_bytes_bound(bytes: Seq<nat>)
    requires
        all_bytes(bytes),
    ensures
        from_le_bytes(bytes) < byte_capacity(bytes.len()),
    decreases bytes.len(),
{
    if bytes.len() > 0 {
        lemma_from_le_bytes_bound(bytes.drop_first());
    }
}

/// Splitting a number below the capacity into bytes and putting it together again
/// gives the number back.
pub proof fn lemma_from_le_bytes_of_le_bytes(n: nat, count: nat)
    requires
        n < byte_capacity(count),
    ensures
        from_le_bytes(le_bytes(n, count)) == n,
    decreases count,
{
    if count > 0 {
        lemma_from_le_bytes_of_le_bytes(n / 256, (count - 1) as nat);
        let rest = le_bytes(n / 256, (count - 1) as nat);
        assert(le_bytes(n, count).drop_first() =~= rest);
    }
}

/// Putting bytes together and splitting the number again gives the bytes back.
pub proof fn lemma_le_bytes_of_from_le_bytes(bytes: Seq<nat>)
    requires
        all_bytes(bytes),
    ensures
        le_bytes(from_le_bytes(bytes), bytes.len()) == bytes,
    decreases bytes.len(),
{
    if bytes.len() > 0 {
        let rest = bytes.drop_first();
        lemma_le_bytes_of_from_le_bytes(rest);
        let n = from_le_bytes(bytes);
        assert(n % 256 == bytes[0]);
        assert(n / 256 == from_le_bytes(rest));
        assert(le_bytes(n, bytes.len()) =~= bytes);
    } else {
        assert(le_bytes(from_le_bytes(bytes), 0) =~= bytes);
    }
}

/// Reversing the byte order yields a number of the same number of bytes.
pub proof fn lemma_reverse_bytes_bound(n: nat, count: nat)
    ensures
        reverse_bytes(n, count) < byte_capacity(count),
{
    lemma_le_bytes_len(n, count);
    let r = le_bytes(n, count).reverse();
    assert(all_bytes(r));
    lemma_from_le_bytes_bound(r);
}

/// Reversing the byte order twice gives the number back.
pub proof fn lemma_reverse_bytes_twice(n: nat, count: nat)
    requires
        n < byte_capacity(count),
    ensures
        reverse_bytes(reverse_bytes(n, count), count) == n,
{
    lemma_le_bytes_len(n, count);
    let b = le_bytes(n, count);
    let r = b.reverse();
    assert(all_bytes(r));
    lemma_le_bytes_of_from_le_bytes(r);
    assert(r.reverse() =~= b);
    lemma_from_le_bytes_of_le_bytes(n, count);
}

} // verus!

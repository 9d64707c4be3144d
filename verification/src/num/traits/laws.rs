//! Laws of the integer traits, stated over the model in which their contracts are
//! written and proved for every implementing type at once.

use vstd::prelude::*;
use vstd::arithmetic::div_mod::{lemma_mod_self_0, lemma_small_mod};
use super::model::{
    byte_capacity, byte_swapped_value, lemma_reverse_bytes_bound, lemma_reverse_bytes_twice,
    reverse_bytes, truncated_quotient, truncated_remainder,
};
use super::{AdditiveArithmetic, BinaryInteger, FixedWidthInteger};

verus! {

/// For an unsigned type, division rounded toward zero is plain division: the
/// quotient and remainder that `quotient_and_remainder_dividing_by` returns are
/// `a / b` and `a % b`.
pub proof fn lemma_unsigned_quotient_and_remainder<T: BinaryInteger>(a: T, b: T)
    requires
        T::least() == 0,
        b.value() != 0,
    ensures
        truncated_quotient(a.value(), b.value()) == a.value() / b.value(),
        truncated_remainder(a.value(), b.value()) == a.value() % b.value(),
{
    a.value_in_range();
}

/// Swapping the bytes of a value twice gives the value back, in any range of
/// `count` bytes that starts at zero or is that of two's complement.
pub proof fn lemma_byte_swapped_value_twice(v: int, min: int, max: int, count: nat)
    requires
        min <= v <= max,
        max - min + 1 == byte_capacity(count),
        min == 0 || min == -max - 1,
    ensures
        min <= byte_swapped_value(v, min, max, count) <= max,
        byte_swapped_value(byte_swapped_value(v, min, max, count), min, max, count) == v,
{
    let modulus = max - min + 1;
    let pattern = if v < 0 {
        v + modulus
    } else {
        v
    };
    let swapped = reverse_bytes(pattern as nat, count);
    lemma_reverse_bytes_bound(pattern as nat, count);
    lemma_reverse_bytes_twice(pattern as nat, count);
    let once = byte_swapped_value(v, min, max, count);
    let pattern_of_once = if once < 0 {
        once + modulus
    } else {
        once
    };
    assert(pattern_of_once == swapped);
}

/// `x.byte_swapped().byte_swapped() == x` for every fixed-width integer: what
/// `byte_swapped` returns for a value, swapped again, stands for the value.
pub proof fn lemma_byte_swapped_twice<T: FixedWidthInteger>(x: T)
    ensures
        byte_swapped_value(
            byte_swapped_value(x.value(), T::least(), T::greatest(), T::width() / 8),
            T::least(),
            T::greatest(),
            T::width() / 8,
        ) == x.value(),
{
    x.value_in_range();
    T::range_fits_width();
    lemma_byte_swapped_value_twice(x.value(), T::least(), T::greatest(), T::width() / 8);
}

/// One step past either end of the range is an overflow that wraps to the other
/// end: the greatest value plus one is the least, the least minus one the greatest.
pub proof fn lemma_overflow_at_bounds<T: FixedWidthInteger>()
    ensures
        T::wrap(T::greatest() + 1) == T::least(),
        T::wrap(T::least() - 1) == T::greatest(),
{
    let min = T::least();
    let max = T::greatest();
    let modulus = max - min + 1;
    T::range_fits_width();
    T::ZERO.value_in_range();
    T::wrap_is_wrapped(max + 1);
    T::wrap_is_wrapped(min - 1);
    if min == 0 {
        lemma_mod_self_0(modulus);
        assert((min - 1) % modulus == max) by (nonlinear_arith)
            requires
                min == 0,
                modulus == max + 1,
                max >= 1,
        ;
    } else {
        lemma_small_mod((max + 1) as nat, modulus as nat);
        assert((min - 1) % modulus == max) by (nonlinear_arith)
            requires
                min == -max - 1,
                modulus == 2 * max + 2,
                max >= 1,
        ;
    }
}

} // verus!

//! The unsigned integers as numeric types.

use vstd::prelude::*;
use super::bits::{
    count_leading_zeros, count_set_bits, count_trailing_zeros, lemma_byte_capacities,
    reverse_byte_order, target_is_big_endian,
};
use super::model::lemma_reverse_bytes_bound;
use super::{AdditiveArithmetic, BinaryInteger, FixedWidthInteger, Numeric, UnsignedInteger};

verus! {

impl AdditiveArithmetic for usize {
    const ZERO: Self = 0;

    const ONE: Self = 1;

    open spec fn value(self) -> int {
        self as int
    }

    open spec fn least() -> int {
        usize::MIN as int
    }

    open spec fn greatest() -> int {
        usize::MAX as int
    }

    proof fn identities() {
    }

    proof fn value_in_range(self) {
    }

    proof fn value_is_injective(self, other: Self) {
    }
}

impl AdditiveArithmetic for u8 {
    const ZERO: Self = 0;

    const ONE: Self = 1;

    open spec fn value(self) -> int {
        self as int
    }

    open spec fn least() -> int {
        u8::MIN as int
    }

    open spec fn greatest() -> int {
        u8::MAX as int
    }

    proof fn identities() {
    }

    proof fn value_in_range(self) {
    }

    proof fn value_is_injective(self, other: Self) {
    }
}

impl Numeric for u8 {

}

impl BinaryInteger for u8 {
    open spec fn width() -> nat {
        8
    }

    fn quotient_and_remainder_dividing_by(self, rhs: Self) -> (r: (Self, Self))
        ensures
            r.0 == self / rhs,
            r.1 == self % rhs,
    {
        (self / rhs, self % rhs)
    }

    fn is_multiple_of(self, other: Self) -> (b: bool) {
        if other == 0 {
            return false;
        }
        self % other == 0
    }

    fn signum(self) -> (r: Self) {
        if self > 0 {
            1
        } else {
            0
        }
    }

    fn is_signed() -> (b: bool) {
        false
    }

    fn bit_width(&self) -> (w: usize) {
        8
    }

    fn trailing_zero_bit_count(&self) -> (n: usize) {
        count_trailing_zeros(*self as u128, 8)
    }
}

impl FixedWidthInteger for u8 {
    open spec fn wrap(v: int) -> int {
        v % 0x100
    }

    proof fn wrap_is_wrapped(v: int) {
        assert(Self::greatest() - Self::least() + 1 == 0x100);
    }

    proof fn range_fits_width() {
        lemma_byte_capacities();
    }

    fn in_byte_order(&self, target_is_big_endian: bool, most_significant_first: bool) -> (r: Self) {
        if target_is_big_endian == most_significant_first {
            *self
        } else {
            self.byte_swapped()
        }
    }

    fn big_endian(&self) -> (r: Self) {
        self.in_byte_order(target_is_big_endian(), true)
    }

    fn byte_swapped(&self) -> (r: Self) {
        proof {
            lemma_reverse_bytes_bound(*self as nat, 1);
            lemma_byte_capacities();
        }
        reverse_byte_order(*self as u128, 1) as u8
    }

    fn leading_zero_bit_count(&self) -> (n: usize) {
        count_leading_zeros(*self as u128, 8)
    }

    fn little_endian(&self) -> (r: Self) {
        self.in_byte_order(target_is_big_endian(), false)
    }

    fn nonzero_bit_count(&self) -> (n: usize) {
        count_set_bits(*self as u128)
    }

    fn adding_reporting_overflow(&self, rhs: Self) -> (r: (Self, bool)) {
        match self.checked_add(rhs) {
            Some(sum) => (sum, false),
            None => (self.wrapping_add(rhs), true),
        }
    }

    fn divided_reporting_overflow(&self, rhs: Self) -> (r: (Self, bool)) {
        if rhs == 0 {
            (0, true)
        } else {
            (*self / rhs, false)
        }
    }

    fn multiplied_reporting_overflow(&self, rhs: Self) -> (r: (Self, bool)) {
        match self.checked_mul(rhs) {
            Some(product) => (product, false),
            None => (self.wrapping_mul(rhs), true),
        }
    }

    fn remainder_reporting_overflow(&self, rhs: Self) -> (r: (Self, bool)) {
        if rhs == 0 {
            (0, true)
        } else {
            (*self % rhs, false)
        }
    }

    fn subtracting_reporting_overflow(&self, rhs: Self) -> (r: (Self, bool)) {
        match self.checked_sub(rhs) {
            Some(difference) => (difference, false),
            None => (self.wrapping_sub(rhs), true),
        }
    }

    fn max() -> (r: Self) {
        u8::MAX
    }

    fn min() -> (r: Self) {
        u8::MIN
    }
}

impl UnsignedInteger for u8 {

}

impl AdditiveArithmetic for u16 {
    const ZERO: Self = 0;

    const ONE: Self = 1;

    open spec fn value(self) -> int {
        self as int
    }

    open spec fn least() -> int {
        u16::MIN as int
    }

    open spec fn greatest() -> int {
        u16::MAX as int
    }

    proof fn identities() {
    }

    proof fn value_in_range(self) {
    }

    proof fn value_is_injective(self, other: Self) {
    }
}

impl Numeric for u16 {

}

impl BinaryInteger for u16 {
    open spec fn width() -> nat {
        16
    }

    fn quotient_and_remainder_dividing_by(self, rhs: Self) -> (r: (Self, Self))
        ensures
            r.0 == self / rhs,
            r.1 == self % rhs,
    {
        (self / rhs, self % rhs)
    }

    fn is_multiple_of(self, other: Self) -> (b: bool) {
        if other == 0 {
            return false;
        }
        self % other == 0
    }

    fn signum(self) -> (r: Self) {
        if self > 0 {
            1
        } else {
            0
        }
    }

    fn is_signed() -> (b: bool) {
        false
    }

    fn bit_width(&self) -> (w: usize) {
        16
    }

    fn trailing_zero_bit_count(&self) -> (n: usize) {
        count_trailing_zeros(*self as u128, 16)
    }
}

impl FixedWidthInteger for u16 {
    open spec fn wrap(v: int) -> int {
        v % 0x1_0000
    }

    proof fn wrap_is_wrapped(v: int) {
        assert(Self::greatest() - Self::least() + 1 == 0x1_0000);
    }

    proof fn range_fits_width() {
        lemma_byte_capacities();
    }

    fn in_byte_order(&self, target_is_big_endian: bool, most_significant_first: bool) -> (r: Self) {
        if target_is_big_endian == most_significant_first {
            *self
        } else {
            self.byte_swapped()
        }
    }

    fn big_endian(&self) -> (r: Self) {
        self.in_byte_order(target_is_big_endian(), true)
    }

    fn byte_swapped(&self) -> (r: Self) {
        proof {
            lemma_reverse_bytes_bound(*self as nat, 2);
            lemma_byte_capacities();
        }
        reverse_byte_order(*self as u128, 2) as u16
    }

    fn leading_zero_bit_count(&self) -> (n: usize) {
        count_leading_zeros(*self as u128, 16)
    }

    fn little_endian(&self) -> (r: Self) {
        self.in_byte_order(target_is_big_endian(), false)
    }

    fn nonzero_bit_count(&self) -> (n: usize) {
        count_set_bits(*self as u128)
    }

    fn adding_reporting_overflow(&self, rhs: Self) -> (r: (Self, bool)) {
        match self.checked_add(rhs) {
            Some(sum) => (sum, false),
            None => (self.wrapping_add(rhs), true),
        }
    }

    fn divided_reporting_overflow(&self, rhs: Self) -> (r: (Self, bool)) {
        if rhs == 0 {
            (0, true)
        } else {
            (*self / rhs, false)
        }
    }

    fn multiplied_reporting_overflow(&self, rhs: Self) -> (r: (Self, bool)) {
        match self.checked_mul(rhs) {
            Some(product) => (product, false),
            None => (self.wrapping_mul(rhs), true),
        }
    }

    fn remainder_reporting_overflow(&self, rhs: Self) -> (r: (Self, bool)) {
        if rhs == 0 {
            (0, true)
        } else {
            (*self % rhs, false)
        }
    }

    fn subtracting_reporting_overflow(&self, rhs: Self) -> (r: (Self, bool)) {
        match self.checked_sub(rhs) {
            Some(difference) => (difference, false),
            None => (self.wrapping_sub(rhs), true),
        }
    }

    fn max() -> (r: Self) {
        u16::MAX
    }

    fn min() -> (r: Self) {
        u16::MIN
    }
}

impl UnsignedInteger for u16 {

}

impl AdditiveArithmetic for u32 {
    const ZERO: Self = 0;

    const ONE: Self = 1;

    open spec fn value(self) -> int {
        self as int
    }

    open spec fn least() -> int {
        u32::MIN as int
    }

    open spec fn greatest() -> int {
        u32::MAX as int
    }

    proof fn identities() {
    }

    proof fn value_in_range(self) {
    }

    proof fn value_is_injective(self, other: Self) {
    }
}

impl Numeric for u32 {

}

impl BinaryInteger for u32 {
    open spec fn width() -> nat {
        32
    }

    fn quotient_and_remainder_dividing_by(self, rhs: Self) -> (r: (Self, Self))
        ensures
            r.0 == self / rhs,
            r.1 == self % rhs,
    {
        (self / rhs, self % rhs)
    }

    fn is_multiple_of(self, other: Self) -> (b: bool) {
        if other == 0 {
            return false;
        }
        self % other == 0
    }

    fn signum(self) -> (r: Self) {
        if self > 0 {
            1
        } else {
            0
        }
    }

    fn is_signed() -> (b: bool) {
        false
    }

    fn bit_width(&self) -> (w: usize) {
        32
    }

    fn trailing_zero_bit_count(&self) -> (n: usize) {
        count_trailing_zeros(*self as u128, 32)
    }
}

impl FixedWidthInteger for u32 {
    open spec fn wrap(v: int) -> int {
        v % 0x1_0000_0000
    }

    proof fn wrap_is_wrapped(v: int) {
        assert(Self::greatest() - Self::least() + 1 == 0x1_0000_0000);
    }

    proof fn range_fits_width() {
        lemma_byte_capacities();
    }

    fn in_byte_order(&self, target_is_big_endian: bool, most_significant_first: bool) -> (r: Self) {
        if target_is_big_endian == most_significant_first {
            *self
        } else {
            self.byte_swapped()
        }
    }

    fn big_endian(&self) -> (r: Self) {
        self.in_byte_order(target_is_big_endian(), true)
    }

    fn byte_swapped(&self) -> (r: Self) {
        proof {
            lemma_reverse_bytes_bound(*self as nat, 4);
            lemma_byte_capacities();
        }
        reverse_byte_order(*self as u128, 4) as u32
    }

    fn leading_zero_bit_count(&self) -> (n: usize) {
        count_leading_zeros(*self as u128, 32)
    }

    fn little_endian(&self) -> (r: Self) {
        self.in_byte_order(target_is_big_endian(), false)
    }

    fn nonzero_bit_count(&self) -> (n: usize) {
        count_set_bits(*self as u128)
    }

    fn adding_reporting_overflow(&self, rhs: Self) -> (r: (Self, bool)) {
        match self.checked_add(rhs) {
            Some(sum) => (sum, false),
            None => (self.wrapping_add(rhs), true),
        }
    }

    fn divided_reporting_overflow(&self, rhs: Self) -> (r: (Self, bool)) {
        if rhs == 0 {
            (0, true)
        } else {
            (*self / rhs, false)
        }
    }

    fn multiplied_reporting_overflow(&self, rhs: Self) -> (r: (Self, bool)) {
        match self.checked_mul(rhs) {
            Some(product) => (product, false),
            None => (self.wrapping_mul(rhs), true),
        }
    }

    fn remainder_reporting_overflow(&self, rhs: Self) -> (r: (Self, bool)) {
        if rhs == 0 {
            (0, true)
        } else {
            (*self % rhs, false)
        }
    }

    fn subtracting_reporting_overflow(&self, rhs: Self) -> (r: (Self, bool)) {
        match self.checked_sub(rhs) {
            Some(difference) => (difference, false),
            None => (self.wrapping_sub(rhs), true),
        }
    }

    fn max() -> (r: Self) {
        u32::MAX
    }

    fn min() -> (r: Self) {
        u32::MIN
    }
}

impl UnsignedInteger for u32 {

}

impl AdditiveArithmetic for u64 {
    const ZERO: Self = 0;

    const ONE: Self = 1;

    open spec fn value(self) -> int {
        self as int
    }

    open spec fn least() -> int {
        u64::MIN as int
    }

    open spec fn greatest() -> int {
        u64::MAX as int
    }

    proof fn identities() {
    }

    proof fn value_in_range(self) {
    }

    proof fn value_is_injective(self, other: Self) {
    }
}

impl Numeric for u64 {

}

impl BinaryInteger for u64 {
    open spec fn width() -> nat {
        64
    }

    fn quotient_and_remainder_dividing_by(self, rhs: Self) -> (r: (Self, Self))
        ensures
            r.0 == self / rhs,
            r.1 == self % rhs,
    {
        (self / rhs, self % rhs)
    }

    fn is_multiple_of(self, other: Self) -> (b: bool) {
        if other == 0 {
            return false;
        }
        self % other == 0
    }

    fn signum(self) -> (r: Self) {
        if self > 0 {
            1
        } else {
            0
        }
    }

    fn is_signed() -> (b: bool) {
        false
    }

    fn bit_width(&self) -> (w: usize) {
        64
    }

    fn trailing_zero_bit_count(&self) -> (n: usize) {
        count_trailing_zeros(*self as u128, 64)
    }
}

impl FixedWidthInteger for u64 {
    open spec fn wrap(v: int) -> int {
        v % 0x1_0000_0000_0000_0000
    }

    proof fn wrap_is_wrapped(v: int) {
        assert(Self::greatest() - Self::least() + 1 == 0x1_0000_0000_0000_0000);
    }

    proof fn range_fits_width() {
        lemma_byte_capacities();
    }

    fn in_byte_order(&self, target_is_big_endian: bool, most_significant_first: bool) -> (r: Self) {
        if target_is_big_endian == most_significant_first {
            *self
        } else {
            self.byte_swapped()
        }
    }

    fn big_endian(&self) -> (r: Self) {
        self.in_byte_order(target_is_big_endian(), true)
    }

    fn byte_swapped(&self) -> (r: Self) {
        proof {
            lemma_reverse_bytes_bound(*self as nat, 8);
            lemma_byte_capacities();
        }
        reverse_byte_order(*self as u128, 8) as u64
    }

    fn leading_zero_bit_count(&self) -> (n: usize) {
        count_leading_zeros(*self as u128, 64)
    }

    fn little_endian(&self) -> (r: Self) {
        self.in_byte_order(target_is_big_endian(), false)
    }

    fn nonzero_bit_count(&self) -> (n: usize) {
        count_set_bits(*self as u128)
    }

    fn adding_reporting_overflow(&self, rhs: Self) -> (r: (Self, bool)) {
        match self.checked_add(rhs) {
            Some(sum) => (sum, false),
            None => (self.wrapping_add(rhs), true),
        }
    }

    fn divided_reporting_overflow(&self, rhs: Self) -> (r: (Self, bool)) {
        if rhs == 0 {
            (0, true)
        } else {
            (*self / rhs, false)
        }
    }

    fn multiplied_reporting_overflow(&self, rhs: Self) -> (r: (Self, bool)) {
        match self.checked_mul(rhs) {
            Some(product) => (product, false),
            None => (self.wrapping_mul(rhs), true),
        }
    }

    fn remainder_reporting_overflow(&self, rhs: Self) -> (r: (Self, bool)) {
        if rhs == 0 {
            (0, true)
        } else {
            (*self % rhs, false)
        }
    }

    fn subtracting_reporting_overflow(&self, rhs: Self) -> (r: (Self, bool)) {
        match self.checked_sub(rhs) {
            Some(difference) => (difference, false),
            None => (self.wrapping_sub(rhs), true),
        }
    }

    fn max() -> (r: Self) {
        u64::MAX
    }

    fn min() -> (r: Self) {
        u64::MIN
    }
}

impl UnsignedInteger for u64 {

}

impl AdditiveArithmetic for u128 {
    const ZERO: Self = 0;

    const ONE: Self = 1;

    open spec fn value(self) -> int {
        self as int
    }

    open spec fn least() -> int {
        u128::MIN as int
    }

    open spec fn greatest() -> int {
        u128::MAX as int
    }

    proof fn identities() {
    }

    proof fn value_in_range(self) {
    }

    proof fn value_is_injective(self, other: Self) {
    }
}

impl Numeric for u128 {

}

impl BinaryInteger for u128 {
    open spec fn width() -> nat {
        128
    }

    fn quotient_and_remainder_dividing_by(self, rhs: Self) -> (r: (Self, Self))
        ensures
            r.0 == self / rhs,
            r.1 == self % rhs,
    {
        (self / rhs, self % rhs)
    }

    fn is_multiple_of(self, other: Self) -> (b: bool) {
        if other == 0 {
            return false;
        }
        self % other == 0
    }

    fn signum(self) -> (r: Self) {
        if self > 0 {
            1
        } else {
            0
        }
    }

    fn is_signed() -> (b: bool) {
        false
    }

    fn bit_width(&self) -> (w: usize) {
        128
    }

    fn trailing_zero_bit_count(&self) -> (n: usize) {
        count_trailing_zeros(*self, 128)
    }
}

impl FixedWidthInteger for u128 {
    open spec fn wrap(v: int) -> int {
        v % 0x1_0000_0000_0000_0000_0000_0000_0000_0000int
    }

    proof fn wrap_is_wrapped(v: int) {
        assert(Self::greatest() - Self::least() + 1 == 0x1_0000_0000_0000_0000_0000_0000_0000_0000);
    }

    proof fn range_fits_width() {
        lemma_byte_capacities();
    }

    fn in_byte_order(&self, target_is_big_endian: bool, most_significant_first: bool) -> (r: Self) {
        if target_is_big_endian == most_significant_first {
            *self
        } else {
            self.byte_swapped()
        }
    }

    fn big_endian(&self) -> (r: Self) {
        self.in_byte_order(target_is_big_endian(), true)
    }

    fn byte_swapped(&self) -> (r: Self) {
        proof {
            lemma_reverse_bytes_bound(*self as nat, 16);
            lemma_byte_capacities();
        }
        reverse_byte_order(*self, 16)
    }

    fn leading_zero_bit_count(&self) -> (n: usize) {
        count_leading_zeros(*self, 128)
    }

    fn little_endian(&self) -> (r: Self) {
        self.in_byte_order(target_is_big_endian(), false)
    }

    fn nonzero_bit_count(&self) -> (n: usize) {
        count_set_bits(*self)
    }

    fn adding_reporting_overflow(&self, rhs: Self) -> (r: (Self, bool)) {
        match self.checked_add(rhs) {
            Some(sum) => (sum, false),
            None => (self.wrapping_add(rhs), true),
        }
    }

    fn divided_reporting_overflow(&self, rhs: Self) -> (r: (Self, bool)) {
        if rhs == 0 {
            (0, true)
        } else {
            (*self / rhs, false)
        }
    }

    fn multiplied_reporting_overflow(&self, rhs: Self) -> (r: (Self, bool)) {
        match self.checked_mul(rhs) {
            Some(product) => (product, false),
            None => (self.wrapping_mul(rhs), true),
        }
    }

    fn remainder_reporting_overflow(&self, rhs: Self) -> (r: (Self, bool)) {
        if rhs == 0 {
            (0, true)
        } else {
            (*self % rhs, false)
        }
    }

    fn subtracting_reporting_overflow(&self, rhs: Self) -> (r: (Self, bool)) {
        match self.checked_sub(rhs) {
            Some(difference) => (difference, false),
            None => (self.wrapping_sub(rhs), true),
        }
    }

    fn max() -> (r: Self) {
        u128::MAX
    }

    fn min() -> (r: Self) {
        u128::MIN
    }
}

impl UnsignedInteger for u128 {

}

} // verus!

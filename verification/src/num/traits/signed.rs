//! The signed integers as numeric types.

use vstd::prelude::*;
use super::bits::{
    count_leading_zeros, count_set_bits, count_trailing_zeros, lemma_byte_capacities,
    reverse_byte_order, target_is_big_endian, unsigned_magnitude,
};
use super::model::{lemma_reverse_bytes_bound, lemma_truncated_quotient_in_range};
use super::{
    AdditiveArithmetic, BinaryInteger, FixedWidthInteger, Numeric, SignedInteger, SignedNumeric,
};

verus! {

impl AdditiveArithmetic for isize {
    const ZERO: Self = 0;

    const ONE: Self = 1;

    open spec fn value(self) -> int {
        self as int
    }

    open spec fn least() -> int {
        isize::MIN as int
    }

    open spec fn greatest() -> int {
        isize::MAX as int
    }

    proof fn identities() {
    }

    proof fn value_in_range(self) {
    }

    proof fn value_is_injective(self, other: Self) {
    }
}

impl AdditiveArithmetic for i8 {
    const ZERO: Self = 0;

    const ONE: Self = 1;

    open spec fn value(self) -> int {
        self as int
    }

    open spec fn least() -> int {
        i8::MIN as int
    }

    open spec fn greatest() -> int {
        i8::MAX as int
    }

    proof fn identities() {
    }

    proof fn value_in_range(self) {
    }

    proof fn value_is_injective(self, other: Self) {
    }
}

impl Numeric for i8 {

}

impl SignedNumeric for i8 {
    fn negate(&mut self) {
        *self = -*self;
    }
}

impl BinaryInteger for i8 {
    open spec fn width() -> nat {
        8
    }

    fn quotient_and_remainder_dividing_by(self, rhs: Self) -> (r: (Self, Self)) {
        proof {
            lemma_truncated_quotient_in_range(
                self as int,
                rhs as int,
                Self::least(),
                Self::greatest(),
            );
        }
        (self / rhs, self % rhs)
    }

    fn is_multiple_of(self, other: Self) -> (b: bool) {
        if other == 0 {
            return false;
        }
        if other == -1 {
            return true;
        }
        self % other == 0
    }

    fn signum(self) -> (r: Self) {
        if self < 0 {
            -1
        } else if self > 0 {
            1
        } else {
            0
        }
    }

    fn is_signed() -> (b: bool) {
        true
    }

    fn bit_width(&self) -> (w: usize) {
        8
    }

    fn trailing_zero_bit_count(&self) -> (n: usize) {
        count_trailing_zeros(unsigned_magnitude(*self as i128), 8)
    }
}

impl FixedWidthInteger for i8 {
    open spec fn wrap(v: int) -> int {
        let r = v % 0x100;
        if r > 0x7f {
            r - 0x100
        } else {
            r
        }
    }

    proof fn wrap_is_wrapped(v: int) {
        assert(Self::greatest() - Self::least() + 1 == 0x100);
    }

    proof fn range_fits_width() {
        lemma_byte_capacities();
    }

    fn in_byte_order(&self, target_is_big_endian: bool, most_significant_first: bool) -> (r: Self) {
        if target_is_big_endian == most_significant_first {
            *self
        } else {
            self.byte_swapped()
        }
    }

    fn big_endian(&self) -> (r: Self) {
        self.in_byte_order(target_is_big_endian(), true)
    }

    fn byte_swapped(&self) -> (r: Self) {
        let pattern: u128 = if *self < 0 {
            (*self as i128 + 0x100) as u128
        } else {
            *self as u128
        };
        proof {
            lemma_reverse_bytes_bound(pattern as nat, 1);
            lemma_byte_capacities();
        }
        let swapped = reverse_byte_order(pattern, 1);
        if swapped > 0x7f {
            (swapped as i128 - 0x100) as i8
        } else {
            swapped as i8
        }
    }

    fn leading_zero_bit_count(&self) -> (n: usize) {
        count_leading_zeros(unsigned_magnitude(*self as i128), 8)
    }

    fn little_endian(&self) -> (r: Self) {
        self.in_byte_order(target_is_big_endian(), false)
    }

    fn nonzero_bit_count(&self) -> (n: usize) {
        count_set_bits(unsigned_magnitude(*self as i128))
    }

    fn adding_reporting_overflow(&self, rhs: Self) -> (r: (Self, bool)) {
        match self.checked_add(rhs) {
            Some(sum) => (sum, false),
            None => (self.wrapping_add(rhs), true),
        }
    }

    fn divided_reporting_overflow(&self, rhs: Self) -> (r: (Self, bool)) {
        if rhs == 0 {
            (0, true)
        } else if *self == i8::MIN && rhs == -1 {
            (i8::MIN, true)
        } else {
            proof {
                lemma_truncated_quotient_in_range(
                    *self as int,
                    rhs as int,
                    Self::least(),
                    Self::greatest(),
                );
            }
            (*self / rhs, false)
        }
    }

    fn multiplied_reporting_overflow(&self, rhs: Self) -> (r: (Self, bool)) {
        match self.checked_mul(rhs) {
            Some(product) => (product, false),
            None => (self.wrapping_mul(rhs), true),
        }
    }

    fn remainder_reporting_overflow(&self, rhs: Self) -> (r: (Self, bool)) {
        if rhs == 0 {
            (0, true)
        } else if *self == i8::MIN && rhs == -1 {
            (0, true)
        } else {
            (*self % rhs, false)
        }
    }

    fn subtracting_reporting_overflow(&self, rhs: Self) -> (r: (Self, bool)) {
        match self.checked_sub(rhs) {
            Some(difference) => (difference, false),
            None => (self.wrapping_sub(rhs), true),
        }
    }

    fn max() -> (r: Self) {
        i8::MAX
    }

    fn min() -> (r: Self) {
        i8::MIN
    }
}

impl SignedInteger for i8 {

}

impl AdditiveArithmetic for i16 {
    const ZERO: Self = 0;

    const ONE: Self = 1;

    open spec fn value(self) -> int {
        self as int
    }

    open spec fn least() -> int {
        i16::MIN as int
    }

    open spec fn greatest() -> int {
        i16::MAX as int
    }

    proof fn identities() {
    }

    proof fn value_in_range(self) {
    }

    proof fn value_is_injective(self, other: Self) {
    }
}

impl Numeric for i16 {

}

impl SignedNumeric for i16 {
    fn negate(&mut self) {
        *self = -*self;
    }
}

impl BinaryInteger for i16 {
    open spec fn width() -> nat {
        16
    }

    fn quotient_and_remainder_dividing_by(self, rhs: Self) -> (r: (Self, Self)) {
        proof {
            lemma_truncated_quotient_in_range(
                self as int,
                rhs as int,
                Self::least(),
                Self::greatest(),
            );
        }
        (self / rhs, self % rhs)
    }

    fn is_multiple_of(self, other: Self) -> (b: bool) {
        if other == 0 {
            return false;
        }
        if other == -1 {
            return true;
        }
        self % other == 0
    }

    fn signum(self) -> (r: Self) {
        if self < 0 {
            -1
        } else if self > 0 {
            1
        } else {
            0
        }
    }

    fn is_signed() -> (b: bool) {
        true
    }

    fn bit_width(&self) -> (w: usize) {
        16
    }

    fn trailing_zero_bit_count(&self) -> (n: usize) {
        count_trailing_zeros(unsigned_magnitude(*self as i128), 16)
    }
}

impl FixedWidthInteger for i16 {
    open spec fn wrap(v: int) -> int {
        let r = v % 0x1_0000;
        if r > 0x7fff {
            r - 0x1_0000
        } else {
            r
        }
    }

    proof fn wrap_is_wrapped(v: int) {
        assert(Self::greatest() - Self::least() + 1 == 0x1_0000);
    }

    proof fn range_fits_width() {
        lemma_byte_capacities();
    }

    fn in_byte_order(&self, target_is_big_endian: bool, most_significant_first: bool) -> (r: Self) {
        if target_is_big_endian == most_significant_first {
            *self
        } else {
            self.byte_swapped()
        }
    }

    fn big_endian(&self) -> (r: Self) {
        self.in_byte_order(target_is_big_endian(), true)
    }

    fn byte_swapped(&self) -> (r: Self) {
        let pattern: u128 = if *self < 0 {
            (*self as i128 + 0x1_0000) as u128
        } else {
            *self as u128
        };
        proof {
            lemma_reverse_bytes_bound(pattern as nat, 2);
            lemma_byte_capacities();
        }
        let swapped = reverse_byte_order(pattern, 2);
        if swapped > 0x7fff {
            (swapped as i128 - 0x1_0000) as i16
        } else {
            swapped as i16
        }
    }

    fn leading_zero_bit_count(&self) -> (n: usize) {
        count_leading_zeros(unsigned_magnitude(*self as i128), 16)
    }

    fn little_endian(&self) -> (r: Self) {
        self.in_byte_order(target_is_big_endian(), false)
    }

    fn nonzero_bit_count(&self) -> (n: usize) {
        count_set_bits(unsigned_magnitude(*self as i128))
    }

    fn adding_reporting_overflow(&self, rhs: Self) -> (r: (Self, bool)) {
        match self.checked_add(rhs) {
            Some(sum) => (sum, false),
            None => (self.wrapping_add(rhs), true),
        }
    }

    fn divided_reporting_overflow(&self, rhs: Self) -> (r: (Self, bool)) {
        if rhs == 0 {
            (0, true)
        } else if *self == i16::MIN && rhs == -1 {
            (i16::MIN, true)
        } else {
            proof {
                lemma_truncated_quotient_in_range(
                    *self as int,
                    rhs as int,
                    Self::least(),
                    Self::greatest(),
                );
            }
            (*self / rhs, false)
        }
    }

    fn multiplied_reporting_overflow(&self, rhs: Self) -> (r: (Self, bool)) {
        match self.checked_mul(rhs) {
            Some(product) => (product, false),
            None => (self.wrapping_mul(rhs), true),
        }
    }

    fn remainder_reporting_overflow(&self, rhs: Self) -> (r: (Self, bool)) {
        if rhs == 0 {
            (0, true)
        } else if *self == i16::MIN && rhs == -1 {
            (0, true)
        } else {
            (*self % rhs, false)
        }
    }

    fn subtracting_reporting_overflow(&self, rhs: Self) -> (r: (Self, bool)) {
        match self.checked_sub(rhs) {
            Some(difference) => (difference, false),
            None => (self.wrapping_sub(rhs), true),
        }
    }

    fn max() -> (r: Self) {
        i16::MAX
    }

    fn min() -> (r: Self) {
        i16::MIN
    }
}

impl SignedInteger for i16 {

}

impl AdditiveArithmetic for i32 {
    const ZERO: Self = 0;

    const ONE: Self = 1;

    open spec fn value(self) -> int {
        self as int
    }

    open spec fn least() -> int {
        i32::MIN as int
    }

    open spec fn greatest() -> int {
        i32::MAX as int
    }

    proof fn identities() {
    }

    proof fn value_in_range(self) {
    }

    proof fn value_is_injective(self, other: Self) {
    }
}

impl Numeric for i32 {

}

impl SignedNumeric for i32 {
    fn negate(&mut self) {
        *self = -*self;
    }
}

impl BinaryInteger for i32 {
    open spec fn width() -> nat {
        32
    }

    fn quotient_and_remainder_dividing_by(self, rhs: Self) -> (r: (Self, Self)) {
        proof {
            lemma_truncated_quotient_in_range(
                self as int,
                rhs as int,
                Self::least(),
                Self::greatest(),
            );
        }
        (self / rhs, self % rhs)
    }

    fn is_multiple_of(self, other: Self) -> (b: bool) {
        if other == 0 {
            return false;
        }
        if other == -1 {
            return true;
        }
        self % other == 0
    }

    fn signum(self) -> (r: Self) {
        if self < 0 {
            -1
        } else if self > 0 {
            1
        } else {
            0
        }
    }

    fn is_signed() -> (b: bool) {
        true
    }

    fn bit_width(&self) -> (w: usize) {
        32
    }

    fn trailing_zero_bit_count(&self) -> (n: usize) {
        count_trailing_zeros(unsigned_magnitude(*self as i128), 32)
    }
}

impl FixedWidthInteger for i32 {
    open spec fn wrap(v: int) -> int {
        let r = v % 0x1_0000_0000;
        if r > 0x7fff_ffff {
            r - 0x1_0000_0000
        } else {
            r
        }
    }

    proof fn wrap_is_wrapped(v: int) {
        assert(Self::greatest() - Self::least() + 1 == 0x1_0000_0000);
    }

    proof fn range_fits_width() {
        lemma_byte_capacities();
    }

    fn in_byte_order(&self, target_is_big_endian: bool, most_significant_first: bool) -> (r: Self) {
        if target_is_big_endian == most_significant_first {
            *self
        } else {
            self.byte_swapped()
        }
    }

    fn big_endian(&self) -> (r: Self) {
        self.in_byte_order(target_is_big_endian(), true)
    }

    fn byte_swapped(&self) -> (r: Self) {
        let pattern: u128 = if *self < 0 {
            (*self as i128 + 0x1_0000_0000) as u128
        } else {
            *self as u128
        };
        proof {
            lemma_reverse_bytes_bound(pattern as nat, 4);
            lemma_byte_capacities();
        }
        let swapped = reverse_byte_order(pattern, 4);
        if swapped > 0x7fff_ffff {
            (swapped as i128 - 0x1_0000_0000) as i32
        } else {
            swapped as i32
        }
    }

    fn leading_zero_bit_count(&self) -> (n: usize) {
        count_leading_zeros(unsigned_magnitude(*self as i128), 32)
    }

    fn little_endian(&self) -> (r: Self) {
        self.in_byte_order(target_is_big_endian(), false)
    }

    fn nonzero_bit_count(&self) -> (n: usize) {
        count_set_bits(unsigned_magnitude(*self as i128))
    }

    fn adding_reporting_overflow(&self, rhs: Self) -> (r: (Self, bool)) {
        match self.checked_add(rhs) {
            Some(sum) => (sum, false),
            None => (self.wrapping_add(rhs), true),
        }
    }

    fn divided_reporting_overflow(&self, rhs: Self) -> (r: (Self, bool)) {
        if rhs == 0 {
            (0, true)
        } else if *self == i32::MIN && rhs == -1 {
            (i32::MIN, true)
        } else {
            proof {
                lemma_truncated_quotient_in_range(
                    *self as int,
                    rhs as int,
                    Self::least(),
                    Self::greatest(),
                );
            }
            (*self / rhs, false)
        }
    }

    fn multiplied_reporting_overflow(&self, rhs: Self) -> (r: (Self, bool)) {
        match self.checked_mul(rhs) {
            Some(product) => (product, false),
            None => (self.wrapping_mul(rhs), true),
        }
    }

    fn remainder_reporting_overflow(&self, rhs: Self) -> (r: (Self, bool)) {
        if rhs == 0 {
            (0, true)
        } else if *self == i32::MIN && rhs == -1 {
            (0, true)
        } else {
            (*self % rhs, false)
        }
    }

    fn subtracting_reporting_overflow(&self, rhs: Self) -> (r: (Self, bool)) {
        match self.checked_sub(rhs) {
            Some(difference) => (difference, false),
            None => (self.wrapping_sub(rhs), true),
        }
    }

    fn max() -> (r: Self) {
        i32::MAX
    }

    fn min() -> (r: Self) {
        i32::MIN
    }
}

impl SignedInteger for i32 {

}

impl AdditiveArithmetic for i64 {
    const ZERO: Self = 0;

    const ONE: Self = 1;

    open spec fn value(self) -> int {
        self as int
    }

    open spec fn least() -> int {
        i64::MIN as int
    }

    open spec fn greatest() -> int {
        i64::MAX as int
    }

    proof fn identities() {
    }

    proof fn value_in_range(self) {
    }

    proof fn value_is_injective(self, other: Self) {
    }
}

impl Numeric for i64 {

}

impl SignedNumeric for i64 {
    fn negate(&mut self) {
        *self = -*self;
    }
}

impl BinaryInteger for i64 {
    open spec fn width() -> nat {
        64
    }

    fn quotient_and_remainder_dividing_by(self, rhs: Self) -> (r: (Self, Self)) {
        proof {
            lemma_truncated_quotient_in_range(
                self as int,
                rhs as int,
                Self::least(),
                Self::greatest(),
            );
        }
        (self / rhs, self % rhs)
    }

    fn is_multiple_of(self, other: Self) -> (b: bool) {
        if other == 0 {
            return false;
        }
        if other == -1 {
            return true;
        }
        self % other == 0
    }

    fn signum(self) -> (r: Self) {
        if self < 0 {
            -1
        } else if self > 0 {
            1
        } else {
            0
        }
    }

    fn is_signed() -> (b: bool) {
        true
    }

    fn bit_width(&self) -> (w: usize) {
        64
    }

    fn trailing_zero_bit_count(&self) -> (n: usize) {
        count_trailing_zeros(unsigned_magnitude(*self as i128), 64)
    }
}

impl FixedWidthInteger for i64 {
    open spec fn wrap(v: int) -> int {
        let r = v % 0x1_0000_0000_0000_0000;
        if r > 0x7fff_ffff_ffff_ffff {
            r - 0x1_0000_0000_0000_0000
        } else {
            r
        }
    }

    proof fn wrap_is_wrapped(v: int) {
        assert(Self::greatest() - Self::least() + 1 == 0x1_0000_0000_0000_0000);
    }

    proof fn range_fits_width() {
        lemma_byte_capacities();
    }

    fn in_byte_order(&self, target_is_big_endian: bool, most_significant_first: bool) -> (r: Self) {
        if target_is_big_endian == most_significant_first {
            *self
        } else {
            self.byte_swapped()
        }
    }

    fn big_endian(&self) -> (r: Self) {
        self.in_byte_order(target_is_big_endian(), true)
    }

    fn byte_swapped(&self) -> (r: Self) {
        let pattern: u128 = if *self < 0 {
            (*self as i128 + 0x1_0000_0000_0000_0000) as u128
        } else {
            *self as u128
        };
        proof {
            lemma_reverse_bytes_bound(pattern as nat, 8);
            lemma_byte_capacities();
        }
        let swapped = reverse_byte_order(pattern, 8);
        if swapped > 0x7fff_ffff_ffff_ffff {
            (swapped as i128 - 0x1_0000_0000_0000_0000) as i64
        } else {
            swapped as i64
        }
    }

    fn leading_zero_bit_count(&self) -> (n: usize) {
        count_leading_zeros(unsigned_magnitude(*self as i128), 64)
    }

    fn little_endian(&self) -> (r: Self) {
        self.in_byte_order(target_is_big_endian(), false)
    }

    fn nonzero_bit_count(&self) -> (n: usize) {
        count_set_bits(unsigned_magnitude(*self as i128))
    }

    fn adding_reporting_overflow(&self, rhs: Self) -> (r: (Self, bool)) {
        match self.checked_add(rhs) {
            Some(sum) => (sum, false),
            None => (self.wrapping_add(rhs), true),
        }
    }

    fn divided_reporting_overflow(&self, rhs: Self) -> (r: (Self, bool)) {
        if rhs == 0 {
            (0, true)
        } else if *self == i64::MIN && rhs == -1 {
            (i64::MIN, true)
        } else {
            proof {
                lemma_truncated_quotient_in_range(
                    *self as int,
                    rhs as int,
                    Self::least(),
                    Self::greatest(),
                );
            }
            (*self / rhs, false)
        }
    }

    fn multiplied_reporting_overflow(&self, rhs: Self) -> (r: (Self, bool)) {
        match self.checked_mul(rhs) {
            Some(product) => (product, false),
            None => (self.wrapping_mul(rhs), true),
        }
    }

    fn remainder_reporting_overflow(&self, rhs: Self) -> (r: (Self, bool)) {
        if rhs == 0 {
            (0, true)
        } else if *self == i64::MIN && rhs == -1 {
            (0, true)
        } else {
            (*self % rhs, false)
        }
    }

    fn subtracting_reporting_overflow(&self, rhs: Self) -> (r: (Self, bool)) {
        match self.checked_sub(rhs) {
            Some(difference) => (difference, false),
            None => (self.wrapping_sub(rhs), true),
        }
    }

    fn max() -> (r: Self) {
        i64::MAX
    }

    fn min() -> (r: Self) {
        i64::MIN
    }
}

impl SignedInteger for i64 {

}

impl AdditiveArithmetic for i128 {
    const ZERO: Self = 0;

    const ONE: Self = 1;

    open spec fn value(self) -> int {
        self as int
    }

    open spec fn least() -> int {
        i128::MIN as int
    }

    open spec fn greatest() -> int {
        i128::MAX as int
    }

    proof fn identities() {
    }

    proof fn value_in_range(self) {
    }

    proof fn value_is_injective(self, other: Self) {
    }
}

impl Numeric for i128 {

}

impl SignedNumeric for i128 {
    fn negate(&mut self) {
        *self = -*self;
    }
}

impl BinaryInteger for i128 {
    open spec fn width() -> nat {
        128
    }

    fn quotient_and_remainder_dividing_by(self, rhs: Self) -> (r: (Self, Self)) {
        proof {
            lemma_truncated_quotient_in_range(
                self as int,
                rhs as int,
                Self::least(),
                Self::greatest(),
            );
        }
        (self / rhs, self % rhs)
    }

    fn is_multiple_of(self, other: Self) -> (b: bool) {
        if other == 0 {
            return false;
        }
        if other == -1 {
            return true;
        }
        self % other == 0
    }

    fn signum(self) -> (r: Self) {
        if self < 0 {
            -1
        } else if self > 0 {
            1
        } else {
            0
        }
    }

    fn is_signed() -> (b: bool) {
        true
    }

    fn bit_width(&self) -> (w: usize) {
        128
    }

    fn trailing_zero_bit_count(&self) -> (n: usize) {
        count_trailing_zeros(unsigned_magnitude(*self), 128)
    }
}

impl FixedWidthInteger for i128 {
    open spec fn wrap(v: int) -> int {
        let r = v % 0x1_0000_0000_0000_0000_0000_0000_0000_0000int;
        if r > 0x7fff_ffff_ffff_ffff_ffff_ffff_ffff_ffff {
            r - 0x1_0000_0000_0000_0000_0000_0000_0000_0000int
        } else {
            r
        }
    }

    proof fn wrap_is_wrapped(v: int) {
        assert(Self::greatest() - Self::least() + 1 == 0x1_0000_0000_0000_0000_0000_0000_0000_0000);
    }

    proof fn range_fits_width() {
        lemma_byte_capacities();
    }

    fn in_byte_order(&self, target_is_big_endian: bool, most_significant_first: bool) -> (r: Self) {
        if target_is_big_endian == most_significant_first {
            *self
        } else {
            self.byte_swapped()
        }
    }

    fn big_endian(&self) -> (r: Self) {
        self.in_byte_order(target_is_big_endian(), true)
    }

    fn byte_swapped(&self) -> (r: Self) {
        let pattern: u128 = if *self < 0 {
            (*self - i128::MIN) as u128 + 0x8000_0000_0000_0000_0000_0000_0000_0000
        } else {
            *self as u128
        };
        proof {
            lemma_reverse_bytes_bound(pattern as nat, 16);
            lemma_byte_capacities();
        }
        let swapped = reverse_byte_order(pattern, 16);
        if swapped > 0x7fff_ffff_ffff_ffff_ffff_ffff_ffff_ffff {
            (swapped - 0x8000_0000_0000_0000_0000_0000_0000_0000) as i128 + i128::MIN
        } else {
            swapped as i128
        }
    }

    fn leading_zero_bit_count(&self) -> (n: usize) {
        count_leading_zeros(unsigned_magnitude(*self), 128)
    }

    fn little_endian(&self) -> (r: Self) {
        self.in_byte_order(target_is_big_endian(), false)
    }

    fn nonzero_bit_count(&self) -> (n: usize) {
        count_set_bits(unsigned_magnitude(*self))
    }

    fn adding_reporting_overflow(&self, rhs: Self) -> (r: (Self, bool)) {
        match self.checked_add(rhs) {
            Some(sum) => (sum, false),
            None => (self.wrapping_add(rhs), true),
        }
    }

    fn divided_reporting_overflow(&self, rhs: Self) -> (r: (Self, bool)) {
        if rhs == 0 {
            (0, true)
        } else if *self == i128::MIN && rhs == -1 {
            (i128::MIN, true)
        } else {
            proof {
                lemma_truncated_quotient_in_range(
                    *self as int,
                    rhs as int,
                    Self::least(),
                    Self::greatest(),
                );
            }
            (*self / rhs, false)
        }
    }

    fn multiplied_reporting_overflow(&self, rhs: Self) -> (r: (Self, bool)) {
        match self.checked_mul(rhs) {
            Some(product) => (product, false),
            None => (self.wrapping_mul(rhs), true),
        }
    }

    fn remainder_reporting_overflow(&self, rhs: Self) -> (r: (Self, bool)) {
        if rhs == 0 {
            (0, true)
        } else if *self == i128::MIN && rhs == -1 {
            (0, true)
        } else {
            (*self % rhs, false)
        }
    }

    fn subtracting_reporting_overflow(&self, rhs: Self) -> (r: (Self, bool)) {
        match self.checked_sub(rhs) {
            Some(difference) => (difference, false),
            None => (self.wrapping_sub(rhs), true),
        }
    }

    fn max() -> (r: Self) {
        i128::MAX
    }

    fn min() -> (r: Self) {
        i128::MIN
    }
}

impl SignedInteger for i128 {

}

} // verus!

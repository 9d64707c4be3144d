use libx::num::traits::{
    AdditiveArithmetic, BinaryInteger, FixedWidthInteger, SignedNumeric,
};
use libx::num::traits::binary32::Binary32;
use libx::num::traits::binary64::Binary64;
use libx::num::traits::FloatingPoint;

fn single(x: f32) -> Binary32 {
    Binary32::from_bits(x.to_bits())
}

fn double(x: f64) -> Binary64 {
    Binary64::from_bits(x.to_bits())
}

fn as_f32(x: Binary32) -> f32 {
    f32::from_bits(x.to_bits())
}

fn as_f64(x: Binary64) -> f64 {
    f64::from_bits(x.to_bits())
}

#[test]
fn test_numeric_multiplication() {
    let a = 3;
    let b = 4;

    assert_eq!(a * b, 12);

    let mut c = a;
    c *= b;
    assert_eq!(c, 12);

    assert_eq!(a * i8::ONE, a);
    assert_eq!(b * i8::ONE, b);
}

#[test]
fn test_numeric_operations_with_floats() {
    let a = 3.5;
    let b = 2.0;

    assert_eq!(a * b, 7.0);
    assert_eq!(a + b, 5.5);
    assert_eq!(a - b, 1.5);
}

#[test]
fn test_numeric_operations_with_negatives() {
    let a = -5;
    let b = -10;

    assert_eq!(a + b, -15);
    assert_eq!(a - b, 5);
    assert_eq!(a * b, 50);
}

#[test]
fn test_signed_numeric_negate() {
    let mut value = 10;
    SignedNumeric::negate(&mut value);
    assert_eq!(value, -10);

    value = -20;
    SignedNumeric::negate(&mut value);
    assert_eq!(value, 20);

    let mut value = double(3.5);
    value.negate();
    assert_eq!(as_f64(value), -3.5);

    value = double(-4.75);
    value.negate();
    assert_eq!(as_f64(value), 4.75);
}

#[test]
fn test_ulp_of_positive_float() {
    let value: f32 = 1.0;
    let ulp_value = as_f32(single(value).ulp());
    assert_eq!(
        ulp_value,
        f32::EPSILON,
        "The ULP of 1.0 should be the same as f32::EPSILON"
    );
}

#[test]
fn test_ulp_of_negative_float() {
    let value: f32 = -1.0;
    let ulp_value = as_f32(single(value).ulp());
    assert_eq!(
        ulp_value,
        as_f32(Binary32::ulp_of_one()),
        "The ULP of -1.0 should be the same as f32::EPSILON"
    );
}

#[test]
fn test_ulp_of_small_float() {
    let value: f32 = 1.0e-10;
    let ulp_value = as_f32(single(value).ulp());
    assert!(
        ulp_value > 0.0,
        "The ULP of a small number should be greater than zero"
    );
}

#[test]
fn test_ulp_of_large_float() {
    let value: f32 = 1.0e10;
    let ulp_value = as_f32(single(value).ulp());
    assert!(
        ulp_value > 0.0,
        "The ULP of a large number should be greater than zero"
    );
}

#[test]
fn test_ulp_of_nan() {
    let value: f32 = f32::NAN;
    let ulp_value = as_f32(single(value).ulp());
    assert!(ulp_value.is_nan(), "The ULP of NaN should be NaN");
}

#[test]
fn test_ulp_of_infinity() {
    let value: f32 = f32::INFINITY;
    let ulp_value = as_f32(single(value).ulp());
    assert!(
        ulp_value > 0.0,
        "The ULP of a very large number should be greater than zero"
    );
}

#[test]
fn test_ulp_of_double() {
    let value: f64 = 1.0;
    let ulp_value = as_f64(double(value).ulp());
    assert_eq!(
        ulp_value,
        as_f64(Binary64::ulp_of_one()),
        "The ULP of 1.0 should be the same as f64::EPSILON"
    );
    assert_eq!(ulp_value, f64::EPSILON);
}

#[test]
fn test_ulp_of_small_double() {
    let value: f64 = 1.0e-10;
    let ulp_value = as_f64(double(value).ulp());
    assert!(
        ulp_value > 0.0,
        "The ULP of a small number should be greater than zero"
    );
}

#[test]
fn quotient_and_remainder_of_unsigned_is_division() {
    for a in 0..=u8::MAX {
        for b in 1..=u8::MAX {
            assert_eq!(a.quotient_and_remainder_dividing_by(b), (a / b, a % b));
        }
    }
    assert_eq!(1000u16.quotient_and_remainder_dividing_by(7), (142, 6));
    assert_eq!(u32::MAX.quotient_and_remainder_dividing_by(10), (429_496_729, 5));
    assert_eq!(u64::MAX.quotient_and_remainder_dividing_by(u64::MAX), (1, 0));
    assert_eq!(u128::MAX.quotient_and_remainder_dividing_by(2), (u128::MAX / 2, 1));
}

#[test]
fn quotient_and_remainder_of_signed_rounds_toward_zero() {
    assert_eq!(10i32.quotient_and_remainder_dividing_by(3), (3, 1));
    assert_eq!((-7i32).quotient_and_remainder_dividing_by(2), (-3, -1));
    assert_eq!(7i8.quotient_and_remainder_dividing_by(-2), (-3, 1));
    assert_eq!((-7i64).quotient_and_remainder_dividing_by(-2), (3, -1));
    assert_eq!(i16::MIN.quotient_and_remainder_dividing_by(1), (i16::MIN, 0));
    assert_eq!(i128::MIN.quotient_and_remainder_dividing_by(2), (i128::MIN / 2, 0));
}

#[test]
fn is_multiple_of_zero_is_false() {
    assert!(!BinaryInteger::is_multiple_of(0u8, 0));
    assert!(!BinaryInteger::is_multiple_of(10u16, 0));
    assert!(!BinaryInteger::is_multiple_of(10u32, 0));
    assert!(!BinaryInteger::is_multiple_of(10u64, 0));
    assert!(!BinaryInteger::is_multiple_of(10u128, 0));
    assert!(!BinaryInteger::is_multiple_of(0i8, 0));
    assert!(!BinaryInteger::is_multiple_of(-10i16, 0));
    assert!(!BinaryInteger::is_multiple_of(10i32, 0));
    assert!(!BinaryInteger::is_multiple_of(i64::MIN, 0));
    assert!(!BinaryInteger::is_multiple_of(10i128, 0));
}

#[test]
fn is_multiple_of_divides() {
    assert!(BinaryInteger::is_multiple_of(10i32, 5));
    assert!(!BinaryInteger::is_multiple_of(7i32, 5));
    assert!(BinaryInteger::is_multiple_of(-10i32, 5));
    assert!(BinaryInteger::is_multiple_of(10i32, -5));
    assert!(BinaryInteger::is_multiple_of(0u8, 3));
    assert!(BinaryInteger::is_multiple_of(i8::MIN, -1));
    assert!(BinaryInteger::is_multiple_of(i8::MIN, 64));
    assert!(!BinaryInteger::is_multiple_of(i8::MAX, 2));
    for a in i8::MIN..=i8::MAX {
        for b in i8::MIN..=i8::MAX {
            let expected = b != 0 && (a as i32) % (b as i32) == 0;
            assert_eq!(BinaryInteger::is_multiple_of(a, b), expected);
        }
    }
}

#[test]
fn signum_and_signedness() {
    assert_eq!(BinaryInteger::signum(10i32), 1);
    assert_eq!(BinaryInteger::signum(-5i32), -1);
    assert_eq!(BinaryInteger::signum(0i32), 0);
    assert_eq!(BinaryInteger::signum(i128::MIN), -1);
    assert_eq!(BinaryInteger::signum(0u8), 0);
    assert_eq!(BinaryInteger::signum(200u8), 1);
    assert_eq!(BinaryInteger::signum(u128::MAX), 1);
    assert!(<i8 as BinaryInteger>::is_signed());
    assert!(<i128 as BinaryInteger>::is_signed());
    assert!(!<u8 as BinaryInteger>::is_signed());
    assert!(!<u64 as BinaryInteger>::is_signed());
}

#[test]
fn bit_width_is_fixed_per_type() {
    assert_eq!(0u8.bit_width(), 8);
    assert_eq!(1000u16.bit_width(), 16);
    assert_eq!(10i32.bit_width(), 32);
    assert_eq!(1000u64.bit_width(), 64);
    assert_eq!(i128::MIN.bit_width(), 128);
    assert_eq!(0i8.bit_width(), 8);
    assert_eq!(0i16.bit_width(), 16);
    assert_eq!(0u32.bit_width(), 32);
    assert_eq!(0i64.bit_width(), 64);
    assert_eq!(0u128.bit_width(), 128);
}

#[test]
fn trailing_zero_bit_count_counts_low_zeros() {
    assert_eq!(8i32.trailing_zero_bit_count(), 3);
    assert_eq!(10i32.trailing_zero_bit_count(), 1);
    assert_eq!((-8i32).trailing_zero_bit_count(), 3);
    assert_eq!(0u8.trailing_zero_bit_count(), 8);
    assert_eq!(0i64.trailing_zero_bit_count(), 64);
    assert_eq!(i8::MIN.trailing_zero_bit_count(), 7);
    assert_eq!(i128::MIN.trailing_zero_bit_count(), 127);
    for x in 0..=u16::MAX {
        assert_eq!(x.trailing_zero_bit_count(), x.trailing_zeros() as usize);
    }
    for x in i16::MIN..=i16::MAX {
        assert_eq!(
            x.trailing_zero_bit_count(),
            x.unsigned_abs().trailing_zeros() as usize
        );
    }
    assert_eq!((1u128 << 100).trailing_zero_bit_count(), 100);
    assert_eq!(u64::MAX.trailing_zero_bit_count(), 0);
}

#[test]
fn leading_zero_and_nonzero_bit_counts() {
    for x in 0..=u16::MAX {
        assert_eq!(x.leading_zero_bit_count(), x.leading_zeros() as usize);
        assert_eq!(x.nonzero_bit_count(), x.count_ones() as usize);
    }
    for x in i16::MIN..=i16::MAX {
        assert_eq!(
            x.leading_zero_bit_count(),
            x.unsigned_abs().leading_zeros() as usize
        );
        assert_eq!(
            x.nonzero_bit_count(),
            x.unsigned_abs().count_ones() as usize
        );
    }
    assert_eq!(0u128.leading_zero_bit_count(), 128);
    assert_eq!(1u128.leading_zero_bit_count(), 127);
    assert_eq!(u128::MAX.nonzero_bit_count(), 128);
    assert_eq!(i128::MIN.nonzero_bit_count(), 1);
    assert_eq!(i128::MIN.leading_zero_bit_count(), 0);
    assert_eq!((-1i64).nonzero_bit_count(), 1);
    assert_eq!(0x00f0_0000u32.leading_zero_bit_count(), 8);
}

#[test]
fn byte_swapped_reverses_the_bytes() {
    assert_eq!(0x12u8.byte_swapped(), 0x12);
    assert_eq!(0x1234u16.byte_swapped(), 0x3412);
    assert_eq!(0x1234_5678u32.byte_swapped(), 0x7856_3412);
    assert_eq!(
        0x0123_4567_89ab_cdefu64.byte_swapped(),
        0xefcd_ab89_6745_2301
    );
    assert_eq!(
        0x0011_2233_4455_6677_8899_aabb_ccdd_eeffu128.byte_swapped(),
        0xffee_ddcc_bbaa_9988_7766_5544_3322_1100
    );
    assert_eq!(0x1234i16.byte_swapped(), 0x3412);
    assert_eq!(0x00ffi16.byte_swapped(), -256);
    assert_eq!((-2i32).byte_swapped(), (-2i32).swap_bytes());
    for x in 0..=u16::MAX {
        assert_eq!(x.byte_swapped(), x.swap_bytes());
    }
    for x in i16::MIN..=i16::MAX {
        assert_eq!(x.byte_swapped(), x.swap_bytes());
    }
    for k in 0..2000u128 {
        let x = k.wrapping_mul(0x9e37_79b9_7f4a_7c15_f39c_c060_5ced_c835);
        assert_eq!(x.byte_swapped(), x.swap_bytes());
        assert_eq!((x as i128).byte_swapped(), (x as i128).swap_bytes());
        assert_eq!((x as u64).byte_swapped(), (x as u64).swap_bytes());
        assert_eq!((x as i64).byte_swapped(), (x as i64).swap_bytes());
        assert_eq!((x as u32).byte_swapped(), (x as u32).swap_bytes());
        assert_eq!((x as i32).byte_swapped(), (x as i32).swap_bytes());
        assert_eq!((x as i8).byte_swapped(), (x as i8).swap_bytes());
    }
}

#[test]
fn byte_swapped_twice_is_the_value() {
    for x in 0..=u16::MAX {
        assert_eq!(x.byte_swapped().byte_swapped(), x);
    }
    for x in i8::MIN..=i8::MAX {
        assert_eq!(x.byte_swapped().byte_swapped(), x);
    }
    for k in 0..2000u128 {
        let x = k.wrapping_mul(0x9e37_79b9_7f4a_7c15_f39c_c060_5ced_c835);
        assert_eq!(x.byte_swapped().byte_swapped(), x);
        assert_eq!((x as i128).byte_swapped().byte_swapped(), x as i128);
        assert_eq!((x as i64).byte_swapped().byte_swapped(), x as i64);
        assert_eq!((x as u32).byte_swapped().byte_swapped(), x as u32);
    }
    assert_eq!(i32::MIN.byte_swapped().byte_swapped(), i32::MIN);
    assert_eq!(i128::MIN.byte_swapped().byte_swapped(), i128::MIN);
}

#[test]
fn endian_conversions_follow_the_target() {
    assert_eq!(0x1234u16.big_endian(), 0x1234u16.to_be());
    assert_eq!(0x1234u16.little_endian(), 0x1234u16.to_le());
    assert_eq!(0x1234_5678u32.big_endian(), 0x1234_5678u32.to_be());
    assert_eq!(0x1234_5678u32.little_endian(), 0x1234_5678u32.to_le());
    assert_eq!((-2i64).big_endian(), (-2i64).to_be());
    assert_eq!((-2i64).little_endian(), (-2i64).to_le());
    assert_eq!(7u8.big_endian(), 7);
    assert_eq!(7i8.little_endian(), 7);
    assert_eq!(5u128.big_endian(), 5u128.to_be());
    assert_eq!(5i128.little_endian(), 5i128.to_le());
}

#[test]
fn overflow_is_reported_at_the_bounds() {
    assert_eq!(u8::MAX.adding_reporting_overflow(1), (0, true));
    assert_eq!(u8::MAX.adding_reporting_overflow(0), (255, false));
    assert_eq!(u8::MIN.subtracting_reporting_overflow(1), (255, true));
    assert_eq!(i8::MAX.adding_reporting_overflow(1), (i8::MIN, true));
    assert_eq!(i8::MIN.subtracting_reporting_overflow(1), (i8::MAX, true));
    assert_eq!(i8::MIN.adding_reporting_overflow(-1), (i8::MAX, true));
    assert_eq!(u16::MAX.adding_reporting_overflow(1), (0, true));
    assert_eq!(i16::MAX.adding_reporting_overflow(1), (i16::MIN, true));
    assert_eq!(u32::MAX.adding_reporting_overflow(1), (0, true));
    assert_eq!(i32::MAX.adding_reporting_overflow(1), (i32::MIN, true));
    assert_eq!(u64::MAX.adding_reporting_overflow(1), (0, true));
    assert_eq!(i64::MAX.adding_reporting_overflow(1), (i64::MIN, true));
    assert_eq!(u128::MAX.adding_reporting_overflow(1), (0, true));
    assert_eq!(i128::MAX.adding_reporting_overflow(1), (i128::MIN, true));
    assert_eq!(u128::MIN.subtracting_reporting_overflow(1), (u128::MAX, true));
    assert_eq!(i128::MIN.subtracting_reporting_overflow(1), (i128::MAX, true));
    assert_eq!(5u8.adding_reporting_overflow(6), (11, false));
    assert_eq!(5i32.subtracting_reporting_overflow(6), (-1, false));
    assert_eq!(u8::MAX.multiplied_reporting_overflow(2), (254, true));
    assert_eq!(i8::MIN.multiplied_reporting_overflow(-1), (i8::MIN, true));
    assert_eq!(16u8.multiplied_reporting_overflow(16), (0, true));
    assert_eq!(15u8.multiplied_reporting_overflow(17), (255, false));
    assert_eq!(i64::MAX.multiplied_reporting_overflow(2), (-2, true));
    assert_eq!(u128::MAX.multiplied_reporting_overflow(u128::MAX), (1, true));
    assert_eq!((-3i16).multiplied_reporting_overflow(7), (-21, false));
}

#[test]
fn overflow_reports_match_the_wrapped_results() {
    for a in 0..=u8::MAX {
        for b in 0..=u8::MAX {
            assert_eq!(a.adding_reporting_overflow(b), a.overflowing_add(b));
            assert_eq!(a.subtracting_reporting_overflow(b), a.overflowing_sub(b));
            assert_eq!(a.multiplied_reporting_overflow(b), a.overflowing_mul(b));
            if b != 0 {
                assert_eq!(a.divided_reporting_overflow(b), a.overflowing_div(b));
                assert_eq!(a.remainder_reporting_overflow(b), a.overflowing_rem(b));
            }
        }
    }
    for a in i8::MIN..=i8::MAX {
        for b in i8::MIN..=i8::MAX {
            assert_eq!(a.adding_reporting_overflow(b), a.overflowing_add(b));
            assert_eq!(a.subtracting_reporting_overflow(b), a.overflowing_sub(b));
            assert_eq!(a.multiplied_reporting_overflow(b), a.overflowing_mul(b));
            if b != 0 {
                assert_eq!(a.divided_reporting_overflow(b), a.overflowing_div(b));
                assert_eq!(a.remainder_reporting_overflow(b), a.overflowing_rem(b));
            }
        }
    }
}

#[test]
fn division_by_zero_is_reported_as_overflow() {
    assert_eq!(7u8.divided_reporting_overflow(0), (0, true));
    assert_eq!(7u8.remainder_reporting_overflow(0), (0, true));
    assert_eq!((-7i32).divided_reporting_overflow(0), (0, true));
    assert_eq!((-7i32).remainder_reporting_overflow(0), (0, true));
    assert_eq!(u128::MAX.divided_reporting_overflow(0), (0, true));
    assert_eq!(i128::MIN.remainder_reporting_overflow(0), (0, true));
    assert_eq!(i8::MIN.divided_reporting_overflow(-1), (i8::MIN, true));
    assert_eq!(i8::MIN.remainder_reporting_overflow(-1), (0, true));
    assert_eq!(i64::MIN.divided_reporting_overflow(-1), (i64::MIN, true));
    assert_eq!(i128::MIN.divided_reporting_overflow(-1), (i128::MIN, true));
    assert_eq!((-7i32).divided_reporting_overflow(2), (-3, false));
    assert_eq!((-7i32).remainder_reporting_overflow(2), (-1, false));
    assert_eq!(200u8.divided_reporting_overflow(7), (28, false));
    assert_eq!(200u8.remainder_reporting_overflow(7), (4, false));
}

#[test]
fn max_and_min_are_the_bounds() {
    assert_eq!(<u8 as FixedWidthInteger>::max(), u8::MAX);
    assert_eq!(<u8 as FixedWidthInteger>::min(), u8::MIN);
    assert_eq!(<i8 as FixedWidthInteger>::max(), i8::MAX);
    assert_eq!(<i8 as FixedWidthInteger>::min(), i8::MIN);
    assert_eq!(<u16 as FixedWidthInteger>::max(), u16::MAX);
    assert_eq!(<i16 as FixedWidthInteger>::min(), i16::MIN);
    assert_eq!(<u32 as FixedWidthInteger>::max(), u32::MAX);
    assert_eq!(<i32 as FixedWidthInteger>::min(), i32::MIN);
    assert_eq!(<u64 as FixedWidthInteger>::max(), u64::MAX);
    assert_eq!(<i64 as FixedWidthInteger>::min(), i64::MIN);
    assert_eq!(<u128 as FixedWidthInteger>::max(), u128::MAX);
    assert_eq!(<i128 as FixedWidthInteger>::min(), i128::MIN);
}

#[test]
fn identities_are_zero_and_one() {
    assert_eq!(<u8 as AdditiveArithmetic>::ZERO, 0);
    assert_eq!(<u8 as AdditiveArithmetic>::ONE, 1);
    assert_eq!(<i128 as AdditiveArithmetic>::ZERO, 0);
    assert_eq!(<i128 as AdditiveArithmetic>::ONE, 1);
    assert_eq!(<usize as AdditiveArithmetic>::ONE, 1);
    assert_eq!(<isize as AdditiveArithmetic>::ZERO, 0);
}

#[test]
fn bytes_are_put_in_the_order_asked_for() {
    assert_eq!(0x1234u16.in_byte_order(false, true), 0x3412);
    assert_eq!(0x1234u16.in_byte_order(true, true), 0x1234);
    assert_eq!(0x1234u16.in_byte_order(false, false), 0x1234);
    assert_eq!(0x1234u16.in_byte_order(true, false), 0x3412);
    assert_eq!(0x1234_5678u32.in_byte_order(false, true), 0x7856_3412);
    assert_eq!(0x1234_5678u32.in_byte_order(true, false), 0x7856_3412);
    assert_eq!(0x1234_5678u32.in_byte_order(true, true), 0x1234_5678);
    assert_eq!(0x12u8.in_byte_order(false, true), 0x12);
    assert_eq!(0x0102_0304_0506_0708u64.in_byte_order(false, true), 0x0807_0605_0403_0201);
    assert_eq!(0x1234i16.in_byte_order(false, true), 0x3412);
    assert_eq!((-2i32).in_byte_order(false, true), (-2i32).swap_bytes());
    assert_eq!((-2i32).in_byte_order(false, false), -2);
    assert_eq!(i64::MIN.in_byte_order(true, false), i64::MIN.swap_bytes());
    assert_eq!(
        0x0102_0304_0506_0708_090a_0b0c_0d0e_0f10u128.in_byte_order(false, true),
        0x100f_0e0d_0c0b_0a09_0807_0605_0403_0201
    );
    let target_is_big_endian = u16::from_ne_bytes([0, 1]) == 1;
    for value in [0u32, 1, 0x1234_5678, 0xdead_beef, u32::MAX] {
        assert_eq!(value.big_endian(), value.in_byte_order(target_is_big_endian, true));
        assert_eq!(value.little_endian(), value.in_byte_order(target_is_big_endian, false));
        assert_eq!(value.big_endian(), value.to_be());
        assert_eq!(value.little_endian(), value.to_le());
    }
    for value in [0i16, 1, -1, 0x1234, i16::MIN, i16::MAX] {
        assert_eq!(value.big_endian(), value.in_byte_order(target_is_big_endian, true));
        assert_eq!(value.little_endian(), value.in_byte_order(target_is_big_endian, false));
        assert_eq!(value.big_endian(), value.to_be());
        assert_eq!(value.little_endian(), value.to_le());
    }
}

//! Capability traits of the numeric types.
//!
//! Each trait names one capability: the additive identities, multiplication, negation,
//! the operations of a binary integer, arithmetic that reports overflow, and the
//! operations of a binary floating-point format. Their contracts are stated once,
//! here: those of the integers over the integer that a value stands for, those of
//! the floating-point formats over the fields of the encoding and over the number
//! of units, of the least positive value, that it stands for. Every implementing
//! type proves them.
//!
//! The floating-point formats are held as their encodings and computed on in
//! integers: sums, differences, products and quotients are rounded to the nearest
//! value, ties to even, as IEEE-754 prescribes.

use core::hash::Hash;
use core::ops::{Add, BitOr, BitXor, Div, Mul, Neg, Rem, Shl, Shr, Sub};
use vstd::arithmetic::power2::{lemma2_to64, lemma_pow2_strictly_increases, pow2};
use vstd::prelude::*;

pub mod arithmetic;
pub mod binary32;
pub mod binary64;
pub mod bits;
pub mod conversion;
pub mod float_laws;
pub mod integral;
pub mod laws;
pub mod model;
pub mod nearest;
pub mod product;
pub mod quotient;
pub mod ratio;
pub mod root;
pub mod rounding;
pub mod signed;
pub mod unsigned;

use arithmetic::{difference_of, Decoded};
use integral::{ceiling_of, floor_of};
use model::{
    bit_count, byte_capacity, byte_swapped_value, division_overflows, leading_zeros, magnitude,
    sign_of, trailing_zeros, truncated_quotient, truncated_remainder, wrapped,
};
use nearest::{fraction_of, is_below_zero, is_within, rounded_of, rounded_with_of, truncated_of};
use root::{is_square_root_within, newton_stops, remainder_of, truncating_remainder_of};
use rounding::Format;

verus! {

/// Types with an additive identity and a unit.
pub trait AdditiveArithmetic: Sized + Add<Output = Self> + Sub<Output = Self> + PartialEq + PartialOrd<
    Self,
> {
    /// The additive identity.
    const ZERO: Self;

    /// The multiplicative identity.
    const ONE: Self;

    /// The integer that a value stands for.
    spec fn value(self) -> int;

    /// The least integer that the type has a value for.
    spec fn least() -> int;

    /// The greatest integer that the type has a value for.
    spec fn greatest() -> int;

    /// `ZERO` stands for 0 and `ONE` for 1.
    proof fn identities()
        ensures
            Self::ZERO.value() == 0,
            Self::ONE.value() == 1,
    ;

    /// Every value lies in the type's range, which holds 0 and 1.
    proof fn value_in_range(self)
        ensures
            Self::least() <= self.value() <= Self::greatest(),
            Self::least() <= 0,
            1 <= Self::greatest(),
    ;

    /// Two values that stand for the same integer are the same value.
    proof fn value_is_injective(self, other: Self)
        requires
            self.value() == other.value(),
        ensures
            self == other,
    ;
}

/// Types that can also be multiplied.
pub trait Numeric: AdditiveArithmetic + Mul + Copy {

}

/// Numeric types with an additive inverse.
pub trait SignedNumeric: Numeric + Neg<Output = Self> {
    /// Replaces the value with its additive inverse, which has to be in range: the
    /// least value of a signed integer type has none.
    fn negate(&mut self)
        requires
            Self::least() <= -old(self).value() <= Self::greatest(),
        ensures
            final(self).value() == -old(self).value(),
    ;
}

/// Operations common to the signed and unsigned binary integers.
pub trait BinaryInteger: Hash + Numeric + Div<Output = Self> + Rem<Output = Self> + BitXor + BitOr + Shl + Shr {
    /// The number of bits of the type's representation.
    spec fn width() -> nat;

    /// Quotient and remainder of division rounded toward zero. The divisor is not
    /// zero, and the division is not that of the least signed value by -1, whose
    /// quotient is out of range.
    fn quotient_and_remainder_dividing_by(self, rhs: Self) -> (r: (Self, Self))
        requires
            rhs.value() != 0,
            !division_overflows(self.value(), rhs.value(), Self::least()),
        ensures
            r.0.value() == truncated_quotient(self.value(), rhs.value()),
            r.1.value() == truncated_remainder(self.value(), rhs.value()),
    ;

    /// Whether division by `other` leaves no remainder. Nothing is taken for a
    /// multiple of zero.
    fn is_multiple_of(self, other: Self) -> (b: bool)
        ensures
            b == (other.value() != 0 && truncated_remainder(self.value(), other.value()) == 0),
    ;

    /// -1, 0 or 1 with the sign of the value.
    fn signum(self) -> (r: Self)
        ensures
            r.value() == sign_of(self.value()),
    ;

    /// Whether the type has negative values.
    fn is_signed() -> (b: bool)
        ensures
            b == (Self::least() < 0),
    ;

    /// The number of bits of the type's representation, whatever the value.
    fn bit_width(&self) -> (w: usize)
        ensures
            w == Self::width(),
    ;

    /// The number of zero bits below the lowest 1 bit of the absolute value; the
    /// type's width for zero.
    fn trailing_zero_bit_count(&self) -> (n: usize)
        ensures
            n == trailing_zeros(magnitude(self.value()), Self::width()),
    ;
}

/// Integers of a fixed width: byte order, bit counts, and arithmetic that reports
/// overflow in place of failing.
pub trait FixedWidthInteger: BinaryInteger {
    /// What arithmetic of this width keeps of the integer `v`: `v` itself where it
    /// is in range, else the value in range that differs from it by a multiple of
    /// 2 to the power of the width.
    spec fn wrap(v: int) -> int;

    /// `wrap` wraps into the type's range.
    proof fn wrap_is_wrapped(v: int)
        ensures
            Self::wrap(v) == wrapped(v, Self::least(), Self::greatest()),
    ;

    /// The range holds one value for each pattern of the type's bytes, and starts
    /// at zero or is that of two's complement.
    proof fn range_fits_width()
        ensures
            Self::greatest() - Self::least() + 1 == byte_capacity(Self::width() / 8),
            Self::least() == 0 || Self::least() == -Self::greatest() - 1,
    ;

    /// The value whose bytes in memory, read in the given order, are this value's,
    /// on a target that stores the most significant byte first or does not: the
    /// value itself where the target stores integers in the given order, the
    /// byte-swapped value where it does not.
    fn in_byte_order(&self, target_is_big_endian: bool, most_significant_first: bool) -> (r: Self)
        ensures
            r.value() == if target_is_big_endian == most_significant_first {
                self.value()
            } else {
                byte_swapped_value(
                    self.value(),
                    Self::least(),
                    Self::greatest(),
                    Self::width() / 8,
                )
            },
    ;

    /// The value whose bytes in memory, read most significant first, are this
    /// value's: what `in_byte_order` gives for this target and that order, so the
    /// value itself on a target that stores integers that way, the byte-swapped
    /// value on any other.
    fn big_endian(&self) -> (r: Self)
        ensures
            r.value() == self.value() || r.value() == byte_swapped_value(
                self.value(),
                Self::least(),
                Self::greatest(),
                Self::width() / 8,
            ),
    ;

    /// The value with the bytes of its representation in the opposite order.
    fn byte_swapped(&self) -> (r: Self)
        ensures
            r.value() == byte_swapped_value(
                self.value(),
                Self::least(),
                Self::greatest(),
                Self::width() / 8,
            ),
    ;

    /// The number of zero bits above the highest 1 bit of the absolute value.
    fn leading_zero_bit_count(&self) -> (n: usize)
        ensures
            n == leading_zeros(magnitude(self.value()), Self::width()),
    ;

    /// The value whose bytes in memory, read least significant first, are this
    /// value's: what `in_byte_order` gives for this target and that order, so the
    /// value itself on a target that stores integers that way, the byte-swapped
    /// value on any other.
    fn little_endian(&self) -> (r: Self)
        ensures
            r.value() == self.value() || r.value() == byte_swapped_value(
                self.value(),
                Self::least(),
                Self::greatest(),
                Self::width() / 8,
            ),
    ;

    /// The number of 1 bits of the absolute value.
    fn nonzero_bit_count(&self) -> (n: usize)
        ensures
            n == bit_count(magnitude(self.value())),
    ;

    /// The sum wrapped into the type's range, and whether the true sum was outside it.
    fn adding_reporting_overflow(&self, rhs: Self) -> (r: (Self, bool))
        ensures
            r.0.value() == Self::wrap(self.value() + rhs.value()),
            r.1 == !(Self::least() <= self.value() + rhs.value() <= Self::greatest()),
    ;

    /// The quotient rounded toward zero, and whether it was out of range. Division
    /// by zero is reported as overflow, with the value zero; the least signed value
    /// divided by -1 is reported as overflow, with that least value.
    fn divided_reporting_overflow(&self, rhs: Self) -> (r: (Self, bool))
        ensures
            r.1 == (rhs.value() == 0 || division_overflows(
                self.value(),
                rhs.value(),
                Self::least(),
            )),
            r.0.value() == if rhs.value() == 0 {
                0
            } else if division_overflows(self.value(), rhs.value(), Self::least()) {
                Self::least()
            } else {
                truncated_quotient(self.value(), rhs.value())
            },
    ;

    /// The product wrapped into the type's range, and whether the true product was
    /// outside it.
    fn multiplied_reporting_overflow(&self, rhs: Self) -> (r: (Self, bool))
        ensures
            r.0.value() == Self::wrap(self.value() * rhs.value()),
            r.1 == !(Self::least() <= self.value() * rhs.value() <= Self::greatest()),
    ;

    /// The remainder of division rounded toward zero, and whether the quotient of
    /// that division was out of range. A zero divisor is reported as overflow, with
    /// the value zero.
    fn remainder_reporting_overflow(&self, rhs: Self) -> (r: (Self, bool))
        ensures
            r.1 == (rhs.value() == 0 || division_overflows(
                self.value(),
                rhs.value(),
                Self::least(),
            )),
            r.0.value() == if rhs.value() == 0 {
                0
            } else {
                truncated_remainder(self.value(), rhs.value())
            },
    ;

    /// The difference wrapped into the type's range, and whether the true
    /// difference was outside it.
    fn subtracting_reporting_overflow(&self, rhs: Self) -> (r: (Self, bool))
        ensures
            r.0.value() == Self::wrap(self.value() - rhs.value()),
            r.1 == !(Self::least() <= self.value() - rhs.value() <= Self::greatest()),
    ;

    /// The greatest value of the type.
    fn max() -> (r: Self)
        ensures
            r.value() == Self::greatest(),
    ;

    /// The least value of the type.
    fn min() -> (r: Self)
        ensures
            r.value() == Self::least(),
    ;
}

/// The signed fixed-width integers.
pub trait SignedInteger: BinaryInteger + SignedNumeric {

}

/// The unsigned fixed-width integers.
pub trait UnsignedInteger: BinaryInteger {

}

/// The class of a floating-point value, by sign and kind.
#[derive(Debug, PartialEq, Eq, Clone, Copy, Hash, Structural)]
pub enum FloatingPointClassification {
    /// Negative infinity.
    NegativeInfinity,
    /// A negative value with the full precision of the type.
    NegativeNormal,
    /// A negative, nonzero value with less than the full precision of the type.
    NegativeSubnormal,
    /// Zero with a negative sign.
    NegativeZero,
    /// Positive infinity.
    PositiveInfinity,
    /// A positive value with the full precision of the type.
    PositiveNormal,
    /// A positive, nonzero value with less than the full precision of the type.
    PositiveSubnormal,
    /// Zero with a positive sign.
    PositiveZero,
    /// A NaN that propagates silently.
    QuietNaN,
    /// A NaN that is meant to signal when used.
    SignalingNaN,
}

/// The sign of a floating-point value, whatever its magnitude: negative zero has
/// the sign `Minus`.
#[derive(Debug, PartialEq, Eq, Clone, Copy, Hash, Structural)]
pub enum FloatingPointSign {
    /// The sign bit is set.
    Minus,
    /// The sign bit is clear.
    Plus,
}

/// How a value with a fraction becomes a value without one.
#[derive(Debug, PartialEq, Eq, Clone, Copy, Hash, Structural)]
pub enum FloatingPointRoundingRule {
    /// To the nearest integer at least as far from zero.
    AwayFromZero,
    /// To the nearest integer that is not greater.
    Down,
    /// To the nearest integer; of two equally near, the one further from zero.
    ToNearestOrAwayFromZero,
    /// To the nearest integer; of two equally near, the even one.
    ToNearestOrEven,
    /// To the nearest integer at least as near to zero.
    TowardZero,
    /// To the nearest integer that is not less.
    Up,
}

/// The encoding of a binary floating-point format, as the contracts of
/// [`FloatingPoint`] see it.
///
/// A value is modelled by the three fields of its IEEE-754 encoding: the sign, the
/// biased exponent and the fraction. With `fraction_limit` the number of fractions
/// and `exponent_limit` the all-ones exponent, a value with exponent `e` below the
/// limit and fraction `f` stands for `f` units if `e` is zero and for
/// `(fraction_limit + f) * 2^(e - 1)` units otherwise, a unit being the least
/// positive value of the format.
pub trait FloatingPointFormat: Sized + Copy {
    /// Whether the sign bit is set.
    spec fn negative(self) -> bool;

    /// The biased exponent.
    spec fn exponent_field(self) -> nat;

    /// The fraction: the significand without its leading bit.
    spec fn fraction_field(self) -> nat;

    /// The encoding without the sign bit: `exponent_field` times `fraction_limit()`
    /// plus `fraction_field`. Among values that are not NaN it grows with the
    /// absolute value.
    spec fn magnitude(self) -> nat;

    /// The number of bits of the fraction.
    spec fn fraction_bits() -> nat;

    /// The number of fractions: 2 to the power `fraction_bits()`.
    spec fn fraction_limit() -> nat;

    /// The exponent of infinities and NaNs, which is the greatest.
    spec fn exponent_limit() -> nat;

    /// What `exponent` reports for the value.
    spec fn reported_exponent(self) -> int;

    /// What `significand` makes of a value.
    spec fn significand_of(x: Decoded) -> Decoded;

    /// What `adding_product` makes of a value and two factors.
    spec fn adding_product_of(x: Decoded, lhs: Decoded, rhs: Decoded) -> Decoded;

    /// How far apart two guesses of Newton's method may be for the later one to be
    /// taken for the square root.
    spec fn root_tolerance() -> Decoded;

    /// The value of the format that is nearest to one tenth: how far apart two
    /// values may be for `is_equal_to`, and how far from one half a fraction may
    /// be for the rule `ToNearestOrAwayFromZero` to take it for a tie.
    spec fn tenth() -> Decoded;

    /// The fraction of the value of the format that is nearest to the ratio of a
    /// circle's circumference to its diameter; its exponent is that of two.
    spec fn pi_fraction() -> nat;

    /// How the fields hang together.
    proof fn encoding(self)
        ensures
            self.exponent_field() <= Self::exponent_limit(),
            self.fraction_field() < Self::fraction_limit(),
            self.magnitude() == self.exponent_field() * Self::fraction_limit()
                + self.fraction_field(),
            Self::fraction_limit() == pow2(Self::fraction_bits()),
            1 <= Self::fraction_bits() <= 52,
            2 * Self::fraction_bits() + 6 <= Self::exponent_limit() <= 0x7ff,
    ;

    /// Sign and magnitude determine the value.
    proof fn encoding_is_injective(self, other: Self)
        requires
            self.negative() == other.negative(),
            self.magnitude() == other.magnitude(),
        ensures
            self == other,
    ;
}

/// The bit-level operations of a binary floating-point format.
pub trait FloatingPoint: FloatingPointFormat {
    /// The type in which `exponent` reports.
    type Exponent: SignedInteger;

    /// The least whole number that is not less than the value; a zero result is
    /// positive. A NaN or an infinity is returned as it is.
    fn ceil(self) -> (r: Self)
        ensures
            number_of(r) == ceiling_of(number_of(self), format_of::<Self>()),
    ;

    /// The greatest whole number that is not greater than the value; a zero
    /// result is positive. A NaN or an infinity is returned as it is.
    fn floor(self) -> (r: Self)
        ensures
            number_of(r) == floor_of(number_of(self), format_of::<Self>()),
    ;

    /// What is left of the value beside its whole part: the value less what
    /// `trunc` returns for it, with the sign of the value.
    fn fract(self) -> (r: Self)
        ensures
            number_of(r) == fraction_of(number_of(self), format_of::<Self>()),
    ;

    /// The whole part of the value: the whole number nearest to it that is not
    /// further from zero. A zero result is positive.
    fn trunc(self) -> (r: Self)
        ensures
            number_of(r) == truncated_of(number_of(self), format_of::<Self>()),
    ;

    /// The exponent bits that the type reports.
    fn exponent(self) -> (e: Self::Exponent)
        ensures
            e.value() == self.reported_exponent(),
    ;

    /// The class of the value.
    fn floating_point_class(&self) -> (c: FloatingPointClassification)
        ensures
            c == class_of(*self),
    ;

    /// Whether the encoding is canonical: every one that is not a NaN is.
    fn is_canonical(&self) -> (b: bool)
        ensures
            b == !encodes_nan(*self),
    ;

    /// Whether the value is normal or zero.
    fn is_finite(&self) -> (b: bool)
        ensures
            b == counts_as_finite(*self),
    ;

    /// Whether the value is an infinity.
    fn is_infinite(&self) -> (b: bool)
        ensures
            b == encodes_infinity(*self),
    ;

    /// Whether the value is a NaN.
    fn is_nan(&self) -> (b: bool)
        ensures
            b == encodes_nan(*self),
    ;

    /// Whether the value is normal.
    fn is_normal(&self) -> (b: bool)
        ensures
            b == encodes_normal(*self),
    ;

    /// Whether the value is a signaling NaN: a NaN whose fraction has its highest
    /// bit clear.
    fn is_signaling_nan(&self) -> (b: bool)
        ensures
            b == encodes_signaling_nan(*self),
    ;

    /// Whether the value is subnormal.
    fn is_subnormal(&self) -> (b: bool)
        ensures
            b == encodes_subnormal(*self),
    ;

    /// Whether the value is a zero, of either sign.
    fn is_zero(&self) -> (b: bool)
        ensures
            b == encodes_zero(*self),
    ;

    /// The value one place earlier in the order of the format; the value itself
    /// for a NaN, an infinity or a zero.
    fn next_down(self) -> (r: Self)
        ensures
            steps_down_to(self, r),
    ;

    /// The value one place later in the order of the format; the value itself for
    /// a NaN, an infinity or a zero.
    fn next_up(self) -> (r: Self)
        ensures
            steps_up_to(self, r),
    ;

    /// The sign of the value.
    fn sign(&self) -> (s: FloatingPointSign)
        ensures
            s == if self.negative() {
                FloatingPointSign::Minus
            } else {
                FloatingPointSign::Plus
            },
    ;

    /// The significand that the type reports.
    fn significand(self) -> (r: Self)
        ensures
            number_of(r) == Self::significand_of(number_of(self)),
    ;

    /// The unit in the last place of the value.
    fn ulp(self) -> (r: Self)
        ensures
            has_ulp(self, r),
    ;

    /// Replaces the value with what `adding_product` returns for it.
    fn add_product(&mut self, lhs: Self, rhs: Self)
        ensures
            number_of(*final(self)) == Self::adding_product_of(
                number_of(*old(self)),
                number_of(lhs),
                number_of(rhs),
            ),
    ;

    /// The value that the type makes of this one and the product of `lhs` and
    /// `rhs`.
    fn adding_product(self, lhs: Self, rhs: Self) -> (r: Self)
        ensures
            number_of(r) == Self::adding_product_of(
                number_of(self),
                number_of(lhs),
                number_of(rhs),
            ),
    ;

    /// Replaces the value with what `remainder` returns for it.
    fn form_remainder(&mut self, other: Self)
        ensures
            number_of(*final(self)) == remainder_of(
                number_of(*old(self)),
                number_of(other),
                format_of::<Self>(),
            ),
    ;

    /// Replaces the value with what `truncating_remainder` returns for it.
    fn form_truncating_remainder(&mut self, other: Self)
        ensures
            number_of(*final(self)) == truncating_remainder_of(
                number_of(*old(self)),
                number_of(other),
                format_of::<Self>(),
            ),
    ;

    /// Replaces the value with the one of the opposite sign.
    fn negate(&mut self)
        ensures
            final(self).negative() == !old(self).negative(),
            final(self).magnitude() == old(self).magnitude(),
    ;

    /// Whether the value and `other` are less than a tenth apart.
    fn is_equal_to(&self, other: Self) -> (b: bool)
        ensures
            b == is_within(
                difference_of(number_of(*self), number_of(other), format_of::<Self>()),
                Self::tenth(),
                format_of::<Self>(),
            ),
    ;

    /// Whether the value is less than `other`.
    fn is_less_than(&self, other: Self) -> (b: bool)
        ensures
            b == precedes(*self, other),
    ;

    /// Whether the value is less than or equal to `other`.
    fn is_less_than_or_equal_to(&self, other: Self) -> (b: bool)
        ensures
            b == precedes_or_equals(*self, other),
    ;

    /// Whether both values are what this library calls finite.
    fn is_totally_ordered_below_or_equal_to(&self, other: Self) -> (b: bool)
        ensures
            b == (counts_as_finite(*self) && counts_as_finite(other)),
    ;

    /// What is left of the value when the multiple of `other` that is nearest to
    /// it is taken away: the value less `other` times the rounded quotient.
    fn remainder(self, other: Self) -> (r: Self)
        ensures
            number_of(r) == remainder_of(
                number_of(self),
                number_of(other),
                format_of::<Self>(),
            ),
    ;

    /// Replaces the value with the whole number nearest to it; of two that are
    /// equally near, with the one further from zero.
    fn round(&mut self)
        ensures
            number_of(*final(self)) == rounded_of(
                number_of(*old(self)),
                format_of::<Self>(),
            ),
    ;

    /// Replaces the value with the whole number that the rule makes of it.
    fn round_with(&mut self, rule: FloatingPointRoundingRule)
        ensures
            number_of(*final(self)) == rounded_with_of(
                number_of(*old(self)),
                rule,
                Self::tenth(),
                format_of::<Self>(),
            ),
    ;

    /// The whole number nearest to the value; of two that are equally near, the
    /// one further from zero.
    fn rounded(self) -> (r: Self)
        ensures
            number_of(r) == rounded_of(number_of(self), format_of::<Self>()),
    ;

    /// The whole number that the rule makes of the value: `Up` its ceiling,
    /// `Down` its floor, `TowardZero` its whole part, `AwayFromZero` the ceiling of
    /// a value above zero and the floor of one below, `ToNearestOrEven` what
    /// `rounded` returns, and `ToNearestOrAwayFromZero` that too unless the
    /// fraction is within a tenth of one half, where it rounds away from zero. A
    /// NaN stays as it is.
    fn rounded_with(self, rule: FloatingPointRoundingRule) -> (r: Self)
        ensures
            number_of(r) == rounded_with_of(
                number_of(self),
                rule,
                Self::tenth(),
                format_of::<Self>(),
            ),
    ;

    /// Replaces the value with what `square_root` returns for it.
    fn form_square_root(&mut self)
        requires
            is_below_zero(number_of(*old(self)), format_of::<Self>()) || old(self).exponent_field()
                + old(self).fraction_field() == 0 || newton_stops(
                number_of(*old(self)),
                Self::root_tolerance(),
                format_of::<Self>(),
            ),
        ensures
            exists|limit: nat| #[trigger]
                is_square_root_within(
                    number_of(*old(self)),
                    limit,
                    Self::root_tolerance(),
                    format_of::<Self>(),
                    Some(number_of(*final(self))),
                ),
    ;

    /// The square root by Newton's method: the default NaN for a value below
    /// zero, positive zero for a zero, and else the first guess that is within
    /// `root_tolerance()` of the guess before it. The guesses start at half the
    /// value, which is compared with no guess, and each step takes the mean of
    /// the guess and of the value divided by the guess. The method has to come to
    /// an end for the value.
    fn square_root(self) -> (r: Self)
        requires
            is_below_zero(number_of(self), format_of::<Self>()) || self.exponent_field()
                + self.fraction_field() == 0 || newton_stops(
                number_of(self),
                Self::root_tolerance(),
                format_of::<Self>(),
            ),
        ensures
            exists|limit: nat| #[trigger]
                is_square_root_within(
                    number_of(self),
                    limit,
                    Self::root_tolerance(),
                    format_of::<Self>(),
                    Some(number_of(r)),
                ),
    ;

    /// The square root by Newton's method, if at most `limit` steps find it: the
    /// default NaN for a value below zero, positive zero for a zero, and else the
    /// first guess that is within `root_tolerance()` of the guess before it. The
    /// guesses start at half the value, which is compared with no guess, and each
    /// step takes the mean of the guess and of the value divided by the guess.
    fn square_root_within(self, limit: usize) -> (r: Option<Self>)
        ensures
            match r {
                Some(root) => is_square_root_within(
                    number_of(self),
                    limit as nat,
                    Self::root_tolerance(),
                    format_of::<Self>(),
                    Some(number_of(root)),
                ),
                None => is_square_root_within(
                    number_of(self),
                    limit as nat,
                    Self::root_tolerance(),
                    format_of::<Self>(),
                    None,
                ),
            },
    ;

    /// What is left of the value when `other` times the whole part of the
    /// quotient is taken away.
    fn truncating_remainder(self, other: Self) -> (r: Self)
        ensures
            number_of(r) == truncating_remainder_of(
                number_of(self),
                number_of(other),
                format_of::<Self>(),
            ),
    ;

    /// The greatest value that is not infinite.
    fn greatest_finite_magnitude() -> (r: Self)
        ensures
            !r.negative(),
            r.exponent_field() + 1 == Self::exponent_limit(),
            r.fraction_field() + 1 == Self::fraction_limit(),
    ;

    /// Positive infinity.
    fn infinity() -> (r: Self)
        ensures
            !r.negative(),
            encodes_infinity(r),
    ;

    /// The distance from 1 to the next greater value, as `ulp_of_one` gives it.
    fn least_nonzero_magnitude() -> (r: Self)
        ensures
            !r.negative(),
            r.exponent_field() == bias::<Self>() - Self::fraction_bits(),
            r.fraction_field() == 0,
    ;

    /// The least positive normal value.
    fn least_normal_magnitude() -> (r: Self)
        ensures
            !r.negative(),
            r.exponent_field() == 1,
            r.fraction_field() == 0,
    ;

    /// The positive quiet NaN whose fraction has the highest bit alone.
    fn nan() -> (r: Self)
        ensures
            !r.negative(),
            r.exponent_field() == Self::exponent_limit(),
            2 * r.fraction_field() == Self::fraction_limit(),
    ;

    /// The value of the format that is nearest to the ratio of a circle's
    /// circumference to its diameter.
    fn pi() -> (r: Self)
        ensures
            !r.negative(),
            r.exponent_field() == bias::<Self>() + 1,
            r.fraction_field() == Self::pi_fraction(),
    ;

    /// The radix of the format: two.
    fn radix() -> (r: Self)
        ensures
            !r.negative(),
            r.exponent_field() == bias::<Self>() + 1,
            r.fraction_field() == 0,
    ;

    /// The positive signaling NaN whose fraction has the second highest bit
    /// alone.
    fn signaling_nan() -> (r: Self)
        ensures
            !r.negative(),
            r.exponent_field() == Self::exponent_limit(),
            4 * r.fraction_field() == Self::fraction_limit(),
            encodes_signaling_nan(r),
    ;

    /// The distance from 1 to the next greater value.
    fn ulp_of_one() -> (r: Self)
        ensures
            !r.negative(),
            r.exponent_field() == bias::<Self>() - Self::fraction_bits(),
            r.fraction_field() == 0,
    ;

    /// The greater of two values. A NaN yields to the other value; of two values
    /// that compare equal, the first is returned.
    fn maximum(x: Self, y: Self) -> (r: Self)
        ensures
            r == if encodes_nan(x) {
                y
            } else if encodes_nan(y) {
                x
            } else if precedes(x, y) {
                y
            } else {
                x
            },
    ;

    /// The first value if its magnitude is the greater and neither is a NaN, else
    /// the second.
    fn maximum_magnitude(x: Self, y: Self) -> (r: Self)
        ensures
            r == if !encodes_nan(x) && !encodes_nan(y) && x.magnitude() > y.magnitude() {
                x
            } else {
                y
            },
    ;

    /// The lesser of two values. A NaN yields to the other value; of two values
    /// that compare equal, the first is returned.
    fn minimum(x: Self, y: Self) -> (r: Self)
        ensures
            r == if encodes_nan(x) {
                y
            } else if encodes_nan(y) {
                x
            } else if precedes(y, x) {
                y
            } else {
                x
            },
    ;

    /// The first value if its magnitude is the lesser and neither is a NaN, else
    /// the second.
    fn minimum_magnitude(x: Self, y: Self) -> (r: Self)
        ensures
            r == if !encodes_nan(x) && !encodes_nan(y) && x.magnitude() < y.magnitude() {
                x
            } else {
                y
            },
    ;
}

/// The fields of a value.
pub open spec fn number_of<F: FloatingPointFormat>(x: F) -> Decoded {
    Decoded {
        negative: x.negative(),
        exponent: x.exponent_field() as u32,
        fraction: x.fraction_field() as u64,
    }
}

/// The parameters of a format.
pub open spec fn format_of<F: FloatingPointFormat>() -> Format {
    Format { fraction_bits: F::fraction_bits() as u32, exponent_limit: F::exponent_limit() as u32 }
}

/// The fields of every value are those of a value of its format, and stand for as
/// many units as the value.
pub proof fn lemma_decoding<F: FloatingPointFormat>(x: F)
    ensures
        format_of::<F>().well_formed(),
        format_of::<F>().fraction_limit() == F::fraction_limit(),
        number_of(x).valid(format_of::<F>()),
        number_of(x).exponent == x.exponent_field(),
        number_of(x).fraction == x.fraction_field(),
        number_of(x).units(format_of::<F>()) == units(x),
{
    x.encoding();
    lemma_pow2_strictly_increases(F::fraction_bits(), 64);
    lemma2_to64();
    let f = x.fraction_field();
    if x.exponent_field() == 0 {
        assert(f * pow2(0) == f) by (nonlinear_arith)
            requires
                pow2(0) == 1,
        ;
    }
}

/// The exponent bias: the exponent field of the values from 1 up to 2.
pub open spec fn bias<F: FloatingPointFormat>() -> nat {
    F::exponent_limit() / 2
}

/// The encoding is a NaN.
pub open spec fn encodes_nan<F: FloatingPointFormat>(x: F) -> bool {
    x.exponent_field() == F::exponent_limit() && x.fraction_field() != 0
}

/// The encoding is an infinity.
pub open spec fn encodes_infinity<F: FloatingPointFormat>(x: F) -> bool {
    x.exponent_field() == F::exponent_limit() && x.fraction_field() == 0
}

/// The encoding is a zero.
pub open spec fn encodes_zero<F: FloatingPointFormat>(x: F) -> bool {
    x.exponent_field() == 0 && x.fraction_field() == 0
}

/// The encoding is a subnormal value.
pub open spec fn encodes_subnormal<F: FloatingPointFormat>(x: F) -> bool {
    x.exponent_field() == 0 && x.fraction_field() != 0
}

/// The encoding is a normal value.
pub open spec fn encodes_normal<F: FloatingPointFormat>(x: F) -> bool {
    0 < x.exponent_field() < F::exponent_limit()
}

/// What this library calls finite: normal or zero. Subnormal values are left
/// out, though they are finite numbers.
pub open spec fn counts_as_finite<F: FloatingPointFormat>(x: F) -> bool {
    encodes_normal(x) || encodes_zero(x)
}

/// Whether the encoding is that of a signaling NaN: a NaN whose fraction has its
/// highest bit clear.
pub open spec fn encodes_signaling_nan<F: FloatingPointFormat>(x: F) -> bool {
    encodes_nan(x) && 2 * x.fraction_field() < F::fraction_limit()
}

/// The class of the encoding: NaN before infinite before zero before normal
/// before subnormal; a NaN is signaling or quiet, each of the others has its sign.
pub open spec fn class_of<F: FloatingPointFormat>(x: F) -> FloatingPointClassification {
    if encodes_nan(x) {
        if encodes_signaling_nan(x) {
            FloatingPointClassification::SignalingNaN
        } else {
            FloatingPointClassification::QuietNaN
        }
    } else if encodes_infinity(x) {
        if x.negative() {
            FloatingPointClassification::NegativeInfinity
        } else {
            FloatingPointClassification::PositiveInfinity
        }
    } else if encodes_zero(x) {
        if x.negative() {
            FloatingPointClassification::NegativeZero
        } else {
            FloatingPointClassification::PositiveZero
        }
    } else if encodes_normal(x) {
        if x.negative() {
            FloatingPointClassification::NegativeNormal
        } else {
            FloatingPointClassification::PositiveNormal
        }
    } else {
        if x.negative() {
            FloatingPointClassification::NegativeSubnormal
        } else {
            FloatingPointClassification::PositiveSubnormal
        }
    }
}

/// The place of a value that is not NaN in the order of the format: the
/// magnitude with the sign. Both zeros have the place 0.
pub open spec fn order_key<F: FloatingPointFormat>(x: F) -> int {
    if x.negative() {
        -(x.magnitude() as int)
    } else {
        x.magnitude() as int
    }
}

/// `x < other` as IEEE-754 compares: neither is NaN, and `x` comes first.
pub open spec fn precedes<F: FloatingPointFormat>(x: F, other: F) -> bool {
    !encodes_nan(x) && !encodes_nan(other) && order_key(x) < order_key(other)
}

/// `x <= other` as IEEE-754 compares.
pub open spec fn precedes_or_equals<F: FloatingPointFormat>(x: F, other: F) -> bool {
    !encodes_nan(x) && !encodes_nan(other) && order_key(x) <= order_key(other)
}

/// The absolute value of a value that is neither NaN nor infinite, in units of
/// the least positive value of the format.
pub open spec fn units<F: FloatingPointFormat>(x: F) -> nat {
    if x.exponent_field() == 0 {
        x.fraction_field()
    } else {
        (F::fraction_limit() + x.fraction_field()) * pow2(
            (x.exponent_field() - 1) as nat,
        )
    }
}

/// `r` is what `next_up` makes of `x`: `x` for a NaN, an infinity or a
/// zero, else the value one place later in the order of the format.
pub open spec fn steps_up_to<F: FloatingPointFormat>(x: F, r: F) -> bool {
    if encodes_nan(x) || encodes_infinity(x) || encodes_zero(x) {
        r == x
    } else {
        r.negative() == x.negative() && r.magnitude() == if x.negative() {
            x.magnitude() - 1
        } else {
            x.magnitude() + 1int
        }
    }
}

/// `r` is what `next_down` makes of `x`: `x` for a NaN, an infinity or a
/// zero, else the value one place earlier in the order of the format.
pub open spec fn steps_down_to<F: FloatingPointFormat>(x: F, r: F) -> bool {
    if encodes_nan(x) || encodes_infinity(x) || encodes_zero(x) {
        r == x
    } else {
        r.negative() == x.negative() && r.magnitude() == if x.negative() {
            x.magnitude() + 1int
        } else {
            x.magnitude() - 1
        }
    }
}

/// `r` is the unit in the last place of `x`: `x` for a NaN or an
/// infinity; positive infinity for the greatest finite magnitude; else the
/// positive power of two that separates `x` from the next value further
/// from zero.
pub open spec fn has_ulp<F: FloatingPointFormat>(x: F, r: F) -> bool {
    let e = x.exponent_field();
    if e == F::exponent_limit() {
        r == x
    } else {
        !r.negative() && if e + 1 == F::exponent_limit() && x.fraction_field() + 1
            == F::fraction_limit() {
            encodes_infinity(r)
        } else if e == 0 {
            r.exponent_field() == 0 && r.fraction_field() == 1
        } else if e <= F::fraction_bits() {
            r.exponent_field() == 0 && r.fraction_field() == pow2((e - 1) as nat)
        } else {
            r.exponent_field() == e - F::fraction_bits() && r.fraction_field() == 0
        }
    }
}

} // verus!

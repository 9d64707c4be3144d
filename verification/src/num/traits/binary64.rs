//! The IEEE-754 binary64 format.

use vstd::arithmetic::power2::lemma2_to64_rest;
use vstd::prelude::*;
use super::arithmetic::{difference, difference_of, sum, sum_of, Decoded};
use super::bits::{lemma_pow2_below, power_of_two};
use super::integral::round_to_whole;
use super::product::{product, product_of};
use super::quotient::{quotient, quotient_of};
use super::root::{remainder, square_root, square_root_within, truncating_remainder};
use super::nearest::{fraction, fraction_of, rounded, rounded_with, truncated, within};
use super::rounding::Format;
use super::{
    format_of, lemma_decoding, number_of, FloatingPoint, FloatingPointClassification,
    FloatingPointFormat, FloatingPointRoundingRule, FloatingPointSign,
};

verus! {

/// A value of the binary64 format, held as the 64 bits of its encoding: one sign
/// bit, eleven exponent bits and 52 fraction bits, from the most significant down.
#[derive(Clone, Copy, Debug)]
pub struct Binary64 {
    /// The encoding.
    pub bits: u64,
}

/// The value nearest to one tenth.
fn tenth() -> (r: Decoded)
    ensures
        r == Binary64::tenth(),
        r.valid(format_of::<Binary64>()),
{
    proof {
        lemma2_to64_rest();
    }
    Decoded { negative: false, exponent: 0x3fb, fraction: 0x9_9999_9999_999a }
}

/// How far apart two guesses of Newton's method may be at the end.
fn root_tolerance() -> (r: Decoded)
    ensures
        r == Binary64::root_tolerance(),
        r.valid(format_of::<Binary64>()),
{
    proof {
        lemma2_to64_rest();
    }
    Decoded { negative: false, exponent: 0x3f1, fraction: 0xa_36e2_eb1c_432d }
}

/// The parameters of the format.
pub fn format() -> (format: Format)
    ensures
        format == format_of::<Binary64>(),
        format.well_formed(),
{
    Format { fraction_bits: 52, exponent_limit: 0x7ff }
}

impl Binary64 {
    /// The fields of the value.
    pub fn decoded(self) -> (d: Decoded)
        ensures
            d == number_of(self),
            d.valid(format_of::<Binary64>()),
    {
        proof {
            lemma_decoding(self);
        }
        Decoded {
            negative: self.bits >= 0x8000_0000_0000_0000,
            exponent: ((self.bits / 0x10_0000_0000_0000) % 0x800) as u32,
            fraction: self.bits % 0x10_0000_0000_0000,
        }
    }

    /// The value with the given fields.
    pub fn encoded(d: Decoded) -> (r: Self)
        requires
            d.valid(format_of::<Binary64>()),
        ensures
            number_of(r) == d,
    {
        proof {
            lemma2_to64_rest();
        }
        let sign: u64 = if d.negative {
            0x8000_0000_0000_0000
        } else {
            0
        };
        Binary64 { bits: sign + d.exponent as u64 * 0x10_0000_0000_0000 + d.fraction }
    }

    /// The value with the given encoding.
    pub fn from_bits(bits: u64) -> (r: Self)
        ensures
            r.bits == bits,
    {
        Binary64 { bits }
    }

    /// The encoding of the value.
    pub fn to_bits(self) -> (bits: u64)
        ensures
            bits == self.bits,
    {
        self.bits
    }

    /// Zero, the additive identity.
    pub fn zero() -> (r: Self)
        ensures
            r.bits == 0,
    {
        Binary64 { bits: 0 }
    }

    /// One, the multiplicative identity.
    pub fn one() -> (r: Self)
        ensures
            r.bits == 0x3ff0_0000_0000_0000,
    {
        Binary64 { bits: 0x3ff0_0000_0000_0000 }
    }
}

impl FloatingPointFormat for Binary64 {
    open spec fn negative(self) -> bool {
        self.bits >= 0x8000_0000_0000_0000
    }

    open spec fn exponent_field(self) -> nat {
        ((self.bits / 0x10_0000_0000_0000) % 0x800) as nat
    }

    open spec fn fraction_field(self) -> nat {
        (self.bits % 0x10_0000_0000_0000) as nat
    }

    open spec fn magnitude(self) -> nat {
        (self.bits % 0x8000_0000_0000_0000) as nat
    }

    open spec fn fraction_bits() -> nat {
        52
    }

    open spec fn fraction_limit() -> nat {
        0x10_0000_0000_0000
    }

    open spec fn exponent_limit() -> nat {
        0x7ff
    }

    open spec fn reported_exponent(self) -> int {
        ((self.bits / 0x80_0000) % 0x100) as int
    }

    open spec fn significand_of(x: Decoded) -> Decoded {
        fraction_of(x, Format { fraction_bits: 52, exponent_limit: 0x7ff })
    }

    open spec fn adding_product_of(x: Decoded, lhs: Decoded, rhs: Decoded) -> Decoded {
        product_of(lhs, rhs, Format { fraction_bits: 52, exponent_limit: 0x7ff })
    }

    open spec fn root_tolerance() -> Decoded {
        Decoded { negative: false, exponent: 0x3f1, fraction: 0xa_36e2_eb1c_432d }
    }

    open spec fn tenth() -> Decoded {
        Decoded { negative: false, exponent: 0x3fb, fraction: 0x9_9999_9999_999a }
    }

    open spec fn pi_fraction() -> nat {
        0x9_21fb_5444_2d18
    }

    proof fn encoding(self) {
        lemma2_to64_rest();
    }

    proof fn encoding_is_injective(self, other: Self) {
    }
}

impl FloatingPoint for Binary64 {
    type Exponent = i64;

    fn ceil(self) -> (r: Self) {
        Binary64::encoded(round_to_whole(self.decoded(), true, format()))
    }

    fn floor(self) -> (r: Self) {
        Binary64::encoded(round_to_whole(self.decoded(), false, format()))
    }

    fn fract(self) -> (r: Self) {
        Binary64::encoded(fraction(self.decoded(), format()))
    }

    fn trunc(self) -> (r: Self) {
        Binary64::encoded(truncated(self.decoded(), format()))
    }

    /// Bits 23 to 30 of the encoding.
    fn exponent(self) -> (e: i64) {
        let bits = self.bits;
        let field = (bits >> 23) & 0xff;
        assert(field == (bits / 0x80_0000) % 0x100) by (bit_vector)
            requires
                field == (bits >> 23) & 0xff,
        ;
        field as i64
    }

    fn floating_point_class(&self) -> (c: FloatingPointClassification) {
        if self.is_nan() {
            if self.is_signaling_nan() {
                FloatingPointClassification::SignalingNaN
            } else {
                FloatingPointClassification::QuietNaN
            }
        } else if self.is_infinite() {
            if self.bits >= 0x8000_0000_0000_0000 {
                FloatingPointClassification::NegativeInfinity
            } else {
                FloatingPointClassification::PositiveInfinity
            }
        } else if self.is_zero() {
            if self.bits >= 0x8000_0000_0000_0000 {
                FloatingPointClassification::NegativeZero
            } else {
                FloatingPointClassification::PositiveZero
            }
        } else if self.is_normal() {
            if self.bits >= 0x8000_0000_0000_0000 {
                FloatingPointClassification::NegativeNormal
            } else {
                FloatingPointClassification::PositiveNormal
            }
        } else {
            if self.bits >= 0x8000_0000_0000_0000 {
                FloatingPointClassification::NegativeSubnormal
            } else {
                FloatingPointClassification::PositiveSubnormal
            }
        }
    }

    fn is_canonical(&self) -> (b: bool) {
        !self.is_nan()
    }

    fn is_finite(&self) -> (b: bool) {
        self.is_normal() || self.is_zero()
    }

    fn is_infinite(&self) -> (b: bool) {
        self.bits % 0x8000_0000_0000_0000 == 0x7ff0_0000_0000_0000
    }

    fn is_nan(&self) -> (b: bool) {
        self.bits % 0x8000_0000_0000_0000 > 0x7ff0_0000_0000_0000
    }

    fn is_normal(&self) -> (b: bool) {
        let exponent = (self.bits / 0x10_0000_0000_0000) % 0x800;
        0 < exponent && exponent < 0x7ff
    }

    fn is_signaling_nan(&self) -> (b: bool) {
        self.is_nan() && self.bits % 0x10_0000_0000_0000 < 0x8_0000_0000_0000
    }

    fn is_subnormal(&self) -> (b: bool) {
        let magnitude = self.bits % 0x8000_0000_0000_0000;
        0 < magnitude && magnitude < 0x10_0000_0000_0000
    }

    fn is_zero(&self) -> (b: bool) {
        self.bits % 0x8000_0000_0000_0000 == 0
    }

    fn next_down(self) -> (r: Self) {
        if self.is_nan() || self.is_infinite() || self.is_zero() {
            return self;
        }
        if self.bits >= 0x8000_0000_0000_0000 {
            Binary64 { bits: self.bits + 1 }
        } else {
            Binary64 { bits: self.bits - 1 }
        }
    }

    fn next_up(self) -> (r: Self) {
        if self.is_nan() || self.is_infinite() || self.is_zero() {
            return self;
        }
        if self.bits >= 0x8000_0000_0000_0000 {
            Binary64 { bits: self.bits - 1 }
        } else {
            Binary64 { bits: self.bits + 1 }
        }
    }

    fn sign(&self) -> (s: FloatingPointSign) {
        if self.bits >= 0x8000_0000_0000_0000 {
            FloatingPointSign::Minus
        } else {
            FloatingPointSign::Plus
        }
    }

    fn significand(self) -> (r: Self) {
        let r = self.fract();
        assert(format_of::<Binary64>() == Format { fraction_bits: 52, exponent_limit: 0x7ff });
        assert(number_of(r) == Binary64::significand_of(number_of(self)));
        r
    }

    fn add_product(&mut self, lhs: Self, rhs: Self) {
        *self = self.adding_product(lhs, rhs);
    }

    fn adding_product(self, lhs: Self, rhs: Self) -> (r: Self) {
        lhs.multiplying(rhs)
    }

    fn form_remainder(&mut self, other: Self) {
        *self = self.remainder(other);
    }

    fn form_truncating_remainder(&mut self, other: Self) {
        *self = self.truncating_remainder(other);
    }

    fn ulp(self) -> (r: Self) {
        if self.is_nan() || self.is_infinite() {
            return self;
        }
        let magnitude = self.bits % 0x8000_0000_0000_0000;
        let exponent = magnitude / 0x10_0000_0000_0000;
        if magnitude == 0x7fef_ffff_ffff_ffff {
            Binary64 { bits: 0x7ff0_0000_0000_0000 }
        } else if exponent == 0 {
            Binary64 { bits: 1 }
        } else if exponent <= 52 {
            proof {
                lemma2_to64_rest();
                lemma_pow2_below((exponent - 1) as nat, 52);
            }
            Binary64 { bits: power_of_two((exponent - 1) as u32) }
        } else {
            Binary64 { bits: (exponent - 52) * 0x10_0000_0000_0000 }
        }
    }

    fn negate(&mut self) {
        if self.bits >= 0x8000_0000_0000_0000 {
            self.bits = self.bits - 0x8000_0000_0000_0000;
        } else {
            self.bits = self.bits + 0x8000_0000_0000_0000;
        }
    }

    fn is_equal_to(&self, other: Self) -> (b: bool) {
        within(difference(self.decoded(), other.decoded(), format()), tenth(), format())
    }

    fn is_less_than(&self, other: Self) -> (b: bool) {
        if self.is_nan() || other.is_nan() {
            return false;
        }
        let a = self.bits % 0x8000_0000_0000_0000;
        let b = other.bits % 0x8000_0000_0000_0000;
        if self.bits >= 0x8000_0000_0000_0000 {
            if other.bits >= 0x8000_0000_0000_0000 {
                b < a
            } else {
                a != 0 || b != 0
            }
        } else {
            if other.bits >= 0x8000_0000_0000_0000 {
                false
            } else {
                a < b
            }
        }
    }

    fn is_less_than_or_equal_to(&self, other: Self) -> (b: bool) {
        if self.is_nan() || other.is_nan() {
            return false;
        }
        !other.is_less_than(*self)
    }

    fn is_totally_ordered_below_or_equal_to(&self, other: Self) -> (b: bool) {
        self.is_finite() && other.is_finite()
    }

    fn remainder(self, other: Self) -> (r: Self) {
        Binary64::encoded(remainder(self.decoded(), other.decoded(), format()))
    }

    fn round(&mut self) {
        *self = self.rounded();
    }

    fn round_with(&mut self, rule: FloatingPointRoundingRule) {
        *self = self.rounded_with(rule);
    }

    fn rounded(self) -> (r: Self) {
        Binary64::encoded(rounded(self.decoded(), format()))
    }

    fn rounded_with(self, rule: FloatingPointRoundingRule) -> (r: Self) {
        Binary64::encoded(rounded_with(self.decoded(), rule, tenth(), format()))
    }

    fn form_square_root(&mut self) {
        *self = self.square_root();
    }

    fn square_root(self) -> (r: Self) {
        Binary64::encoded(square_root(self.decoded(), root_tolerance(), format()))
    }

    fn square_root_within(self, limit: usize) -> (r: Option<Self>) {
        match square_root_within(self.decoded(), limit, root_tolerance(), format()) {
            Some(root) => Some(Binary64::encoded(root)),
            None => None,
        }
    }

    fn truncating_remainder(self, other: Self) -> (r: Self) {
        Binary64::encoded(truncating_remainder(self.decoded(), other.decoded(), format()))
    }

    fn greatest_finite_magnitude() -> (r: Self) {
        Binary64 { bits: 0x7fef_ffff_ffff_ffff }
    }

    fn infinity() -> (r: Self) {
        Binary64 { bits: 0x7ff0_0000_0000_0000 }
    }

    fn least_nonzero_magnitude() -> (r: Self) {
        Binary64 { bits: 0x3cb0_0000_0000_0000 }
    }

    fn least_normal_magnitude() -> (r: Self) {
        Binary64 { bits: 0x0010_0000_0000_0000 }
    }

    fn nan() -> (r: Self) {
        Binary64 { bits: 0x7ff8_0000_0000_0000 }
    }

    fn pi() -> (r: Self)
        ensures
            r.bits == 0x4009_21fb_5444_2d18,
    {
        Binary64 { bits: 0x4009_21fb_5444_2d18 }
    }

    fn radix() -> (r: Self) {
        Binary64 { bits: 0x4000_0000_0000_0000 }
    }

    fn signaling_nan() -> (r: Self) {
        Binary64 { bits: 0x7ff4_0000_0000_0000 }
    }

    fn ulp_of_one() -> (r: Self) {
        Binary64 { bits: 0x3cb0_0000_0000_0000 }
    }

    fn maximum(x: Self, y: Self) -> (r: Self) {
        if x.is_nan() {
            y
        } else if y.is_nan() {
            x
        } else if x.is_less_than(y) {
            y
        } else {
            x
        }
    }

    fn maximum_magnitude(x: Self, y: Self) -> (r: Self) {
        if !x.is_nan() && !y.is_nan() && x.bits % 0x8000_0000_0000_0000 > y.bits % 0x8000_0000_0000_0000 {
            x
        } else {
            y
        }
    }

    fn minimum(x: Self, y: Self) -> (r: Self) {
        if x.is_nan() {
            y
        } else if y.is_nan() {
            x
        } else if y.is_less_than(x) {
            y
        } else {
            x
        }
    }

    fn minimum_magnitude(x: Self, y: Self) -> (r: Self) {
        if !x.is_nan() && !y.is_nan() && x.bits % 0x8000_0000_0000_0000 < y.bits % 0x8000_0000_0000_0000 {
            x
        } else {
            y
        }
    }
}

impl Binary64 {
    /// The sum as IEEE-754 defines it, rounded to the nearest value.
    pub fn adding(self, other: Self) -> (r: Self)
        ensures
            number_of(r) == sum_of(number_of(self), number_of(other), format_of::<Binary64>()),
    {
        Binary64::encoded(sum(self.decoded(), other.decoded(), format()))
    }

    /// The product as IEEE-754 defines it, rounded to the nearest value.
    pub fn multiplying(self, other: Self) -> (r: Self)
        ensures
            number_of(r) == product_of(number_of(self), number_of(other), format_of::<Binary64>()),
    {
        Binary64::encoded(product(self.decoded(), other.decoded(), format()))
    }

    /// The quotient as IEEE-754 defines it, rounded to the nearest value.
    pub fn dividing(self, other: Self) -> (r: Self)
        ensures
            number_of(r) == quotient_of(number_of(self), number_of(other), format_of::<Binary64>()),
    {
        Binary64::encoded(quotient(self.decoded(), other.decoded(), format()))
    }

    /// The difference as IEEE-754 defines it, rounded to the nearest value.
    pub fn subtracting(self, other: Self) -> (r: Self)
        ensures
            number_of(r) == difference_of(
                number_of(self),
                number_of(other),
                format_of::<Binary64>(),
            ),
    {
        Binary64::encoded(difference(self.decoded(), other.decoded(), format()))
    }
}

} // verus!

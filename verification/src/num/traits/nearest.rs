//! Rounding of floating-point values to whole numbers by a rule, on their decoded
//! fields, and the parts that a value splits into.

use vstd::prelude::*;
use vstd::arithmetic::power2::{lemma_pow2_pos, lemma_pow2_unfold, pow2};
use super::arithmetic::{
    difference, difference_of, lemma_difference_is_exact, lemma_number_of_units,
    lemma_sum_is_exact, sum, sum_of, Decoded,
};
use super::bits::lemma_pow2_below;
use super::integral::{
    bias_of, ceiling_of, floor_of, lemma_below_one, lemma_floor_and_ceiling_bracket,
    lemma_whole_part, round_to_whole, units_of_one,
};
use super::rounding::Format;
use super::FloatingPointRoundingRule;

verus! {

/// The whole part of a value: the whole number nearest to it that is not further
/// from zero, the floor of a value that is not negative and the ceiling of one
/// that is.
pub open spec fn truncated_of(x: Decoded, format: Format) -> Decoded {
    if x.negative {
        ceiling_of(x, format)
    } else {
        floor_of(x, format)
    }
}

/// What is left of a value beside its whole part: the value less its whole part.
pub open spec fn fraction_of(x: Decoded, format: Format) -> Decoded {
    difference_of(x, truncated_of(x, format), format)
}

/// The number one.
pub open spec fn one_of(format: Format) -> Decoded {
    Decoded { negative: false, exponent: bias_of(format) as u32, fraction: 0 }
}

/// `x > 0` as IEEE-754 compares.
pub open spec fn is_above_zero(x: Decoded, format: Format) -> bool {
    !x.negative && !x.is_nan(format) && (x.exponent != 0 || x.fraction != 0)
}

/// `x < 0` as IEEE-754 compares.
pub open spec fn is_below_zero(x: Decoded, format: Format) -> bool {
    x.negative && !x.is_nan(format) && (x.exponent != 0 || x.fraction != 0)
}

/// The magnitude of `x` is one half or more, and `x` is not a NaN.
pub open spec fn is_half_or_more(x: Decoded, format: Format) -> bool {
    !x.is_nan(format) && x.exponent + 1 >= bias_of(format)
}

/// The magnitude of `x` is below that of `bound`, and `x` is not a NaN:
/// `x.abs() < bound` for a bound that is a positive number.
pub open spec fn is_within(x: Decoded, bound: Decoded, format: Format) -> bool {
    !x.is_nan(format) && (x.exponent < bound.exponent || (x.exponent == bound.exponent
        && x.fraction < bound.fraction))
}

/// The whole number nearest to `x`; of two that are equally near, the one further
/// from zero: the whole part of `x` where what is left beside it is below one
/// half, and else the whole number next to the whole part, away from zero.
pub open spec fn rounded_of(x: Decoded, format: Format) -> Decoded {
    let whole = truncated_of(x, format);
    let rest = fraction_of(x, format);
    if !is_half_or_more(rest, format) {
        whole
    } else if x.negative {
        difference_of(whole, one_of(format), format)
    } else {
        sum_of(whole, one_of(format), format)
    }
}

/// Whether what is left of `x` beside its whole part is within `tolerance` of one
/// half, above or below zero.
pub open spec fn is_near_half(x: Decoded, tolerance: Decoded, format: Format) -> bool {
    let rest = fraction_of(x, format);
    let half = Decoded { negative: false, exponent: (bias_of(format) - 1) as u32, fraction: 0 };
    is_within(difference_of(rest, half, format), tolerance, format) || is_within(
        sum_of(rest, half, format),
        tolerance,
        format,
    )
}

/// The value rounded away from zero: up if it is above zero, down if it is below,
/// and itself if it is a zero or a NaN.
pub open spec fn away_from_zero_of(x: Decoded, format: Format) -> Decoded {
    if is_above_zero(x, format) {
        ceiling_of(x, format)
    } else if is_below_zero(x, format) {
        floor_of(x, format)
    } else {
        x
    }
}

/// The value rounded to a whole number by the given rule. A NaN stays as it is
/// under every rule.
pub open spec fn rounded_with_of(
    x: Decoded,
    rule: FloatingPointRoundingRule,
    tolerance: Decoded,
    format: Format,
) -> Decoded {
    match rule {
        FloatingPointRoundingRule::AwayFromZero => away_from_zero_of(x, format),
        FloatingPointRoundingRule::Down => floor_of(x, format),
        FloatingPointRoundingRule::ToNearestOrAwayFromZero => if is_near_half(
            x,
            tolerance,
            format,
        ) {
            away_from_zero_of(x, format)
        } else {
            rounded_of(x, format)
        },
        FloatingPointRoundingRule::ToNearestOrEven => rounded_of(x, format),
        FloatingPointRoundingRule::TowardZero => truncated_of(x, format),
        FloatingPointRoundingRule::Up => ceiling_of(x, format),
    }
}

/// The whole part of `x`.
pub fn truncated(x: Decoded, format: Format) -> (r: Decoded)
    requires
        format.well_formed(),
        x.valid(format),
    ensures
        r == truncated_of(x, format),
        r.valid(format),
{
    round_to_whole(x, x.negative, format)
}

/// What is left of `x` beside its whole part.
pub fn fraction(x: Decoded, format: Format) -> (r: Decoded)
    requires
        format.well_formed(),
        x.valid(format),
    ensures
        r == fraction_of(x, format),
        r.valid(format),
{
    difference(x, truncated(x, format), format)
}

/// The number one.
pub fn one(format: Format) -> (r: Decoded)
    requires
        format.well_formed(),
    ensures
        r == one_of(format),
        r.valid(format),
{
    proof {
        vstd::arithmetic::power2::lemma_pow2_pos(format.fraction_bits as nat);
    }
    Decoded { negative: false, exponent: format.exponent_limit / 2, fraction: 0 }
}

/// Whether `x` is a NaN.
fn is_nan(x: Decoded, format: Format) -> (b: bool)
    ensures
        b == x.is_nan(format),
{
    x.exponent == format.exponent_limit && x.fraction != 0
}

/// Whether `x` is above zero.
fn above_zero(x: Decoded, format: Format) -> (b: bool)
    ensures
        b == is_above_zero(x, format),
{
    !x.negative && !is_nan(x, format) && (x.exponent != 0 || x.fraction != 0)
}

/// Whether `x` is below zero.
fn below_zero(x: Decoded, format: Format) -> (b: bool)
    ensures
        b == is_below_zero(x, format),
{
    x.negative && !is_nan(x, format) && (x.exponent != 0 || x.fraction != 0)
}

/// Whether the magnitude of `x` is below that of `bound`, and `x` is not a NaN.
pub fn within(x: Decoded, bound: Decoded, format: Format) -> (b: bool)
    ensures
        b == is_within(x, bound, format),
{
    !is_nan(x, format) && (x.exponent < bound.exponent || (x.exponent == bound.exponent
        && x.fraction < bound.fraction))
}

/// The whole number nearest to `x`; of two that are equally near, the one further
/// from zero.
pub fn rounded(x: Decoded, format: Format) -> (r: Decoded)
    requires
        format.well_formed(),
        x.valid(format),
    ensures
        r == rounded_of(x, format),
        r.valid(format),
{
    let whole = truncated(x, format);
    let rest = fraction(x, format);
    if is_nan(rest, format) || rest.exponent + 1 < format.exponent_limit / 2 {
        whole
    } else if x.negative {
        difference(whole, one(format), format)
    } else {
        sum(whole, one(format), format)
    }
}

/// The value rounded away from zero.
fn away_from_zero(x: Decoded, format: Format) -> (r: Decoded)
    requires
        format.well_formed(),
        x.valid(format),
    ensures
        r == away_from_zero_of(x, format),
        r.valid(format),
{
    if above_zero(x, format) {
        round_to_whole(x, true, format)
    } else if below_zero(x, format) {
        round_to_whole(x, false, format)
    } else {
        x
    }
}

/// The value rounded to a whole number by the given rule.
pub fn rounded_with(
    x: Decoded,
    rule: FloatingPointRoundingRule,
    tolerance: Decoded,
    format: Format,
) -> (r: Decoded)
    requires
        format.well_formed(),
        x.valid(format),
        tolerance.valid(format),
    ensures
        r == rounded_with_of(x, rule, tolerance, format),
        r.valid(format),
{
    match rule {
        FloatingPointRoundingRule::AwayFromZero => away_from_zero(x, format),
        FloatingPointRoundingRule::Down => round_to_whole(x, false, format),
        FloatingPointRoundingRule::ToNearestOrAwayFromZero => {
            let rest = fraction(x, format);
            proof {
                lemma_pow2_pos(format.fraction_bits as nat);
            }
            let half = Decoded {
                negative: false,
                exponent: format.exponent_limit / 2 - 1,
                fraction: 0,
            };
            if within(difference(rest, half, format), tolerance, format) || within(
                sum(rest, half, format),
                tolerance,
                format,
            ) {
                away_from_zero(x, format)
            } else {
                rounded(x, format)
            }
        },
        FloatingPointRoundingRule::ToNearestOrEven => rounded(x, format),
        FloatingPointRoundingRule::TowardZero => truncated(x, format),
        FloatingPointRoundingRule::Up => round_to_whole(x, true, format),
    }
}

/// A NaN is returned as it is under every rule.
pub proof fn lemma_nan_is_kept(
    x: Decoded,
    rule: FloatingPointRoundingRule,
    tolerance: Decoded,
    format: Format,
)
    requires
        format.well_formed(),
        x.valid(format),
        x.is_nan(format),
    ensures
        rounded_with_of(x, rule, tolerance, format) == x,
        rounded_of(x, format) == x,
        truncated_of(x, format) == x,
        fraction_of(x, format) == x,
{
}

/// The whole part and the fraction of a number add up to the number: the whole
/// part is a whole number that is not further from zero than the number and less
/// than one away from it, the fraction is what is left, with the sign of the
/// number, and their sum stands for the number itself.
pub proof fn lemma_whole_and_fraction_add_up(x: Decoded, format: Format)
    requires
        format.well_formed(),
        x.valid(format),
        x.is_number(format),
    ensures
        fraction_of(x, format).is_number(format),
        truncated_of(x, format).is_number(format),
        sum_of(truncated_of(x, format), fraction_of(x, format), format).signed_units(format)
            == x.signed_units(format),
        truncated_of(x, format).units(format) % units_of_one(format) == 0,
        truncated_of(x, format).units(format) == x.units(format) / units_of_one(format)
            * units_of_one(format),
        fraction_of(x, format).units(format) == x.units(format) % units_of_one(format),
        fraction_of(x, format).signed_units(format) == x.signed_units(format) - truncated_of(
            x,
            format,
        ).signed_units(format),
{
    lemma_floor_and_ceiling_bracket(x, format);
    lemma_pow2_pos(format.fraction_bits as nat);
    lemma_pow2_unfold(format.precision());
    lemma_pow2_pos((bias_of(format) - 1) as nat);
    vstd::arithmetic::power2::lemma2_to64();
    let one = units_of_one(format) as int;
    let u = x.units(format) as int;
    let whole = truncated_of(x, format);
    assert(one > 0) by (nonlinear_arith)
        requires
            one == format.fraction_limit() * pow2((bias_of(format) - 1) as nat),
            format.fraction_limit() > 0,
            pow2((bias_of(format) - 1) as nat) > 0,
    ;
    vstd::arithmetic::div_mod::lemma_fundamental_div_mod(u, one);
    vstd::arithmetic::div_mod::lemma_mod_bound(u, one);
    assert((u / one) * one == one * (u / one)) by (nonlinear_arith);
    let zero = Decoded { negative: false, exponent: 0, fraction: 0 };
    assert(zero.units(format) == 0) by (nonlinear_arith)
        requires
            zero.units(format) == 0 * pow2(0),
    ;
    let rest_units: int = u % one;
    assert(whole.units(format) == (u / one) * one);
    // a number of the format stands for what is left
    let magnitude = if x.exponent < bias_of(format) {
        lemma_below_one(x, format);
        Decoded { negative: false, exponent: x.exponent, fraction: x.fraction }
    } else {
        lemma_whole_part(x, format);
        let shift = x.exponent - bias_of(format);
        if shift >= format.fraction_bits || rest_units == 0 {
            zero
        } else {
            let m = pow2((format.fraction_bits - shift) as nat);
            let low = x.fraction as nat % m;
            lemma_pow2_below((format.fraction_bits - shift) as nat, format.precision());
            vstd::arithmetic::div_mod::lemma_mod_bound(x.fraction as int, m as int);
            lemma_number_of_units(low, x.scale(), x, format)
        }
    };
    assert(magnitude.units(format) == rest_units);
    let witness = Decoded {
        negative: x.negative,
        exponent: magnitude.exponent,
        fraction: magnitude.fraction,
    };
    assert(witness.units(format) == magnitude.units(format));
    lemma_difference_is_exact(x, whole, witness, format);
    let fraction = fraction_of(x, format);
    lemma_sum_is_exact(whole, fraction, x, format);
}

} // verus!

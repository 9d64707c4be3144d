//! Remainders and square roots of floating-point values, on their decoded fields.

use vstd::arithmetic::power2::lemma_pow2_pos;
use vstd::prelude::*;
use super::arithmetic::{default_nan, difference, difference_of, make_default_nan, sum, sum_of, Decoded};
use super::integral::bias_of;
use super::nearest::{is_below_zero, rounded, rounded_of, truncated, truncated_of};
use super::product::{product, product_of};
use super::quotient::{quotient, quotient_of};
use super::rounding::Format;

verus! {

/// What is left of `x` when the multiple of `y` nearest to it is taken away: `x`
/// less `y` times the rounded quotient.
pub open spec fn remainder_of(x: Decoded, y: Decoded, format: Format) -> Decoded {
    difference_of(
        x,
        product_of(rounded_of(quotient_of(x, y, format), format), y, format),
        format,
    )
}

/// What is left of `x` when `y` times the whole part of the quotient is taken away.
pub open spec fn truncating_remainder_of(x: Decoded, y: Decoded, format: Format) -> Decoded {
    difference_of(
        x,
        product_of(y, truncated_of(quotient_of(x, y, format), format), format),
        format,
    )
}

/// What is left of `x` when the multiple of `y` nearest to it is taken away.
pub fn remainder(x: Decoded, y: Decoded, format: Format) -> (r: Decoded)
    requires
        format.well_formed(),
        x.valid(format),
        y.valid(format),
    ensures
        r == remainder_of(x, y, format),
        r.valid(format),
{
    let times = rounded(quotient(x, y, format), format);
    difference(x, product(times, y, format), format)
}

/// What is left of `x` when `y` times the whole part of the quotient is taken away.
pub fn truncating_remainder(x: Decoded, y: Decoded, format: Format) -> (r: Decoded)
    requires
        format.well_formed(),
        x.valid(format),
        y.valid(format),
    ensures
        r == truncating_remainder_of(x, y, format),
        r.valid(format),
{
    let times = truncated(quotient(x, y, format), format);
    difference(x, product(y, times, format), format)
}

/// The number two.
pub open spec fn two_of(format: Format) -> Decoded {
    Decoded { negative: false, exponent: (bias_of(format) + 1) as u32, fraction: 0 }
}

/// The guess for the square root of `x` after `steps` steps of Newton's method: half
/// of `x` to begin with, and after each step the mean of the guess and of `x`
/// divided by the guess.
pub open spec fn newton_guess(x: Decoded, steps: nat, format: Format) -> Decoded
    decreases steps,
{
    if steps == 0 {
        quotient_of(x, two_of(format), format)
    } else {
        let guess = newton_guess(x, (steps - 1) as nat, format);
        quotient_of(sum_of(guess, quotient_of(x, guess, format), format), two_of(format), format)
    }
}

/// The magnitude of `x` is above that of `bound`, and `x` is not a NaN:
/// `x.abs() > bound` for a bound that is a positive number.
pub open spec fn is_beyond(x: Decoded, bound: Decoded, format: Format) -> bool {
    !x.is_nan(format) && (x.exponent > bound.exponent || (x.exponent == bound.exponent
        && x.fraction > bound.fraction))
}

/// Whether Newton's method goes on after `steps` steps: it takes at least one
/// step, and goes on after that while the last two guesses are more than the
/// tolerance apart.
pub open spec fn newton_goes_on(x: Decoded, steps: nat, tolerance: Decoded, format: Format) -> bool {
    steps == 0 || is_beyond(
        difference_of(
            newton_guess(x, steps, format),
            newton_guess(x, (steps - 1) as nat, format),
            format,
        ),
        tolerance,
        format,
    )
}

/// `r` is the square root that Newton's method finds for `x` in at most `limit`
/// steps, if it finds one: the default NaN for a value below zero, positive zero for
/// a zero, and else the first guess, after at least one step, that is within the
/// tolerance of the guess before it.
pub open spec fn is_square_root_within(
    x: Decoded,
    limit: nat,
    tolerance: Decoded,
    format: Format,
    r: Option<Decoded>,
) -> bool {
    if is_below_zero(x, format) {
        r == Some(default_nan(format))
    } else if x.exponent == 0 && x.fraction == 0 {
        r == Some(Decoded { negative: false, exponent: 0, fraction: 0 })
    } else {
        match r {
            Some(root) => exists|steps: nat|
                steps <= limit && root == #[trigger] newton_guess(x, steps, format)
                    && !newton_goes_on(x, steps, tolerance, format) && forall|earlier: nat|
                    earlier < steps ==> #[trigger] newton_goes_on(x, earlier, tolerance, format),
            None => forall|steps: nat|
                steps <= limit ==> #[trigger] newton_goes_on(x, steps, tolerance, format),
        }
    }
}

/// The square root of `x` by Newton's method, if at most `limit` steps find it.
pub fn square_root_within(x: Decoded, limit: usize, tolerance: Decoded, format: Format) -> (r:
    Option<Decoded>)
    requires
        format.well_formed(),
        x.valid(format),
        tolerance.valid(format),
    ensures
        is_square_root_within(x, limit as nat, tolerance, format, r),
        r matches Some(root) ==> root.valid(format),
{
    proof {
        lemma_pow2_pos(format.fraction_bits as nat);
    }
    let is_nan = x.exponent == format.exponent_limit && x.fraction != 0;
    let is_zero = x.exponent == 0 && x.fraction == 0;
    if x.negative && !is_nan && !is_zero {
        return Some(make_default_nan(format));
    }
    if is_zero {
        return Some(Decoded { negative: false, exponent: 0, fraction: 0 });
    }
    let two = Decoded { negative: false, exponent: format.exponent_limit / 2 + 1, fraction: 0 };
    let mut guess = quotient(x, two, format);
    let mut steps: usize = 0;
    loop
        invariant
            format.well_formed(),
            x.valid(format),
            tolerance.valid(format),
            guess.valid(format),
            two == two_of(format),
            two.valid(format),
            steps <= limit,
            guess == newton_guess(x, steps as nat, format),
            forall|earlier: nat|
                earlier <= steps ==> #[trigger] newton_goes_on(x, earlier, tolerance, format),
            !is_below_zero(x, format),
            !(x.exponent == 0 && x.fraction == 0),
        decreases limit - steps,
    {
        if steps == limit {
            return None;
        }
        let last_guess = guess;
        guess = quotient(sum(guess, quotient(x, guess, format), format), two, format);
        steps = steps + 1;
        proof {
            assert(last_guess == newton_guess(x, (steps - 1) as nat, format));
            assert(guess == newton_guess(x, steps as nat, format));
        }
        let apart = difference(guess, last_guess, format);
        let goes_on = !(apart.exponent == format.exponent_limit && apart.fraction != 0) && (
        apart.exponent > tolerance.exponent || (apart.exponent == tolerance.exponent
            && apart.fraction > tolerance.fraction));
        if !goes_on {
            proof {
                assert(!newton_goes_on(x, steps as nat, tolerance, format));
                assert forall|earlier: nat| earlier < steps implies #[trigger] newton_goes_on(
                    x,
                    earlier,
                    tolerance,
                    format,
                ) by {
                    assert(earlier <= steps - 1);
                }
            }
            return Some(guess);
        }
        proof {
            assert forall|earlier: nat| earlier <= steps implies #[trigger] newton_goes_on(
                x,
                earlier,
                tolerance,
                format,
            ) by {
                if earlier == steps {
                }
            }
        }
    }
}

/// Whether Newton's method comes to an end for `x`: after some number of steps the
/// last two guesses are within the tolerance of each other.
pub open spec fn newton_stops(x: Decoded, tolerance: Decoded, format: Format) -> bool {
    exists|steps: nat| !#[trigger] newton_goes_on(x, steps, tolerance, format)
}

/// The square root of `x` by Newton's method, for a value for which the method
/// comes to an end, or which is a zero or below zero.
pub fn square_root(x: Decoded, tolerance: Decoded, format: Format) -> (r: Decoded)
    requires
        format.well_formed(),
        x.valid(format),
        tolerance.valid(format),
        is_below_zero(x, format) || (x.exponent == 0 && x.fraction == 0) || newton_stops(
            x,
            tolerance,
            format,
        ),
    ensures
        exists|limit: nat| #[trigger] is_square_root_within(x, limit, tolerance, format, Some(r)),
        r.valid(format),
{
    proof {
        lemma_pow2_pos(format.fraction_bits as nat);
    }
    let is_nan = x.exponent == format.exponent_limit && x.fraction != 0;
    let is_zero = x.exponent == 0 && x.fraction == 0;
    if x.negative && !is_nan && !is_zero {
        let r = make_default_nan(format);
        assert(is_square_root_within(x, 0, tolerance, format, Some(r)));
        return r;
    }
    if is_zero {
        let r = Decoded { negative: false, exponent: 0, fraction: 0 };
        assert(is_square_root_within(x, 0, tolerance, format, Some(r)));
        return r;
    }
    let two = Decoded { negative: false, exponent: format.exponent_limit / 2 + 1, fraction: 0 };
    let mut guess = quotient(x, two, format);
    let ghost end = choose|steps: nat| !#[trigger] newton_goes_on(x, steps, tolerance, format);
    let ghost mut steps: nat = 0;
    loop
        invariant
            format.well_formed(),
            x.valid(format),
            tolerance.valid(format),
            guess.valid(format),
            two == two_of(format),
            two.valid(format),
            !newton_goes_on(x, end, tolerance, format),
            steps < end,
            guess == newton_guess(x, steps, format),
            forall|earlier: nat|
                earlier <= steps ==> #[trigger] newton_goes_on(x, earlier, tolerance, format),
            !is_below_zero(x, format),
            !(x.exponent == 0 && x.fraction == 0),
        decreases end - steps,
    {
        let last_guess = guess;
        guess = quotient(sum(guess, quotient(x, guess, format), format), two, format);
        proof {
            steps = steps + 1;
            assert(last_guess == newton_guess(x, (steps - 1) as nat, format));
            assert(guess == newton_guess(x, steps, format));
        }
        let apart = difference(guess, last_guess, format);
        let goes_on = !(apart.exponent == format.exponent_limit && apart.fraction != 0) && (
        apart.exponent > tolerance.exponent || (apart.exponent == tolerance.exponent
            && apart.fraction > tolerance.fraction));
        if !goes_on {
            proof {
                assert(!newton_goes_on(x, steps, tolerance, format));
                assert forall|earlier: nat| earlier < steps implies #[trigger] newton_goes_on(
                    x,
                    earlier,
                    tolerance,
                    format,
                ) by {
                    assert(earlier <= steps - 1);
                }
                assert(is_square_root_within(x, steps, tolerance, format, Some(guess)));
            }
            return guess;
        }
        proof {
            assert forall|earlier: nat| earlier <= steps implies #[trigger] newton_goes_on(
                x,
                earlier,
                tolerance,
                format,
            ) by {
                if earlier == steps {
                }
            }
            assert(steps != end);
        }
    }
}

} // verus!

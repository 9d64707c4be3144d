//! Multiplication of floating-point values on their decoded fields, rounded to the
//! nearest value, ties to even.

use vstd::arithmetic::power2::{lemma2_to64, lemma_pow2_adds, lemma_pow2_pos, lemma_pow2_unfold, pow2};
use vstd::prelude::*;
use super::arithmetic::{default_nan, make_default_nan, Decoded};
use super::bits::{lemma_pow2_below, power_of_two};
use super::integral::bias_of;
use super::rounding::{
    encoding_of_units, lemma_round_fraction_of_whole, lemma_round_fraction_scaled,
    round_fraction, round_scaled_down, round_to_format, Format,
};

verus! {

/// The power of two by which a count of units is divided to give the number that
/// the units stand for: one is 2 to this power units.
pub open spec fn unit_shift(format: Format) -> nat {
    (bias_of(format) + format.fraction_bits - 1) as nat
}

/// The product of two values as IEEE-754 defines it. A NaN among the operands is
/// the result, the first one if both are; an infinity times a zero gives the
/// default NaN; any other product has the sign that the signs of the operands
/// give, and is rounded to the nearest value of the format.
pub open spec fn product_of(a: Decoded, b: Decoded, format: Format) -> Decoded {
    let negative = a.negative != b.negative;
    if a.is_nan(format) {
        a
    } else if b.is_nan(format) {
        b
    } else if a.is_infinite(format) || b.is_infinite(format) {
        if (a.exponent == 0 && a.fraction == 0) || (b.exponent == 0 && b.fraction == 0) {
            default_nan(format)
        } else {
            Decoded { negative, exponent: format.exponent_limit, fraction: 0 }
        }
    } else {
        let fields = encoding_of_units(
            round_fraction(
                a.units(format) * b.units(format),
                pow2(unit_shift(format)),
                format.precision(),
            ),
            format,
        );
        Decoded { negative, exponent: fields.0 as u32, fraction: fields.1 as u64 }
    }
}

/// The product of the units of two numbers, from their significands and scales.
proof fn lemma_product_of_units(a: Decoded, b: Decoded, format: Format)
    requires
        format.well_formed(),
        a.valid(format),
        b.valid(format),
    ensures
        a.units(format) * b.units(format) == a.significand(format) * b.significand(format) * pow2(
            a.scale() + b.scale(),
        ),
        a.significand(format) * b.significand(format) < pow2(108),
        a.significand(format) < pow2(54),
        b.significand(format) < pow2(54),
        pow2(54) < 0x1_0000_0000_0000_0000,
        pow2(108) < 0x1_0000_0000_0000_0000_0000_0000_0000_0000,
{
    let sa = a.significand(format) as int;
    let sb = b.significand(format) as int;
    let pa = pow2(a.scale()) as int;
    let pb = pow2(b.scale()) as int;
    lemma2_to64();
    lemma_pow2_pos(format.fraction_bits as nat);
    lemma_pow2_below(format.fraction_bits as nat, 53);
    lemma_pow2_unfold(54);
    lemma_pow2_below(54, 64);
    lemma_pow2_adds(54, 54);
    lemma_pow2_below(108, 127);
    super::bits::lemma_pow2_128();
    lemma_pow2_below(127, 128);
    lemma_pow2_adds(a.scale(), b.scale());
    assert((sa * pa) * (sb * pb) == sa * sb * (pa * pb)) by (nonlinear_arith);
    assert(sa * sb < pow2(54) * pow2(54)) by (nonlinear_arith)
        requires
            0 <= sa < pow2(54),
            0 <= sb < pow2(54),
    ;
}

/// The product of two values.
pub fn product(a: Decoded, b: Decoded, format: Format) -> (r: Decoded)
    requires
        format.well_formed(),
        a.valid(format),
        b.valid(format),
    ensures
        r == product_of(a, b, format),
        r.valid(format),
{
    let negative = a.negative != b.negative;
    proof {
        lemma_pow2_pos(format.fraction_bits as nat);
    }
    if a.exponent == format.exponent_limit && a.fraction != 0 {
        return a;
    }
    if b.exponent == format.exponent_limit && b.fraction != 0 {
        return b;
    }
    if a.exponent == format.exponent_limit || b.exponent == format.exponent_limit {
        if (a.exponent == 0 && a.fraction == 0) || (b.exponent == 0 && b.fraction == 0) {
            return make_default_nan(format);
        }
        return Decoded { negative, exponent: format.exponent_limit, fraction: 0 };
    }
    proof {
        lemma_product_of_units(a, b, format);
        lemma_pow2_below(format.fraction_bits as nat, 64);
    }
    let fraction_limit = power_of_two(format.fraction_bits);
    let a_scale = if a.exponent == 0 {
        0
    } else {
        a.exponent - 1
    };
    let b_scale = if b.exponent == 0 {
        0
    } else {
        b.exponent - 1
    };
    let a_significand: u128 = if a.exponent == 0 {
        a.fraction as u128
    } else {
        (fraction_limit + a.fraction) as u128
    };
    let b_significand: u128 = if b.exponent == 0 {
        b.fraction as u128
    } else {
        (fraction_limit + b.fraction) as u128
    };
    let w = a_significand * b_significand;
    let up = a_scale + b_scale;
    let down = format.exponent_limit / 2 + format.fraction_bits - 1;
    let ghost p = format.precision();
    let ghost exact = a.units(format) * b.units(format);
    proof {
        lemma_pow2_below(108, 118);
        lemma_pow2_below(118, 120);
        lemma_pow2_pos(down as nat);
        lemma_pow2_pos(up as nat);
    }
    let fields = if up >= down {
        proof {
            lemma_pow2_adds((up - down) as nat, down as nat);
            assert(exact == w as nat * pow2((up - down) as nat) * pow2(down as nat))
                by (nonlinear_arith)
                requires
                    exact == w as nat * pow2(up as nat),
                    pow2(up as nat) == pow2((up - down) as nat) * pow2(down as nat),
            ;
            lemma_round_fraction_scaled(
                w as nat * pow2((up - down) as nat),
                1,
                pow2(down as nat),
                p,
            );
            assert(1 * pow2(down as nat) == pow2(down as nat)) by (nonlinear_arith);
            lemma_round_fraction_of_whole(w as nat * pow2((up - down) as nat), p);
        }
        round_to_format(w, up - down, format)
    } else {
        proof {
            lemma_pow2_adds((down - up) as nat, up as nat);
            lemma_pow2_pos((down - up) as nat);
            lemma_round_fraction_scaled(w as nat, pow2((down - up) as nat), pow2(up as nat), p);
        }
        round_scaled_down(w, down - up, format)
    };
    Decoded { negative, exponent: fields.0, fraction: fields.1 }
}

} // verus!

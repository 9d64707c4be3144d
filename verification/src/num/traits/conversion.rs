//! Conversions between floating-point values and integers, and between formats.

use vstd::arithmetic::power2::{lemma2_to64, lemma_pow2_adds, lemma_pow2_pos, lemma_pow2_unfold, pow2};
use vstd::prelude::*;
use super::arithmetic::{rounded_from_units, Decoded};
use super::bits::{lemma_pow2_128, lemma_pow2_below, power_of_two, wide_power_of_two};
use super::integral::{bias_of, lemma_below_one, lemma_whole_part, units_of_one};
use super::product::unit_shift;
use super::rounding::{
    encoding_of_units, lemma_round_fraction_of_whole, lemma_round_fraction_scaled,
    round_fraction, round_scaled_down, round_to_format, Format,
};

verus! {

/// `v` held to the range from `min` to `max`.
pub open spec fn clamped(v: int, min: int, max: int) -> int {
    if v < min {
        min
    } else if v > max {
        max
    } else {
        v
    }
}

/// The integer from `min` to `max` that a value becomes: zero for a NaN, the end
/// of the range on its side for a value beyond it, and else the value without its
/// fraction.
pub open spec fn integer_of(x: Decoded, format: Format, min: int, max: int) -> int {
    if x.is_nan(format) {
        0
    } else if x.is_infinite(format) {
        if x.negative {
            min
        } else {
            max
        }
    } else {
        let whole = (x.units(format) / units_of_one(format)) as int;
        clamped(
            if x.negative {
                -whole
            } else {
                whole
            },
            min,
            max,
        )
    }
}

/// The value of the format that is nearest to the integer `n`.
pub open spec fn number_of_integer(n: int, format: Format) -> Decoded {
    if n == 0 {
        Decoded { negative: false, exponent: 0, fraction: 0 }
    } else {
        rounded_from_units(n * units_of_one(format), format)
    }
}

/// The integer from `min` to `max` that a value becomes.
pub fn to_integer(x: Decoded, format: Format, min: i128, max: i128) -> (r: i128)
    requires
        format.well_formed(),
        x.valid(format),
        min <= 0 <= max,
    ensures
        r == integer_of(x, format, min as int, max as int),
{
    proof {
        lemma_pow2_pos(format.fraction_bits as nat);
        lemma2_to64();
    }
    if x.exponent == format.exponent_limit {
        if x.fraction != 0 {
            return 0;
        }
        return if x.negative {
            min
        } else {
            max
        };
    }
    let bias = format.exponent_limit / 2;
    if x.exponent < bias {
        proof {
            lemma_below_one(x, format);
        }
        return 0;
    }
    let shift = x.exponent - bias;
    proof {
        lemma_whole_part(x, format);
        lemma_pow2_below(format.fraction_bits as nat, 53);
        lemma_pow2_below(53, 64);
    }
    if shift >= 127 {
        proof {
            // the whole part is beyond every integer of 128 bits
            let extra = (shift - format.fraction_bits) as nat;
            lemma_pow2_pos(extra);
            lemma_pow2_128();
            lemma_pow2_below(127, 128);
            lemma_pow2_adds(format.fraction_bits as nat, extra);
            if shift > 127 {
                lemma_pow2_below(127, shift as nat);
            }
            let s = x.significand(format) as int;
            let e = pow2(extra) as int;
            let l = format.fraction_limit() as int;
            assert(s * e >= l * e) by (nonlinear_arith)
                requires
                    s >= l,
                    e > 0,
            ;
            lemma_pow2_unfold(128);
        }
        return if x.negative {
            min
        } else {
            max
        };
    }
    let fraction_limit = power_of_two(format.fraction_bits);
    let whole: u128 = if shift >= format.fraction_bits {
        proof {
            let extra = (shift - format.fraction_bits) as nat;
            lemma_pow2_pos(extra);
            lemma_pow2_adds(format.fraction_bits as nat, extra);
            lemma_pow2_unfold((shift + 1) as nat);
            if shift + 1 < 127 {
                lemma_pow2_below((shift + 1) as nat, 127);
            }
            lemma_pow2_128();
            lemma_pow2_below(127, 128);
            lemma_pow2_below(extra, 127);
            let s = x.significand(format) as int;
            let e = pow2(extra) as int;
            let l = format.fraction_limit() as int;
            assert(s * e < 2 * (l * e)) by (nonlinear_arith)
                requires
                    0 <= s < 2 * l,
                    e > 0,
            ;
        }
        (fraction_limit + x.fraction) as u128 * wide_power_of_two(shift - format.fraction_bits)
    } else {
        proof {
            lemma_pow2_below((format.fraction_bits - shift) as nat, 64);
            lemma_pow2_pos((format.fraction_bits - shift) as nat);
            lemma_pow2_below(shift as nat, 63);
            vstd::arithmetic::power2::lemma2_to64_rest();
            vstd::arithmetic::div_mod::lemma_div_nonincreasing(
                x.fraction as int,
                pow2((format.fraction_bits - shift) as nat) as int,
            );
            vstd::arithmetic::div_mod::lemma_div_pos_is_pos(
                x.fraction as int,
                pow2((format.fraction_bits - shift) as nat) as int,
            );
        }
        (power_of_two(shift) + x.fraction / power_of_two(format.fraction_bits - shift)) as u128
    };
    if x.negative {
        if whole > i128::MAX as u128 {
            min
        } else {
            let v = -(whole as i128);
            if v < min {
                min
            } else {
                v
            }
        }
    } else {
        if whole > max as u128 {
            max
        } else {
            whole as i128
        }
    }
}

/// One, in units, is 2 to the power of the unit shift.
pub proof fn lemma_units_of_one(format: Format)
    requires
        format.well_formed(),
    ensures
        units_of_one(format) == pow2(unit_shift(format)),
{
    lemma_pow2_adds(format.fraction_bits as nat, (bias_of(format) - 1) as nat);
}

/// The value of the format that is nearest to the integer `n`.
pub fn from_integer(n: i128, format: Format) -> (r: Decoded)
    requires
        format.well_formed(),
        -0x1_0000_0000_0000_0000 <= n <= 0x1_0000_0000_0000_0000,
    ensures
        r == number_of_integer(n as int, format),
        r.valid(format),
{
    proof {
        lemma_pow2_pos(format.fraction_bits as nat);
        lemma_units_of_one(format);
        lemma2_to64();
        lemma_pow2_below(64, 120);
    }
    if n == 0 {
        return Decoded { negative: false, exponent: 0, fraction: 0 };
    }
    let magnitude: u128 = if n < 0 {
        (-n) as u128
    } else {
        n as u128
    };
    let shift = format.exponent_limit / 2 + format.fraction_bits - 1;
    proof {
        lemma_pow2_pos(unit_shift(format));
        let one = units_of_one(format) as int;
        let exact = n * one;
        assert(magnitude * one == if exact < 0 {
            -exact
        } else {
            exact
        }) by (nonlinear_arith)
            requires
                exact == n * one,
                magnitude == if n < 0 {
                    -n
                } else {
                    n as int
                },
                one > 0,
        ;
        lemma_pow2_pos(unit_shift(format));
        assert(exact != 0 && (exact < 0) == (n < 0)) by (nonlinear_arith)
            requires
                exact == n * one,
                n != 0,
                one > 0,
        ;
    }
    let fields = round_to_format(magnitude, shift, format);
    Decoded { negative: n < 0, exponent: fields.0, fraction: fields.1 }
}

/// The fraction of the NaN of the format `to` that stands for a NaN of the format
/// `from` with the fraction `fraction`: its high bits, at the high end, with the bit
/// of the quiet NaNs set.
pub open spec fn nan_fraction_of(fraction: nat, from: Format, to: Format) -> nat {
    let quiet = pow2((to.fraction_bits - 1) as nat);
    let moved = if to.fraction_bits >= from.fraction_bits {
        fraction * pow2((to.fraction_bits - from.fraction_bits) as nat)
    } else {
        fraction / pow2((from.fraction_bits - to.fraction_bits) as nat)
    };
    if moved >= quiet {
        moved
    } else {
        moved + quiet
    }
}

/// The value of the format `to` that is nearest to a value of the format `from`. An
/// infinity stays one, a zero stays one with its sign, and a NaN becomes a quiet NaN
/// with its sign and the high bits of its fraction.
pub open spec fn converted_of(x: Decoded, from: Format, to: Format) -> Decoded {
    if x.is_nan(from) {
        Decoded {
            negative: x.negative,
            exponent: to.exponent_limit,
            fraction: nan_fraction_of(x.fraction as nat, from, to) as u64,
        }
    } else if x.is_infinite(from) {
        Decoded { negative: x.negative, exponent: to.exponent_limit, fraction: 0 }
    } else {
        let fields = encoding_of_units(
            round_fraction(
                x.units(from) * pow2(unit_shift(to)),
                pow2(unit_shift(from)),
                to.precision(),
            ),
            to,
        );
        Decoded { negative: x.negative, exponent: fields.0 as u32, fraction: fields.1 as u64 }
    }
}

/// The value of the format `to` that is nearest to a value of the format `from`.
pub fn convert(x: Decoded, from: Format, to: Format) -> (r: Decoded)
    requires
        from.well_formed(),
        to.well_formed(),
        x.valid(from),
    ensures
        r == converted_of(x, from, to),
        r.valid(to),
{
    proof {
        lemma2_to64();
        lemma_pow2_pos(from.fraction_bits as nat);
        lemma_pow2_pos(to.fraction_bits as nat);
        lemma_pow2_below(from.fraction_bits as nat, 53);
        lemma_pow2_below(to.fraction_bits as nat, 53);
        lemma_pow2_below(53, 64);
        lemma_pow2_unfold(to.fraction_bits as nat);
    }
    if x.exponent == from.exponent_limit {
        if x.fraction == 0 {
            return Decoded { negative: x.negative, exponent: to.exponent_limit, fraction: 0 };
        }
        let quiet = power_of_two(to.fraction_bits - 1);
        let moved = if to.fraction_bits >= from.fraction_bits {
            proof {
                let d = (to.fraction_bits - from.fraction_bits) as nat;
                lemma_pow2_adds(from.fraction_bits as nat, d);
                lemma_pow2_pos(d);
                lemma_pow2_below(d, 53);
                let f = x.fraction as int;
                let l = from.fraction_limit() as int;
                let e = pow2(d) as int;
                assert(f * e < l * e) by (nonlinear_arith)
                    requires
                        0 <= f < l,
                        e > 0,
                ;
            }
            x.fraction * power_of_two(to.fraction_bits - from.fraction_bits)
        } else {
            proof {
                let d = (from.fraction_bits - to.fraction_bits) as nat;
                lemma_pow2_adds(to.fraction_bits as nat, d);
                lemma_pow2_pos(d);
                lemma_pow2_below(d, 53);
                let f = x.fraction as int;
                let e = pow2(d) as int;
                let t = to.fraction_limit() as int;
                vstd::arithmetic::div_mod::lemma_fundamental_div_mod(f, e);
                vstd::arithmetic::div_mod::lemma_mod_bound(f, e);
                assert(f / e < t) by (nonlinear_arith)
                    requires
                        f == e * (f / e) + f % e,
                        0 <= f % e,
                        f < t * e,
                        e > 0,
                ;
                vstd::arithmetic::div_mod::lemma_div_pos_is_pos(f, e);
            }
            x.fraction / power_of_two(from.fraction_bits - to.fraction_bits)
        };
        let fraction = if moved >= quiet {
            moved
        } else {
            moved + quiet
        };
        return Decoded { negative: x.negative, exponent: to.exponent_limit, fraction };
    }
    let fraction_limit = power_of_two(from.fraction_bits);
    let scale = if x.exponent == 0 {
        0
    } else {
        x.exponent - 1
    };
    let significand: u128 = if x.exponent == 0 {
        x.fraction as u128
    } else {
        (fraction_limit + x.fraction) as u128
    };
    let up = scale + (to.exponent_limit / 2 + to.fraction_bits - 1);
    let down = from.exponent_limit / 2 + from.fraction_bits - 1;
    let ghost p = to.precision();
    let ghost exact = x.units(from) * pow2(unit_shift(to));
    proof {
        lemma_pow2_adds(x.scale(), unit_shift(to));
        assert(exact == significand as nat * pow2(up as nat)) by (nonlinear_arith)
            requires
                exact == x.units(from) * pow2(unit_shift(to)),
                x.units(from) == significand as nat * pow2(x.scale()),
                pow2(up as nat) == pow2(x.scale()) * pow2(unit_shift(to)),
        ;
        lemma_pow2_unfold(54);
        lemma_pow2_below(54, 118);
        lemma_pow2_below(118, 120);
        lemma_pow2_pos(down as nat);
        lemma_pow2_pos(up as nat);
    }
    let fields = if up >= down {
        proof {
            lemma_pow2_adds((up - down) as nat, down as nat);
            assert(exact == significand as nat * pow2((up - down) as nat) * pow2(down as nat))
                by (nonlinear_arith)
                requires
                    exact == significand as nat * pow2(up as nat),
                    pow2(up as nat) == pow2((up - down) as nat) * pow2(down as nat),
            ;
            lemma_round_fraction_scaled(
                significand as nat * pow2((up - down) as nat),
                1,
                pow2(down as nat),
                p,
            );
            assert(1 * pow2(down as nat) == pow2(down as nat)) by (nonlinear_arith);
            lemma_round_fraction_of_whole(significand as nat * pow2((up - down) as nat), p);
        }
        round_to_format(significand, up - down, to)
    } else {
        proof {
            lemma_pow2_adds((down - up) as nat, up as nat);
            lemma_pow2_pos((down - up) as nat);
            lemma_round_fraction_scaled(
                significand as nat,
                pow2((down - up) as nat),
                pow2(up as nat),
                p,
            );
        }
        round_scaled_down(significand, down - up, to)
    };
    Decoded { negative: x.negative, exponent: fields.0, fraction: fields.1 }
}

} // verus!

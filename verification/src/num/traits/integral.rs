//! Floor and ceiling of floating-point values, on their decoded fields.
//!
//! A value whose exponent leaves no digit behind the binary point is whole
//! already and is its own floor and ceiling. A result of zero is positive.

use vstd::arithmetic::div_mod::{
    lemma_fundamental_div_mod, lemma_fundamental_div_mod_converse, lemma_small_mod,
};
use vstd::arithmetic::power2::{lemma2_to64, lemma_pow2_adds, lemma_pow2_pos, lemma_pow2_unfold, pow2};
use vstd::prelude::*;
use super::arithmetic::{lemma_encoding_of_own_units, lemma_units_order, Decoded};
use super::bits::{lemma_pow2_below, power_of_two};
use super::rounding::{encoding_of_units, Format};

verus! {

/// The exponent bias of a format.
pub open spec fn bias_of(format: Format) -> nat {
    (format.exponent_limit / 2) as nat
}

/// The units that make up the number one.
pub open spec fn units_of_one(format: Format) -> nat {
    format.fraction_limit() * pow2((bias_of(format) - 1) as nat)
}

/// The number `n`, which the format can hold exactly, with the given sign; positive
/// zero if `n` is zero.
pub open spec fn whole_number(n: nat, negative: bool, format: Format) -> Decoded {
    if n == 0 {
        Decoded { negative: false, exponent: 0, fraction: 0 }
    } else {
        let fields = encoding_of_units(n * units_of_one(format), format);
        Decoded { negative, exponent: fields.0 as u32, fraction: fields.1 as u64 }
    }
}

/// The greatest whole number that is not greater than `x`. A NaN or an infinity is
/// returned as it is.
pub open spec fn floor_of(x: Decoded, format: Format) -> Decoded {
    let whole = x.units(format) / units_of_one(format);
    let exact = x.units(format) % units_of_one(format) == 0;
    if !x.is_number(format) {
        x
    } else if !x.negative || exact {
        whole_number(whole, x.negative, format)
    } else {
        whole_number(whole + 1, true, format)
    }
}

/// The least whole number that is not less than `x`. A NaN or an infinity is
/// returned as it is.
pub open spec fn ceiling_of(x: Decoded, format: Format) -> Decoded {
    let whole = x.units(format) / units_of_one(format);
    let exact = x.units(format) % units_of_one(format) == 0;
    if !x.is_number(format) {
        x
    } else if x.negative || exact {
        whole_number(whole, x.negative, format)
    } else {
        whole_number(whole + 1, false, format)
    }
}

/// How a number of magnitude one or more splits into a whole part and a rest, by
/// its fields: with `low` the part of the fraction below the binary point, the
/// number without `low` is whole, and `low` is what is left.
pub proof fn lemma_whole_part(x: Decoded, format: Format)
    requires
        format.well_formed(),
        x.valid(format),
        x.is_number(format),
        x.exponent >= bias_of(format),
    ensures
        x.exponent - bias_of(format) >= format.fraction_bits ==> x.units(format) % units_of_one(
            format,
        ) == 0,
        x.exponent - bias_of(format) < format.fraction_bits ==> {
            let m = pow2((format.fraction_bits - (x.exponent - bias_of(format))) as nat);
            let low = x.fraction as nat % m;
            &&& (x.units(format) % units_of_one(format) == 0) == (low == 0)
            &&& x.units(format) / units_of_one(format) * units_of_one(format) == (Decoded {
                negative: x.negative,
                exponent: x.exponent,
                fraction: (x.fraction - low) as u64,
            }).units(format)
            &&& x.units(format) / units_of_one(format) * units_of_one(format) + units_of_one(format)
                == (format.fraction_limit() + x.fraction - low + m) * pow2(x.scale())
            &&& x.fraction - low + m <= format.fraction_limit()
            &&& low <= x.fraction
            &&& m > 0
            &&& units_of_one(format) == m * pow2(x.scale())
            &&& x.units(format) == x.units(format) / units_of_one(format) * units_of_one(format)
                + low * pow2(x.scale())
        },
        x.units(format) / units_of_one(format) >= 1,
        units_of_one(format) > 0,
        x.exponent - bias_of(format) >= format.fraction_bits ==> x.units(format) / units_of_one(
            format,
        ) == x.significand(format) * pow2(
            (x.exponent - bias_of(format) - format.fraction_bits) as nat,
        ),
        x.exponent - bias_of(format) < format.fraction_bits ==> x.units(format) / units_of_one(
            format,
        ) == pow2((x.exponent - bias_of(format)) as nat) + x.fraction as nat / pow2(
            (format.fraction_bits - (x.exponent - bias_of(format))) as nat,
        ),
{
    let l = format.fraction_limit() as int;
    let b = bias_of(format);
    let one = units_of_one(format) as int;
    let base = pow2((b - 1) as nat) as int;
    let shift = (x.exponent - b) as nat;
    let f = x.fraction as int;
    let u = x.units(format) as int;
    lemma2_to64();
    lemma_pow2_pos(format.fraction_bits as nat);
    lemma_pow2_pos((b - 1) as nat);
    lemma_pow2_pos(shift);
    lemma_pow2_adds(shift, (b - 1) as nat);
    let s = pow2(shift) as int;
    assert(x.scale() == shift + b - 1);
    assert(u == (l + f) * (s * base));
    assert(one == l * base);
    assert(one > 0) by (nonlinear_arith)
        requires
            one == l * base,
            l > 0,
            base > 0,
    ;
    if shift >= format.fraction_bits {
        let extra = pow2((shift - format.fraction_bits) as nat) as int;
        lemma_pow2_adds((shift - format.fraction_bits) as nat, format.fraction_bits as nat);
        lemma_pow2_pos((shift - format.fraction_bits) as nat);
        assert(u == one * ((l + f) * extra) + 0) by (nonlinear_arith)
            requires
                u == (l + f) * (s * base),
                s == extra * l,
                one == l * base,
        ;
        assert((l + f) * extra >= 1) by (nonlinear_arith)
            requires
                l >= 1,
                f >= 0,
                extra >= 1,
        ;
        lemma_fundamental_div_mod_converse(u, one, (l + f) * extra, 0);
    } else {
        let m = pow2((format.fraction_bits - shift) as nat) as int;
        lemma_pow2_adds((format.fraction_bits - shift) as nat, shift);
        lemma_pow2_pos((format.fraction_bits - shift) as nat);
        assert(l == m * s);
        let low = f % m;
        let high = f / m;
        lemma_fundamental_div_mod(f, m);
        let unit = s * base;
        assert(one == m * unit) by (nonlinear_arith)
            requires
                one == l * base,
                l == m * s,
                unit == s * base,
        ;
        assert(unit > 0) by (nonlinear_arith)
            requires
                unit == s * base,
                s > 0,
                base > 0,
        ;
        let whole = s + high;
        assert(u == one * whole + low * unit) by (nonlinear_arith)
            requires
                u == (l + f) * unit,
                l == m * s,
                f == m * high + low,
                one == m * unit,
                whole == s + high,
        ;
        assert(0 <= low * unit < one && (low * unit == 0) == (low == 0)) by (nonlinear_arith)
            requires
                0 <= low < m,
                one == m * unit,
                unit > 0,
        ;
        lemma_fundamental_div_mod_converse(u, one, whole, low * unit);
        assert(whole * one == (l + f - low) * unit) by (nonlinear_arith)
            requires
                l == m * s,
                f == m * high + low,
                one == m * unit,
                whole == s + high,
        ;
        assert(whole * one + one == (l + f - low + m) * unit) by (nonlinear_arith)
            requires
                whole * one == (l + f - low) * unit,
                one == m * unit,
        ;
        assert(unit == pow2(x.scale()));
        assert(u == whole * one + low * unit) by (nonlinear_arith)
            requires
                u == one * whole + low * unit,
        ;
        assert(high < s) by (nonlinear_arith)
            requires
                f == m * high + low,
                low >= 0,
                f < m * s,
                m > 0,
        ;
        assert(m * high + m <= m * s) by (nonlinear_arith)
            requires
                high + 1 <= s,
                m > 0,
        ;
        assert(whole >= 1);
    }
}

/// A number below one has no whole part.
pub proof fn lemma_below_one(x: Decoded, format: Format)
    requires
        format.well_formed(),
        x.valid(format),
        x.exponent < bias_of(format),
    ensures
        x.units(format) / units_of_one(format) == 0,
        (x.units(format) % units_of_one(format) == 0) == (x.exponent == 0 && x.fraction == 0),
        (Decoded { negative: x.negative, exponent: bias_of(format) as u32, fraction: 0 }).units(
            format,
        ) == units_of_one(format),
{
    let one = Decoded { negative: x.negative, exponent: bias_of(format) as u32, fraction: 0 };
    lemma_pow2_pos(format.fraction_bits as nat);
    lemma_units_order(x, one, format);
    lemma_small_mod(x.units(format), units_of_one(format));
    vstd::arithmetic::div_mod::lemma_basic_div(x.units(format) as int, units_of_one(format) as int);
    let zero = Decoded { negative: x.negative, exponent: 0, fraction: 0 };
    lemma2_to64();
    if x.exponent != 0 || x.fraction != 0 {
        lemma_units_order(zero, x, format);
    }
    assert(zero.units(format) == 0) by (nonlinear_arith)
        requires
            zero.units(format) == 0 * pow2(0),
    ;
}

/// Rounds a value to a whole number: up, to the least one that is not less, or
/// down, to the greatest one that is not greater.
pub fn round_to_whole(x: Decoded, up: bool, format: Format) -> (r: Decoded)
    requires
        format.well_formed(),
        x.valid(format),
    ensures
        r == if up {
            ceiling_of(x, format)
        } else {
            floor_of(x, format)
        },
        r.valid(format),
{
    if x.exponent == format.exponent_limit {
        return x;
    }
    let bias = format.exponent_limit / 2;
    proof {
        lemma_pow2_pos(format.fraction_bits as nat);
        lemma2_to64();
    }
    let away = up != x.negative;
    if x.exponent < bias {
        proof {
            lemma_below_one(x, format);
        }
        if away && (x.exponent != 0 || x.fraction != 0) {
            let one = Decoded { negative: x.negative, exponent: bias, fraction: 0 };
            proof {
                lemma_encoding_of_own_units(one, format);
                assert(1 * units_of_one(format) == units_of_one(format)) by (nonlinear_arith);
            }
            return one;
        }
        return Decoded { negative: false, exponent: 0, fraction: 0 };
    }
    let shift = x.exponent - bias;
    proof {
        lemma_whole_part(x, format);
        lemma_encoding_of_own_units(x, format);
    }
    if shift >= format.fraction_bits {
        proof {
            let whole = x.units(format) / units_of_one(format);
            lemma_fundamental_div_mod(x.units(format) as int, units_of_one(format) as int);
            assert(whole * units_of_one(format) == x.units(format)) by (nonlinear_arith)
                requires
                    x.units(format) == units_of_one(format) * whole + 0,
            ;
        }
        return x;
    }
    proof {
        lemma_pow2_below((format.fraction_bits - shift) as nat, 64);
    }
    let m = power_of_two(format.fraction_bits - shift);
    let low = x.fraction % m;
    let ghost whole = x.units(format) / units_of_one(format);
    if low == 0 {
        proof {
            lemma_fundamental_div_mod(x.units(format) as int, units_of_one(format) as int);
            assert(whole * units_of_one(format) == x.units(format)) by (nonlinear_arith)
                requires
                    x.units(format) == units_of_one(format) * whole + 0,
            ;
        }
        return x;
    }
    if away {
        proof {
            lemma_pow2_below(format.fraction_bits as nat, 64);
            assert(low == x.fraction as nat % pow2((format.fraction_bits - shift) as nat));
        }
        let fraction = x.fraction - low + m;
        proof {
            assert((whole + 1) * units_of_one(format) == whole * units_of_one(format)
                + units_of_one(format)) by (nonlinear_arith);
        }
        if fraction == power_of_two(format.fraction_bits) {
            let r = Decoded { negative: x.negative, exponent: x.exponent + 1, fraction: 0 };
            proof {
                lemma_pow2_unfold(x.exponent as nat);
                let l = format.fraction_limit() as int;
                let p = pow2(x.scale()) as int;
                assert((l + l) * p == (l + 0) * (2 * p)) by (nonlinear_arith);
                lemma_encoding_of_own_units(r, format);
            }
            r
        } else {
            let r = Decoded { negative: x.negative, exponent: x.exponent, fraction };
            proof {
                lemma_encoding_of_own_units(r, format);
            }
            r
        }
    } else {
        let r = Decoded { negative: x.negative, exponent: x.exponent, fraction: x.fraction - low };
        proof {
            lemma_encoding_of_own_units(r, format);
        }
        r
    }
}

/// Floor and ceiling of a number bracket the number, and are the same whole
/// number or one apart: in units, `floor <= x <= ceiling`, each is less than one
/// away from the number, both are multiples of the units of one, and
/// `ceiling - floor` is zero if the number is whole and the units of one if it is
/// not.
pub proof fn lemma_floor_and_ceiling_bracket(x: Decoded, format: Format)
    requires
        format.well_formed(),
        x.valid(format),
        x.is_number(format),
    ensures
        floor_of(x, format).is_number(format),
        ceiling_of(x, format).is_number(format),
        floor_of(x, format).valid(format),
        ceiling_of(x, format).valid(format),
        floor_of(x, format).signed_units(format) <= x.signed_units(format) <= ceiling_of(
            x,
            format,
        ).signed_units(format),
        x.signed_units(format) - floor_of(x, format).signed_units(format) < units_of_one(format),
        ceiling_of(x, format).signed_units(format) - x.signed_units(format) < units_of_one(format),
        floor_of(x, format).units(format) % units_of_one(format) == 0,
        ceiling_of(x, format).units(format) % units_of_one(format) == 0,
        ceiling_of(x, format).signed_units(format) - floor_of(x, format).signed_units(format)
            == if x.units(format) % units_of_one(format) == 0 {
            0
        } else {
            units_of_one(format) as int
        },
        floor_of(x, format).signed_units(format) == if !x.negative {
            (x.units(format) / units_of_one(format) * units_of_one(format)) as int
        } else if x.units(format) % units_of_one(format) == 0 {
            -(x.units(format) as int)
        } else {
            -(x.units(format) / units_of_one(format) * units_of_one(format) + units_of_one(format))
        },
{
    let one = units_of_one(format) as int;
    let u = x.units(format) as int;
    let whole = u / one;
    let rest = u % one;
    let down = whole_number(whole as nat, x.negative, format);
    let away = whole_number((whole + 1) as nat, x.negative, format);
    lemma_pow2_pos(format.fraction_bits as nat);
    lemma_pow2_pos((bias_of(format) - 1) as nat);
    lemma2_to64();
    assert(one > 0) by (nonlinear_arith)
        requires
            one == format.fraction_limit() * pow2((bias_of(format) - 1) as nat),
            format.fraction_limit() > 0,
            pow2((bias_of(format) - 1) as nat) > 0,
    ;
    lemma_fundamental_div_mod(u, one);
    vstd::arithmetic::div_mod::lemma_mod_bound(u, one);
    assert(u == whole * one + rest) by (nonlinear_arith)
        requires
            u == one * whole + rest,
    ;
    assert((whole + 1) * one == whole * one + one) by (nonlinear_arith);
    vstd::arithmetic::div_mod::lemma_mod_multiples_basic(whole, one);
    vstd::arithmetic::div_mod::lemma_mod_multiples_basic(whole + 1, one);
    vstd::arithmetic::div_mod::lemma_mod_multiples_basic(0, one);
    let zero = Decoded { negative: false, exponent: 0, fraction: 0 };
    assert(zero.units(format) == 0) by (nonlinear_arith)
        requires
            zero.units(format) == 0 * pow2(0),
    ;
    if x.exponent < bias_of(format) {
        lemma_below_one(x, format);
        let unit = Decoded { negative: x.negative, exponent: bias_of(format) as u32, fraction: 0 };
        lemma_encoding_of_own_units(unit, format);
        assert(1 * one == one) by (nonlinear_arith);
        assert(away.exponent == unit.exponent && away.fraction == unit.fraction);
        assert(away.units(format) == one);
        assert(down == zero);
    } else {
        lemma_whole_part(x, format);
        lemma_encoding_of_own_units(x, format);
        let shift = x.exponent - bias_of(format);
        if shift >= format.fraction_bits || rest == 0 {
            assert(whole * one == u);
            assert(down.exponent == x.exponent && down.fraction == x.fraction);
            assert(down.units(format) == u);
        } else {
            let m = pow2((format.fraction_bits - shift) as nat);
            let low = x.fraction as nat % m;
            lemma_pow2_below(format.fraction_bits as nat, 64);
            let toward = Decoded {
                negative: x.negative,
                exponent: x.exponent,
                fraction: (x.fraction - low) as u64,
            };
            lemma_encoding_of_own_units(toward, format);
            assert(down.exponent == toward.exponent && down.fraction == toward.fraction);
            assert(down.units(format) == whole * one);
            if x.fraction - low + m == format.fraction_limit() {
                let next = Decoded {
                    negative: x.negative,
                    exponent: (x.exponent + 1) as u32,
                    fraction: 0,
                };
                lemma_pow2_unfold(x.exponent as nat);
                let l = format.fraction_limit() as int;
                let p = pow2(x.scale()) as int;
                assert((l + l) * p == (l + 0) * (2 * p)) by (nonlinear_arith);
                lemma_encoding_of_own_units(next, format);
                assert(away.exponent == next.exponent && away.fraction == next.fraction);
                assert(away.units(format) == (whole + 1) * one);
            } else {
                let next = Decoded {
                    negative: x.negative,
                    exponent: x.exponent,
                    fraction: (x.fraction - low + m) as u64,
                };
                lemma_encoding_of_own_units(next, format);
                assert(away.exponent == next.exponent && away.fraction == next.fraction);
                assert(away.units(format) == (whole + 1) * one);
            }
        }
    }
}

} // verus!

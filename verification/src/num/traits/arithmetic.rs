//! Addition and subtraction of floating-point values on their decoded fields,
//! rounded as IEEE-754 prescribes: to the nearest value, ties to even.

use vstd::arithmetic::div_mod::{
    lemma_div_multiples_vanish, lemma_fundamental_div_mod_converse, lemma_mod_multiples_basic,
};
use vstd::arithmetic::power2::{lemma2_to64, lemma_pow2_adds, lemma_pow2_pos, lemma_pow2_unfold, pow2};
use vstd::prelude::*;
use super::bits::{lemma_pow2_128, lemma_pow2_below, power_of_two, wide_power_of_two};
use super::model::bit_length;
use super::rounding::{
    encoding_of_units, lemma_bit_length_shifted, lemma_bit_length_unique, round_to_format,
    round_to_precision, rounded_magnitude, Format,
};

verus! {

/// A floating-point value by its fields.
#[derive(Clone, Copy, Debug)]
pub struct Decoded {
    /// Whether the sign bit is set.
    pub negative: bool,
    /// The biased exponent.
    pub exponent: u32,
    /// The fraction.
    pub fraction: u64,
}

impl Decoded {
    /// The fields are those of a value of the format.
    pub open spec fn valid(self, format: Format) -> bool {
        self.exponent <= format.exponent_limit && self.fraction < format.fraction_limit()
    }

    /// The value is a NaN.
    pub open spec fn is_nan(self, format: Format) -> bool {
        self.exponent == format.exponent_limit && self.fraction != 0
    }

    /// The value is an infinity.
    pub open spec fn is_infinite(self, format: Format) -> bool {
        self.exponent == format.exponent_limit && self.fraction == 0
    }

    /// The value is a number: neither a NaN nor an infinity.
    pub open spec fn is_number(self, format: Format) -> bool {
        self.exponent < format.exponent_limit
    }

    /// The significand: the fraction, behind a leading one unless the exponent is
    /// zero.
    pub open spec fn significand(self, format: Format) -> nat {
        if self.exponent == 0 {
            self.fraction as nat
        } else {
            format.fraction_limit() + self.fraction as nat
        }
    }

    /// The power of two by which the significand is multiplied.
    pub open spec fn scale(self) -> nat {
        if self.exponent == 0 {
            0
        } else {
            (self.exponent - 1) as nat
        }
    }

    /// The absolute value of a number, in units of the least positive value of the
    /// format.
    pub open spec fn units(self, format: Format) -> nat {
        self.significand(format) * pow2(self.scale())
    }

    /// The value of a number in those units.
    pub open spec fn signed_units(self, format: Format) -> int {
        if self.negative {
            -(self.units(format) as int)
        } else {
            self.units(format) as int
        }
    }

    /// The value with the opposite sign.
    pub open spec fn negated(self) -> Decoded {
        Decoded { negative: !self.negative, exponent: self.exponent, fraction: self.fraction }
    }
}

/// The NaN that an operation without a result yields: positive, with the highest
/// bit of the fraction alone.
pub open spec fn default_nan(format: Format) -> Decoded {
    Decoded {
        negative: false,
        exponent: format.exponent_limit,
        fraction: pow2((format.fraction_bits - 1) as nat) as u64,
    }
}

/// The value of the format that is nearest to `exact` units, which is not zero.
pub open spec fn rounded_from_units(exact: int, format: Format) -> Decoded {
    let magnitude = rounded_magnitude(
        if exact < 0 {
            (-exact) as nat
        } else {
            exact as nat
        },
        format,
    );
    Decoded { negative: exact < 0, exponent: magnitude.0 as u32, fraction: magnitude.1 as u64 }
}

/// The sum of two values as IEEE-754 defines it. A NaN among the operands is the
/// result, the first one if both are; infinities of opposite signs give the default
/// NaN; an exact sum of zero is positive unless both operands are negative zeros;
/// any other sum is rounded to the nearest value of the format.
pub open spec fn sum_of(a: Decoded, b: Decoded, format: Format) -> Decoded {
    if a.is_nan(format) {
        a
    } else if b.is_nan(format) {
        b
    } else if a.is_infinite(format) {
        if b.is_infinite(format) && a.negative != b.negative {
            default_nan(format)
        } else {
            a
        }
    } else if b.is_infinite(format) {
        b
    } else {
        let exact = a.signed_units(format) + b.signed_units(format);
        if exact == 0 {
            Decoded { negative: a.negative && b.negative, exponent: 0, fraction: 0 }
        } else {
            rounded_from_units(exact, format)
        }
    }
}

/// The difference of two values: the sum of the first and the negated second,
/// except that a NaN is returned as it is.
pub open spec fn difference_of(a: Decoded, b: Decoded, format: Format) -> Decoded {
    if a.is_nan(format) {
        a
    } else if b.is_nan(format) {
        b
    } else {
        sum_of(a, b.negated(), format)
    }
}

/// Among numbers, the order of exponent and fraction is the order of the values.
pub proof fn lemma_units_order(a: Decoded, b: Decoded, format: Format)
    requires
        a.valid(format),
        b.valid(format),
        a.exponent < b.exponent || (a.exponent == b.exponent && a.fraction <= b.fraction),
    ensures
        a.units(format) <= b.units(format),
        (a.exponent < b.exponent || a.fraction < b.fraction) ==> a.units(format) < b.units(format),
{
    let l = format.fraction_limit() as int;
    let f2 = b.fraction as int;
    lemma_pow2_pos(format.fraction_bits as nat);
    lemma_pow2_pos(a.scale());
    lemma_pow2_pos(b.scale());
    lemma2_to64();
    let p = pow2(a.scale()) as int;
    let q = pow2(b.scale()) as int;
    let sa = a.significand(format) as int;
    let sb = b.significand(format) as int;
    assert(a.units(format) == sa * p);
    assert(b.units(format) == sb * q);
    if a.exponent == b.exponent {
        assert(sa * p <= sb * p && (sa < sb ==> sa * p < sb * p)) by (nonlinear_arith)
            requires
                sa <= sb,
                p > 0,
        ;
    } else {
        assert(l * q <= sb * q) by (nonlinear_arith)
            requires
                sb == l + f2,
                0 <= f2,
                q > 0,
        ;
        if a.exponent == 0 {
            assert(sa * p == sa) by (nonlinear_arith)
                requires
                    p == 1,
            ;
            assert(l <= l * q) by (nonlinear_arith)
                requires
                    q >= 1,
                    l >= 0,
            ;
        } else {
            lemma_pow2_below(a.scale(), b.scale());
            assert(sa * p < l * (2 * p)) by (nonlinear_arith)
                requires
                    0 <= sa < 2 * l,
                    p > 0,
            ;
            assert(l * (2 * p) <= l * q) by (nonlinear_arith)
                requires
                    2 * p <= q,
                    l >= 0,
            ;
        }
    }
}

/// A number encodes its own units, which need no rounding.
pub proof fn lemma_encoding_of_own_units(a: Decoded, format: Format)
    requires
        format.well_formed(),
        a.valid(format),
        a.is_number(format),
    ensures
        encoding_of_units(a.units(format), format) == (a.exponent as nat, a.fraction as nat),
        round_to_precision(a.units(format), format.precision()) == a.units(format),
{
    let l = format.fraction_limit();
    let p = format.precision();
    let v = a.units(format);
    lemma_pow2_pos(format.fraction_bits as nat);
    lemma_pow2_unfold(p);
    lemma2_to64();
    let s = a.significand(format);
    let k = a.scale();
    lemma_pow2_pos(k);
    if a.exponent == 0 {
        assert(v == s) by (nonlinear_arith)
            requires
                v == s * pow2(k),
                pow2(k) == 1,
        ;
    } else {
        lemma_bit_length_unique(s, p);
        lemma_bit_length_shifted(s, k);
        lemma_div_multiples_vanish(s as int, pow2(k) as int);
        lemma_mod_multiples_basic(s as int, pow2(k) as int);
        assert(s * pow2(k) == pow2(k) * s) by (nonlinear_arith);
        assert(v >= l) by (nonlinear_arith)
            requires
                v == s * pow2(k),
                s >= l,
                pow2(k) >= 1,
        ;
        assert(bit_length(v) == p + k);
        assert(v / pow2(k) == s);
        assert(v % pow2(k) == 0);
        if v < pow2(p) {
            lemma_bit_length_unique(v, p);
        }
    }
}

/// An operand that is small enough does not change a sum or difference: adding `x`
/// units to a normal number, or taking them away, rounds to that number if `x` is
/// below an eighth of the number's last place.
pub proof fn lemma_negligible_operand(hi: Decoded, x: nat, plus: bool, format: Format)
    requires
        format.well_formed(),
        hi.valid(format),
        hi.is_number(format),
        hi.exponent >= 4,
        8 * x < pow2(hi.scale()),
    ensures
        hi.units(format) >= x,
        rounded_magnitude(
            if plus {
                hi.units(format) + x
            } else {
                (hi.units(format) - x) as nat
            },
            format,
        ) == (hi.exponent as nat, hi.fraction as nat),
{
    let l = format.fraction_limit() as int;
    let p = format.precision();
    let h = hi.significand(format) as int;
    let k = hi.scale();
    let pk = pow2(k) as int;
    let u = hi.units(format) as int;
    let xi = x as int;
    lemma_encoding_of_own_units(hi, format);
    lemma_pow2_pos(format.fraction_bits as nat);
    lemma_pow2_unfold(p);
    lemma_pow2_pos(k);
    lemma_pow2_adds((p - 1) as nat, k);
    lemma_pow2_adds(p, k);
    lemma_pow2_unfold(k);
    lemma_pow2_unfold((k - 1) as nat);
    lemma_pow2_unfold((k - 2) as nat);
    lemma_pow2_pos((k - 3) as nat);
    assert(pk >= 8);
    assert(u == h * pk);
    assert(l * pk <= u < 2 * l * pk && u >= 8 * l) by (nonlinear_arith)
        requires
            u == h * pk,
            l <= h < 2 * l,
            pk >= 8,
            l >= 1,
    ;
    assert(u >= pk) by (nonlinear_arith)
        requires
            u == h * pk,
            h >= 1,
            pk > 0,
    ;
    if plus {
        let v = (u + xi) as nat;
        assert((h + 1) * pk <= 2 * l * pk && (h + 1) * pk == h * pk + pk) by (nonlinear_arith)
            requires
                h + 1 <= 2 * l,
                pk > 0,
        ;
        lemma_bit_length_unique(v, p + k);
        lemma_fundamental_div_mod_converse(v as int, pk, h, xi);
        assert(round_to_precision(v, p) == u);
    } else if x > 0 {
        let v = (u - xi) as nat;
        if h > l {
            assert(l * pk <= (h - 1) * pk) by (nonlinear_arith)
                requires
                    l <= h - 1,
                    pk > 0,
            ;
            assert(v == pk * (h - 1) + (pk - xi)) by (nonlinear_arith)
                requires
                    v == h * pk - xi,
            ;
            lemma_bit_length_unique(v, p + k);
            lemma_fundamental_div_mod_converse(v as int, pk, h - 1, pk - xi);
            assert((h - 1 + 1) * pk == u);
            assert(round_to_precision(v, p) == u);
        } else {
            let half = pow2((k - 1) as nat) as int;
            assert(pk == 2 * half);
            lemma_pow2_adds((p - 1) as nat, (k - 1) as nat);
            lemma_pow2_adds(p, (k - 1) as nat);
            lemma_pow2_adds((p - 2) as nat, (k - 1) as nat);
            lemma_pow2_unfold((p - 1) as nat);
            assert(v == half * (2 * l - 1) + (half - xi)) by (nonlinear_arith)
                requires
                    v == l * pk - xi,
                    pk == 2 * half,
            ;
            assert(l * half <= v < 2 * l * half) by (nonlinear_arith)
                requires
                    v == half * (2 * l - 1) + (half - xi),
                    0 < xi < half,
                    l >= 1,
                    half > 0,
            ;
            assert(pow2((p - 1) as nat) == l);
            assert(pow2((p + k - 2) as nat) == l * half) by {
                lemma_pow2_adds((p - 1) as nat, (k - 1) as nat);
            }
            assert(pow2((p + k - 1) as nat) == 2 * l * half) by {
                lemma_pow2_adds(p, (k - 1) as nat);
                assert(pow2(p) * pow2((k - 1) as nat) == 2 * l * half) by (nonlinear_arith)
                    requires
                        pow2(p) == 2 * l,
                        pow2((k - 1) as nat) == half,
                ;
            }
            lemma_bit_length_unique(v, (p + k - 1) as nat);
            lemma_fundamental_div_mod_converse(v as int, half, 2 * l - 1, half - xi);
            assert((2 * l - 1 + 1) * half == u) by (nonlinear_arith)
                requires
                    u == l * pk,
                    pk == 2 * half,
            ;
            assert(v >= pow2(p)) by (nonlinear_arith)
                requires
                    v >= l * half,
                    half >= 4,
                    l >= 1,
                    pow2(p) == 2 * l,
            ;
            assert(round_to_precision(v, p) == u);
        }
    }
}

/// Two numbers brought to the scale of the smaller: the significand of the greater,
/// shifted, times the common power of two is its value.
proof fn lemma_aligned(hi: Decoded, lo: Decoded, format: Format)
    requires
        format.well_formed(),
        hi.valid(format),
        lo.valid(format),
        hi.is_number(format),
        lo.is_number(format),
        lo.exponent < hi.exponent || (lo.exponent == hi.exponent && lo.fraction <= hi.fraction),
        hi.scale() - lo.scale() <= 64,
    ensures
        lo.scale() <= hi.scale(),
        hi.significand(format) * pow2((hi.scale() - lo.scale()) as nat) < pow2(118),
        lo.significand(format) <= hi.significand(format) * pow2((hi.scale() - lo.scale()) as nat),
        hi.units(format) == hi.significand(format) * pow2((hi.scale() - lo.scale()) as nat) * pow2(
            lo.scale(),
        ),
        pow2(118) + pow2(118) <= pow2(120),
        pow2(120) < 0x1_0000_0000_0000_0000_0000_0000_0000_0000,
        hi.significand(format) < pow2(54),
        lo.significand(format) < pow2(54),
        pow2(54) < 0x1_0000_0000_0000_0000,
{
    let distance = (hi.scale() - lo.scale()) as nat;
    let s = hi.significand(format) as int;
    let t = lo.significand(format) as int;
    let d = pow2(distance) as int;
    let k = pow2(lo.scale()) as int;
    lemma2_to64();
    lemma_pow2_pos(format.fraction_bits as nat);
    lemma_pow2_below(format.fraction_bits as nat, 53);
    lemma_pow2_unfold(54);
    lemma_pow2_below(54, 64);
    lemma_pow2_pos(distance);
    lemma_pow2_pos(lo.scale());
    if distance < 64 {
        lemma_pow2_below(distance, 64);
    }
    lemma_pow2_adds(54, 64);
    lemma_pow2_unfold(119);
    lemma_pow2_unfold(120);
    lemma_pow2_below(120, 127);
    lemma_pow2_128();
    lemma_pow2_below(127, 128);
    assert(s * d < pow2(54) * pow2(64)) by (nonlinear_arith)
        requires
            0 <= s < pow2(54),
            0 < d <= pow2(64),
    ;
    lemma_pow2_adds(distance, lo.scale());
    assert(hi.units(format) == s * d * k) by (nonlinear_arith)
        requires
            hi.units(format) == s * pow2(hi.scale()),
            pow2(hi.scale()) == d * k,
    ;
    lemma_units_order(lo, hi, format);
    assert(t <= s * d) by (nonlinear_arith)
        requires
            t * k <= s * d * k,
            k > 0,
    ;
}

/// The sum of two numbers.
fn sum_of_numbers(a: Decoded, b: Decoded, format: Format) -> (r: Decoded)
    requires
        format.well_formed(),
        a.valid(format),
        b.valid(format),
        a.is_number(format),
        b.is_number(format),
    ensures
        r == sum_of(a, b, format),
        r.valid(format),
{
    let a_is_larger = a.exponent > b.exponent || (a.exponent == b.exponent && a.fraction
        >= b.fraction);
    let (hi, lo) = if a_is_larger {
        (a, b)
    } else {
        (b, a)
    };
    let same_sign = a.negative == b.negative;
    if !same_sign && a.exponent == b.exponent && a.fraction == b.fraction {
        return Decoded { negative: false, exponent: 0, fraction: 0 };
    }
    let ghost exact = a.signed_units(format) + b.signed_units(format);
    proof {
        lemma_units_order(lo, hi, format);
        lemma_pow2_pos(format.fraction_bits as nat);
    }
    let hi_scale = if hi.exponent == 0 {
        0
    } else {
        hi.exponent - 1
    };
    let lo_scale = if lo.exponent == 0 {
        0
    } else {
        lo.exponent - 1
    };
    let distance = hi_scale - lo_scale;
    if distance > 64 {
        proof {
            lemma_far_apart(hi, lo, same_sign, format);
        }
        return Decoded { negative: hi.negative, exponent: hi.exponent, fraction: hi.fraction };
    }
    proof {
        lemma_aligned(hi, lo, format);
    }
    let fraction_limit = power_of_two(format.fraction_bits);
    let hi_significand: u128 = if hi.exponent == 0 {
        hi.fraction as u128
    } else {
        (fraction_limit + hi.fraction) as u128
    };
    let lo_significand: u128 = if lo.exponent == 0 {
        lo.fraction as u128
    } else {
        (fraction_limit + lo.fraction) as u128
    };
    let aligned = hi_significand * wide_power_of_two(distance);
    let w: u128 = if same_sign {
        aligned + lo_significand
    } else {
        aligned - lo_significand
    };
    proof {
        lemma_exact_sum(hi, lo, same_sign, w as nat, format);
        let hu = hi.units(format) as int;
        let lu = lo.units(format) as int;
        let k = pow2(lo.scale()) as int;
        lemma_pow2_pos(lo.scale());
        let magnitude = if exact < 0 {
            -exact
        } else {
            exact
        };
        assert(lu <= hu);
        assert(!same_sign ==> lu < hu);
        assert(magnitude == if same_sign {
            hu + lu
        } else {
            hu - lu
        });
        assert(w * k == magnitude);
        if exact == 0 {
            assert(w == 0) by (nonlinear_arith)
                requires
                    w * k == 0,
                    k > 0,
            ;
            assert(w as nat * pow2(lo_scale as nat) == 0);
            assert(same_sign);
        } else {
            assert((exact < 0) == hi.negative);
        }
    }
    let magnitude = round_to_format(w, lo_scale, format);
    proof {
        let v = w as nat * pow2(lo_scale as nat);
        assert(lo_scale as nat == lo.scale());
        if exact == 0 {
            assert(v == 0);
            lemma_pow2_pos(format.precision());
            lemma_pow2_pos(format.fraction_bits as nat);
            assert(round_to_precision(0, format.precision()) == 0);
            assert(rounded_magnitude(0, format) == (0nat, 0nat));
        } else if exact < 0 {
            assert(v == (-exact) as nat);
        } else {
            assert(v == exact as nat);
        }
        assert(!a.is_nan(format) && !b.is_nan(format) && !a.is_infinite(format) && !b.is_infinite(
            format,
        ));
    }
    Decoded { negative: hi.negative, exponent: magnitude.0, fraction: magnitude.1 }
}

/// Of two numbers whose scales are more than 64 apart, the smaller does not count.
proof fn lemma_far_apart(hi: Decoded, lo: Decoded, plus: bool, format: Format)
    requires
        format.well_formed(),
        hi.valid(format),
        lo.valid(format),
        hi.is_number(format),
        lo.is_number(format),
        hi.scale() - lo.scale() > 64,
    ensures
        lo.units(format) < hi.units(format),
        rounded_magnitude(
            if plus {
                hi.units(format) + lo.units(format)
            } else {
                (hi.units(format) - lo.units(format)) as nat
            },
            format,
        ) == (hi.exponent as nat, hi.fraction as nat),
{
    let p = format.precision();
    let x = lo.units(format);
    let k_lo = lo.scale();
    let k_hi = hi.scale();
    lemma2_to64();
    lemma_pow2_pos(format.fraction_bits as nat);
    lemma_pow2_unfold(p);
    lemma_pow2_pos(k_lo);
    lemma_pow2_adds(p + 3, k_lo);
    lemma_pow2_unfold(p + 1);
    lemma_pow2_unfold(p + 2);
    lemma_pow2_unfold(p + 3);
    if p + 3 + k_lo < k_hi {
        lemma_pow2_below(p + 3 + k_lo, k_hi);
    }
    assert(8 * x < pow2(p + 3) * pow2(k_lo)) by (nonlinear_arith)
        requires
            x == lo.significand(format) * pow2(k_lo),
            lo.significand(format) < pow2(p),
            pow2(p + 3) == 8 * pow2(p),
            pow2(k_lo) > 0,
    ;
    lemma_negligible_operand(hi, x, plus, format);
    lemma_units_order(lo, hi, format);
}

/// What the aligned significands add up to, times the common power of two, is the
/// exact sum.
proof fn lemma_exact_sum(hi: Decoded, lo: Decoded, plus: bool, w: nat, format: Format)
    requires
        format.well_formed(),
        hi.valid(format),
        lo.valid(format),
        hi.is_number(format),
        lo.is_number(format),
        lo.exponent < hi.exponent || (lo.exponent == hi.exponent && lo.fraction <= hi.fraction),
        hi.scale() - lo.scale() <= 64,
        w == if plus {
            hi.significand(format) * pow2((hi.scale() - lo.scale()) as nat) + lo.significand(
                format,
            ) as int
        } else {
            hi.significand(format) * pow2((hi.scale() - lo.scale()) as nat) - lo.significand(format)
        },
    ensures
        w * pow2(lo.scale()) == if plus {
            hi.units(format) + lo.units(format) as int
        } else {
            hi.units(format) - lo.units(format)
        },
        w < pow2(120),
{
    lemma_aligned(hi, lo, format);
    let aligned = (hi.significand(format) * pow2((hi.scale() - lo.scale()) as nat)) as int;
    let t = lo.significand(format) as int;
    let k = pow2(lo.scale()) as int;
    lemma_pow2_unfold(55);
    lemma_pow2_below(55, 118);
    if plus {
        assert((aligned + t) * k == aligned * k + t * k) by (nonlinear_arith);
    } else {
        assert((aligned - t) * k == aligned * k - t * k) by (nonlinear_arith);
    }
}

/// The default NaN of a format.
pub fn make_default_nan(format: Format) -> (r: Decoded)
    requires
        format.well_formed(),
    ensures
        r == default_nan(format),
        r.valid(format),
        r.is_nan(format),
{
    proof {
        lemma_pow2_below((format.fraction_bits - 1) as nat, format.fraction_bits as nat);
        lemma_pow2_below(format.fraction_bits as nat, 64);
        lemma2_to64();
    }
    Decoded {
        negative: false,
        exponent: format.exponent_limit,
        fraction: power_of_two(format.fraction_bits - 1),
    }
}

/// The sum of two values.
pub fn sum(a: Decoded, b: Decoded, format: Format) -> (r: Decoded)
    requires
        format.well_formed(),
        a.valid(format),
        b.valid(format),
    ensures
        r == sum_of(a, b, format),
        r.valid(format),
{
    if a.exponent == format.exponent_limit {
        if a.fraction != 0 {
            a
        } else if b.exponent == format.exponent_limit && b.fraction != 0 {
            b
        } else if b.exponent == format.exponent_limit && a.negative != b.negative {
            make_default_nan(format)
        } else {
            a
        }
    } else if b.exponent == format.exponent_limit {
        b
    } else {
        sum_of_numbers(a, b, format)
    }
}

/// The difference of two values.
pub fn difference(a: Decoded, b: Decoded, format: Format) -> (r: Decoded)
    requires
        format.well_formed(),
        a.valid(format),
        b.valid(format),
    ensures
        r == difference_of(a, b, format),
        r.valid(format),
{
    if a.exponent == format.exponent_limit && a.fraction != 0 {
        a
    } else if b.exponent == format.exponent_limit && b.fraction != 0 {
        b
    } else {
        sum(a, Decoded { negative: !b.negative, exponent: b.exponent, fraction: b.fraction }, format)
    }
}

/// A sum that the format can hold is not rounded: where a number `r` stands for
/// the exact sum of two numbers, their sum stands for it too.
pub proof fn lemma_sum_is_exact(a: Decoded, b: Decoded, r: Decoded, format: Format)
    requires
        format.well_formed(),
        a.valid(format),
        b.valid(format),
        r.valid(format),
        a.is_number(format),
        b.is_number(format),
        r.is_number(format),
        r.signed_units(format) == a.signed_units(format) + b.signed_units(format),
    ensures
        sum_of(a, b, format).is_number(format),
        sum_of(a, b, format).valid(format),
        sum_of(a, b, format).signed_units(format) == r.signed_units(format),
        r.units(format) != 0 ==> sum_of(a, b, format) == r,
{
    lemma_encoding_of_own_units(r, format);
    lemma_pow2_pos(format.fraction_bits as nat);
    let zero = Decoded { negative: false, exponent: 0, fraction: 0 };
    let negative_zero = Decoded { negative: true, exponent: 0, fraction: 0 };
    lemma2_to64();
    assert(zero.units(format) == 0 && negative_zero.units(format) == 0) by (nonlinear_arith)
        requires
            zero.units(format) == 0 * pow2(0),
            negative_zero.units(format) == 0 * pow2(0),
    ;
}

/// A difference that the format can hold is not rounded.
pub proof fn lemma_difference_is_exact(a: Decoded, b: Decoded, r: Decoded, format: Format)
    requires
        format.well_formed(),
        a.valid(format),
        b.valid(format),
        r.valid(format),
        a.is_number(format),
        b.is_number(format),
        r.is_number(format),
        r.signed_units(format) == a.signed_units(format) - b.signed_units(format),
    ensures
        difference_of(a, b, format).is_number(format),
        difference_of(a, b, format).valid(format),
        difference_of(a, b, format).signed_units(format) == r.signed_units(format),
        r.units(format) != 0 ==> difference_of(a, b, format) == r,
{
    lemma_sum_is_exact(a, b.negated(), r, format);
}

/// A number with more units has at least as many digits.
pub proof fn lemma_bit_length_grows(a: nat, b: nat)
    requires
        a <= b,
    ensures
        bit_length(a) <= bit_length(b),
{
    if a > 0 {
        super::rounding::lemma_bit_length_brackets(a);
        super::rounding::lemma_bit_length_brackets(b);
        if bit_length(b) < bit_length(a) {
            if bit_length(b) < bit_length(a) - 1 {
                lemma_pow2_below(bit_length(b), (bit_length(a) - 1) as nat);
            }
        }
    }
}

/// The positive number of the format that stands for `s` times 2 to the power `k`
/// units, where `s` has no more digits than the precision and the value is not
/// above that of a number `y` of the format.
pub proof fn lemma_number_of_units(s: nat, k: nat, y: Decoded, format: Format) -> (r: Decoded)
    requires
        format.well_formed(),
        y.valid(format),
        y.is_number(format),
        s < pow2(format.precision()),
        s * pow2(k) <= y.units(format),
    ensures
        r.valid(format),
        r.is_number(format),
        !r.negative,
        r.units(format) == s * pow2(k),
{
    let p = format.precision();
    let l = format.fraction_limit();
    let v = s * pow2(k);
    lemma2_to64();
    lemma_pow2_pos(format.fraction_bits as nat);
    lemma_pow2_pos(k);
    lemma_pow2_unfold(p);
    lemma_pow2_below(format.fraction_bits as nat, 64);
    if v < l {
        let r = Decoded { negative: false, exponent: 0, fraction: v as u64 };
        assert(r.units(format) == v) by (nonlinear_arith)
            requires
                r.units(format) == v * pow2(0),
                pow2(0) == 1,
        ;
        r
    } else {
        assert(s > 0) by (nonlinear_arith)
            requires
                s * pow2(k) > 0,
        ;
        super::rounding::lemma_bit_length_brackets(s);
        if bit_length(s) > p {
            if p < bit_length(s) - 1 {
                lemma_pow2_below(p, (bit_length(s) - 1) as nat);
            }
        }
        lemma_bit_length_shifted(s, k);
        super::rounding::lemma_bit_length_brackets(v);
        if bit_length(v) < p {
            lemma_pow2_below(bit_length(v), (p - 1) as nat);
        }
        let q = (bit_length(v) - p) as nat;
        assert(q <= k);
        super::rounding::lemma_shifted_div_low(s, k, q);
        let h = v / pow2(q);
        lemma_pow2_pos(q);
        lemma_pow2_adds((k - q) as nat, q);
        assert(h * pow2(q) == v) by (nonlinear_arith)
            requires
                h == s * pow2((k - q) as nat),
                v == s * pow2(k),
                pow2(k) == pow2((k - q) as nat) * pow2(q),
        ;
        lemma_bit_length_shifted(s, (k - q) as nat);
        super::rounding::lemma_bit_length_brackets(h);
        assert(bit_length(h) == p);
        // the exponent is within the format as that of `y` is
        lemma_bit_length_grows(v, y.units(format));
        lemma_encoding_of_own_units(y, format);
        if y.exponent == 0 {
            assert(y.units(format) == y.fraction) by (nonlinear_arith)
                requires
                    y.units(format) == y.fraction * pow2(0),
                    pow2(0) == 1,
            ;
        } else {
            lemma_bit_length_unique(y.significand(format), p);
            lemma_bit_length_shifted(y.significand(format), y.scale());
        }
        let r = Decoded { negative: false, exponent: (q + 1) as u32, fraction: (h - l) as u64 };
        assert(r.units(format) == (l + (h - l)) * pow2(q));
        r
    }
}

} // verus!

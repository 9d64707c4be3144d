//! Division of floating-point values on their decoded fields, rounded to the nearest
//! value, ties to even.

use vstd::arithmetic::div_mod::{
    lemma_div_denominator, lemma_fundamental_div_mod, lemma_fundamental_div_mod_converse,
    lemma_mod_bound,
};
use vstd::arithmetic::power2::{lemma2_to64, lemma_pow2_adds, lemma_pow2_pos, lemma_pow2_unfold, pow2};
use vstd::prelude::*;
use super::arithmetic::{default_nan, make_default_nan, Decoded};
use super::bits::{count_digits, lemma_pow2_below, power_of_two, wide_power_of_two};
use super::model::bit_length;
use super::product::unit_shift;
use super::rounding::{
    encoding_of_units, lemma_bit_length_brackets, lemma_bit_length_of_quotient,
    lemma_bit_length_unique, lemma_round_fraction_of_equal_ratios, lemma_round_fraction_of_whole,
    lemma_round_fraction_scaled, round_fraction, round_scaled_down, round_to_format, Format,
};

verus! {

/// A quotient with one more digit that tells whether anything was left over: twice
/// the whole quotient, plus one if the division left a remainder.
pub open spec fn with_sticky_digit(x: nat, m: nat) -> nat {
    2 * (x / m) + if x % m != 0 {
        1nat
    } else {
        0nat
    }
}

/// Where at least one digit of the whole quotient is dropped, the quotient with its
/// sticky digit rounds as the exact ratio does: the digits in front are the same,
/// and what is dropped stands to one half alike.
pub proof fn lemma_sticky(x: nat, m: nat, k: nat)
    requires
        m > 0,
        k >= 1,
    ensures
        ({
            let w = with_sticky_digit(x, m);
            let d = m * pow2(k);
            let dw = pow2(k + 1);
            &&& x / d == w / dw
            &&& (2 * (x % d) > d) == (2 * (w % dw) > dw)
            &&& (2 * (x % d) == d) == (2 * (w % dw) == dw)
        }),
{
    let h = pow2(k) as int;
    let half = pow2((k - 1) as nat) as int;
    lemma_pow2_unfold(k);
    lemma_pow2_unfold(k + 1);
    lemma_pow2_pos((k - 1) as nat);
    let mi = m as int;
    let q = (x as int) / mi;
    let r = (x as int) % mi;
    lemma_fundamental_div_mod(x as int, mi);
    lemma_mod_bound(x as int, mi);
    vstd::arithmetic::div_mod::lemma_div_pos_is_pos(x as int, mi);
    let hq = q / h;
    let c = q % h;
    lemma_fundamental_div_mod(q, h);
    lemma_mod_bound(q, h);
    vstd::arithmetic::div_mod::lemma_div_pos_is_pos(q, h);
    let t: int = if r != 0 {
        1
    } else {
        0
    };
    let w = with_sticky_digit(x, m) as int;
    assert(w == 2 * q + t);
    let d = mi * h;
    let dw = 2 * h;
    assert(d > 0) by (nonlinear_arith)
        requires
            d == mi * h,
            mi > 0,
            h > 0,
    ;
    assert(x == d * hq + (mi * c + r)) by (nonlinear_arith)
        requires
            x == mi * q + r,
            q == h * hq + c,
            d == mi * h,
    ;
    assert(0 <= mi * c + r < d) by (nonlinear_arith)
        requires
            0 <= c <= h - 1,
            0 <= r <= mi - 1,
            d == mi * h,
            mi > 0,
    ;
    lemma_fundamental_div_mod_converse(x as int, d, hq, mi * c + r);
    assert(w == dw * hq + (2 * c + t)) by (nonlinear_arith)
        requires
            w == 2 * q + t,
            q == h * hq + c,
            dw == 2 * h,
    ;
    lemma_fundamental_div_mod_converse(w, dw, hq, 2 * c + t);
    let g = c - half;
    assert(2 * (mi * c + r) - d == 2 * mi * g + 2 * r) by (nonlinear_arith)
        requires
            d == mi * h,
            h == 2 * half,
            g == c - half,
    ;
    assert(2 * (2 * c + t) - dw == 4 * g + 2 * t);
    if g >= 1 {
        assert(2 * mi * g + 2 * r > 0) by (nonlinear_arith)
            requires
                g >= 1,
                mi > 0,
                r >= 0,
        ;
    } else if g <= -1 {
        assert(2 * mi * g + 2 * r < 0) by (nonlinear_arith)
            requires
                g <= -1,
                mi > 0,
                r < mi,
        ;
    } else {
        assert(2 * mi * g + 2 * r == 2 * r) by (nonlinear_arith)
            requires
                g == 0,
        ;
    }
}

/// A ratio divided by a power of two rounds as its quotient with the sticky digit
/// does, where the whole quotient has two digits more than the precision.
pub proof fn lemma_sticky_scaled_down(x: nat, m: nat, e: nat, p: nat)
    requires
        m > 0,
        p >= 1,
        bit_length(x / m) >= p + 2,
    ensures
        round_fraction(x, m * pow2(e), p) == round_fraction(
            with_sticky_digit(x, m),
            2 * pow2(e),
            p,
        ),
{
    let w = with_sticky_digit(x, m);
    let quotient = x / m;
    let pe = pow2(e);
    lemma_pow2_pos(e);
    lemma_div_denominator(x as int, m as int, pe as int);
    lemma_div_denominator(w as int, 2, pe as int);
    assert(w / 2 == quotient);
    let whole = quotient / pe;
    assert(x / (m * pe) == whole);
    assert(w / (2 * pe) == whole);
    lemma_bit_length_of_quotient(quotient, e);
    let q: nat = if bit_length(whole) > p {
        (bit_length(whole) - p) as nat
    } else {
        0
    };
    let k = e + q;
    assert(k >= 1);
    lemma_pow2_adds(e, q);
    lemma_pow2_unfold(k + 1);
    lemma_pow2_pos(q);
    assert(m * pe * pow2(q) == m * pow2(k)) by (nonlinear_arith)
        requires
            pe * pow2(q) == pow2(k),
    ;
    assert(2 * pe * pow2(q) == pow2(k + 1)) by (nonlinear_arith)
        requires
            pe * pow2(q) == pow2(k),
            pow2(k + 1) == 2 * pow2(k),
    ;
    lemma_sticky(x, m, k);
}

/// A ratio multiplied by a power of two rounds as its quotient with the sticky
/// digit does, where the whole quotient has two digits more than the precision.
pub proof fn lemma_sticky_scaled_up(x: nat, m: nat, e: nat, p: nat)
    requires
        m > 0,
        p >= 1,
        bit_length(x / m) >= p + 2,
    ensures
        round_fraction(x * pow2(e), m, p) == round_fraction(
            with_sticky_digit(x, m) * pow2(e),
            2,
            p,
        ),
{
    let w = with_sticky_digit(x, m) as int;
    let mi = m as int;
    let quotient = (x as int) / mi;
    let r = (x as int) % mi;
    let pe = pow2(e) as int;
    lemma_pow2_pos(e);
    lemma_fundamental_div_mod(x as int, mi);
    lemma_mod_bound(x as int, mi);
    vstd::arithmetic::div_mod::lemma_div_pos_is_pos(x as int, mi);
    lemma_bit_length_brackets(quotient as nat);
    let b = bit_length(quotient as nat);
    lemma_pow2_adds((b - 1) as nat, e);
    lemma_pow2_adds(b, e);
    // both whole parts lie between the quotient and its successor, times the power
    let whole_l = (x * pow2(e)) as int / mi;
    let whole_r = (w * pe) / 2;
    lemma_fundamental_div_mod((x * pow2(e)) as int, mi);
    lemma_mod_bound((x * pow2(e)) as int, mi);
    assert(quotient * pe <= whole_l < (quotient + 1) * pe) by (nonlinear_arith)
        requires
            x == mi * quotient + r,
            0 <= r < mi,
            (x * pow2(e)) as int == mi * whole_l + ((x * pow2(e)) as int) % mi,
            0 <= ((x * pow2(e)) as int) % mi < mi,
            pe == pow2(e),
            pe > 0,
            mi > 0,
    ;
    lemma_fundamental_div_mod(w * pe, 2);
    lemma_mod_bound(w * pe, 2);
    assert(quotient * pe <= whole_r < (quotient + 1) * pe) by (nonlinear_arith)
        requires
            2 * quotient <= w <= 2 * quotient + 1,
            w * pe == 2 * whole_r + (w * pe) % 2,
            0 <= (w * pe) % 2 < 2,
            pe > 0,
    ;
    let lo = pow2((b - 1) as nat) as int;
    let hi = pow2(b) as int;
    assert(lo * pe <= quotient * pe && (quotient + 1) * pe <= hi * pe) by (nonlinear_arith)
        requires
            lo <= quotient < hi,
            pe > 0,
    ;
    lemma_bit_length_unique(whole_l as nat, b + e);
    lemma_bit_length_unique(whole_r as nat, b + e);
    let q = (b + e - p) as nat;
    let k = (q - e) as nat;
    assert(k >= 2);
    lemma_pow2_adds(k, e);
    lemma_pow2_unfold(k + 1);
    lemma_pow2_unfold(q + 1);
    let pk = pow2(k) as int;
    lemma_pow2_pos(k);
    let d = mi * pk;
    assert(d > 0) by (nonlinear_arith)
        requires
            d == mi * pk,
            mi > 0,
            pk > 0,
    ;
    assert(mi * pow2(q) == pe * d) by (nonlinear_arith)
        requires
            pow2(q) == pk * pe,
            d == mi * pk,
    ;
    assert(x * pow2(e) == pe * x) by (nonlinear_arith)
        requires
            pe == pow2(e),
    ;
    vstd::arithmetic::div_mod::lemma_div_multiples_vanish_quotient(pe, x as int, d);
    vstd::arithmetic::div_mod::lemma_truncate_middle(x as int, pe, d);
    let dw = pow2(k + 1) as int;
    assert(2 * pow2(q) == pe * dw) by (nonlinear_arith)
        requires
            pow2(q) == pk * pe,
            dw == 2 * pk,
    ;
    assert(w * pe == pe * w) by (nonlinear_arith);
    vstd::arithmetic::div_mod::lemma_div_multiples_vanish_quotient(pe, w, dw);
    vstd::arithmetic::div_mod::lemma_truncate_middle(w, pe, dw);
    lemma_sticky(x, m, k);
    let rest_l = (x as int) % d;
    let rest_w = w % dw;
    assert((2 * (pe * rest_l) > pe * d) == (2 * rest_l > d) && (2 * (pe * rest_l) == pe * d) == (2
        * rest_l == d)) by (nonlinear_arith)
        requires
            pe > 0,
    ;
    assert((2 * (pe * rest_w) > pe * dw) == (2 * rest_w > dw) && (2 * (pe * rest_w) == pe * dw)
        == (2 * rest_w == dw)) by (nonlinear_arith)
        requires
            pe > 0,
    ;
}

/// The quotient of two values as IEEE-754 defines it. A NaN among the operands is
/// the result, the first one if both are; an infinity by an infinity and a zero by
/// a zero give the default NaN; any other quotient has the sign that the signs of
/// the operands give: it is an infinity where the dividend is one or the divisor is
/// zero, a zero where the divisor is an infinity, and else the ratio rounded to the
/// nearest value of the format.
pub open spec fn quotient_of(a: Decoded, b: Decoded, format: Format) -> Decoded {
    let negative = a.negative != b.negative;
    let b_is_zero = b.exponent == 0 && b.fraction == 0;
    let a_is_zero = a.exponent == 0 && a.fraction == 0;
    if a.is_nan(format) {
        a
    } else if b.is_nan(format) {
        b
    } else if a.is_infinite(format) {
        if b.is_infinite(format) {
            default_nan(format)
        } else {
            Decoded { negative, exponent: format.exponent_limit, fraction: 0 }
        }
    } else if b.is_infinite(format) {
        Decoded { negative, exponent: 0, fraction: 0 }
    } else if b_is_zero {
        if a_is_zero {
            default_nan(format)
        } else {
            Decoded { negative, exponent: format.exponent_limit, fraction: 0 }
        }
    } else {
        let fields = encoding_of_units(
            round_fraction(
                a.units(format) * pow2(unit_shift(format)),
                b.units(format),
                format.precision(),
            ),
            format,
        );
        Decoded { negative, exponent: fields.0 as u32, fraction: fields.1 as u64 }
    }
}

/// A significand that is not zero, shifted to the full precision.
fn normalized(significand: u64, format: Format) -> (r: (u64, u32))
    requires
        format.well_formed(),
        0 < significand < pow2(format.precision()),
    ensures
        r.0 == significand * pow2(r.1 as nat),
        pow2(format.fraction_bits as nat) <= r.0 < pow2(format.precision()),
        r.1 <= format.fraction_bits,
{
    let digits = count_digits(significand as u128) as u32;
    proof {
        lemma_bit_length_brackets(significand as nat);
        if digits > format.fraction_bits + 1 {
            lemma_pow2_below(format.precision(), (digits - 1) as nat);
        }
        let shift = (format.fraction_bits + 1 - digits) as nat;
        lemma_pow2_adds((digits - 1) as nat, shift);
        lemma_pow2_adds(digits as nat, shift);
        lemma_pow2_pos(shift);
        lemma_pow2_below(shift, 64);
        lemma_pow2_below(format.precision(), 64);
        lemma2_to64();
        let lo = pow2((digits - 1) as nat) as int;
        let hi = pow2(digits as nat) as int;
        let s = pow2(shift) as int;
        assert(lo * s <= significand * s < hi * s) by (nonlinear_arith)
            requires
                lo <= significand < hi,
                s > 0,
        ;
    }
    let shift = format.fraction_bits + 1 - digits;
    (significand * power_of_two(shift), shift)
}

/// The ratio of two numbers, from their normalized significands: with `sa` and
/// `sb` of full precision, `sa` times 2 to a power and `sb` times 2 to another.
proof fn lemma_ratio(
    a: Decoded,
    b: Decoded,
    sa: nat,
    la: nat,
    sb: nat,
    lb: nat,
    format: Format,
)
    requires
        format.well_formed(),
        a.valid(format),
        b.valid(format),
        sa == a.significand(format) * pow2(la),
        sb == b.significand(format) * pow2(lb),
        pow2(format.fraction_bits as nat) <= sa < pow2(format.precision()),
        pow2(format.fraction_bits as nat) <= sb < pow2(format.precision()),
    ensures
        ({
            let p = format.precision();
            let num = sa * pow2(p + 2);
            let up = a.scale() + unit_shift(format) + lb;
            let dn = b.scale() + la + p + 2;
            &&& a.units(format) * pow2(unit_shift(format)) * (sb * pow2(dn)) == num * pow2(up)
                * b.units(format)
            &&& bit_length(num / sb) >= p + 2
            &&& num < pow2(108)
            &&& with_sticky_digit(num, sb) < pow2(118)
            &&& sb > 0
            &&& b.units(format) > 0
        }),
{
    let p = format.precision();
    let n = unit_shift(format);
    let num = sa * pow2(p + 2);
    let up = a.scale() + n + lb;
    let dn = b.scale() + la + p + 2;
    let ua = a.significand(format) as int;
    let ub = b.significand(format) as int;
    lemma2_to64();
    lemma_pow2_pos(format.fraction_bits as nat);
    lemma_pow2_pos(la);
    lemma_pow2_pos(lb);
    lemma_pow2_pos(a.scale());
    lemma_pow2_pos(b.scale());
    lemma_pow2_pos(n);
    lemma_pow2_pos(p + 2);
    lemma_pow2_adds(a.scale(), n);
    lemma_pow2_adds(a.scale() + n, lb);
    lemma_pow2_adds(b.scale(), la);
    lemma_pow2_adds(b.scale() + la, p + 2);
    let ka = pow2(a.scale()) as int;
    let kb = pow2(b.scale()) as int;
    let pn = pow2(n) as int;
    let pla = pow2(la) as int;
    let plb = pow2(lb) as int;
    let pp = pow2(p + 2) as int;
    assert(ub > 0) by (nonlinear_arith)
        requires
            sb == ub * plb,
            sb > 0,
            plb > 0,
            ub >= 0,
    ;
    assert(b.units(format) > 0) by (nonlinear_arith)
        requires
            b.units(format) == ub * kb,
            ub > 0,
            kb > 0,
    ;
    let c = pla * pp * plb;
    lemma_regroup(ua, pla, pp, ka, pn, plb);
    lemma_regroup(ub, plb, 1, kb, pla, pp);
    assert(sb * pow2(dn) == (ub * kb) * c) by (nonlinear_arith)
        requires
            sb == ub * plb,
            pow2(dn) == kb * pla * pp,
            ((ub * plb) * 1) * ((kb * pla) * pp) == ((ub * kb) * pla) * ((plb * 1) * pp),
            c == pla * pp * plb,
    ;
    assert(num * pow2(up) == (ua * ka * pn) * c) by (nonlinear_arith)
        requires
            num == (ua * pla) * pp,
            pow2(up) == ka * pn * plb,
            ((ua * pla) * pp) * ((ka * pn) * plb) == ((ua * ka) * pn) * ((pla * pp) * plb),
            c == pla * pp * plb,
    ;
    assert(a.units(format) * pow2(unit_shift(format)) * (sb * pow2(dn)) == num * pow2(up)
        * b.units(format)) by (nonlinear_arith)
        requires
            a.units(format) * pow2(unit_shift(format)) == ua * ka * pn,
            b.units(format) == ub * kb,
            sb * pow2(dn) == (ub * kb) * c,
            num * pow2(up) == (ua * ka * pn) * c,
    ;
    // the quotient has two digits more than the precision
    lemma_pow2_unfold(p);
    lemma_pow2_adds((p - 1) as nat, p + 2);
    lemma_pow2_adds(p, p + 2);
    lemma_pow2_unfold(p + 1);
    lemma_pow2_unfold(p + 2);
    lemma_pow2_unfold(p + 3);
    lemma_pow2_adds(p + 1, p);
    lemma_pow2_adds(p + 3, (p - 1) as nat);
    let quotient = (num as int) / (sb as int);
    lemma_fundamental_div_mod(num as int, sb as int);
    lemma_mod_bound(num as int, sb as int);
    let half = pow2((p - 1) as nat) as int;
    let full = pow2(p) as int;
    assert(half * pp <= num < full * pp) by (nonlinear_arith)
        requires
            num == sa * pp,
            half <= sa < full,
            pp > 0,
    ;
    assert(pow2(p + 1) <= quotient < pow2(p + 3)) by (nonlinear_arith)
        requires
            num == sb * quotient + (num as int) % (sb as int),
            0 <= (num as int) % (sb as int) < sb,
            half <= sb < full,
            half * pp <= num < full * pp,
            pp == 4 * full,
            full == 2 * half,
            pow2(p + 1) == 2 * full,
            pow2(p + 3) == 8 * full,
            half > 0,
    ;
    lemma_bit_length_brackets(quotient as nat);
    if bit_length(quotient as nat) < p + 2 {
        lemma_pow2_below(bit_length(quotient as nat), p + 2);
        lemma_pow2_below(p + 1, p + 2);
        if bit_length(quotient as nat) < p + 1 {
            lemma_pow2_below(bit_length(quotient as nat), p + 1);
        }
    }
    if 2 * p + 2 < 108 {
        lemma_pow2_below(2 * p + 2, 108);
    }
    if p + 3 < 57 {
        lemma_pow2_below(p + 3, 57);
    }
    lemma_pow2_below(57, 117);
    lemma_pow2_unfold(118);
}

/// The same six factors in another grouping.
proof fn lemma_regroup(a: int, b: int, c: int, d: int, e: int, f: int)
    ensures
        ((a * b) * c) * ((d * e) * f) == ((a * d) * e) * ((b * c) * f),
{
    assert(((a * b) * c) * ((d * e) * f) == ((a * d) * e) * ((b * c) * f)) by (nonlinear_arith);
}

/// The quotient of two values.
pub fn quotient(a: Decoded, b: Decoded, format: Format) -> (r: Decoded)
    requires
        format.well_formed(),
        a.valid(format),
        b.valid(format),
    ensures
        r == quotient_of(a, b, format),
        r.valid(format),
{
    let negative = a.negative != b.negative;
    let a_is_zero = a.exponent == 0 && a.fraction == 0;
    let b_is_zero = b.exponent == 0 && b.fraction == 0;
    proof {
        lemma_pow2_pos(format.fraction_bits as nat);
        lemma_pow2_pos(format.precision());
    }
    if a.exponent == format.exponent_limit && a.fraction != 0 {
        return a;
    }
    if b.exponent == format.exponent_limit && b.fraction != 0 {
        return b;
    }
    if a.exponent == format.exponent_limit {
        if b.exponent == format.exponent_limit {
            return make_default_nan(format);
        }
        return Decoded { negative, exponent: format.exponent_limit, fraction: 0 };
    }
    if b.exponent == format.exponent_limit {
        return Decoded { negative, exponent: 0, fraction: 0 };
    }
    if b_is_zero {
        if a_is_zero {
            return make_default_nan(format);
        }
        return Decoded { negative, exponent: format.exponent_limit, fraction: 0 };
    }
    let ghost p = format.precision();
    if a_is_zero {
        proof {
            let zero = a.units(format) * pow2(unit_shift(format));
            assert(a.units(format) == 0) by (nonlinear_arith)
                requires
                    a.units(format) == 0 * pow2(a.scale()),
            ;
            assert(zero == 0) by (nonlinear_arith)
                requires
                    zero == 0 * pow2(unit_shift(format)),
            ;
            let zero_number = Decoded { negative: b.negative, exponent: 0, fraction: 0 };
            super::arithmetic::lemma_units_order(zero_number, b, format);
            lemma_zero_ratio(b.units(format), p);
        }
        return Decoded { negative, exponent: 0, fraction: 0 };
    }
    proof {
        lemma2_to64();
        lemma_pow2_below(format.fraction_bits as nat, 64);
        lemma_pow2_unfold(p);
        lemma_pow2_below(p, 64);
    }
    let fraction_limit = power_of_two(format.fraction_bits);
    let a_scale = if a.exponent == 0 {
        0
    } else {
        a.exponent - 1
    };
    let b_scale = if b.exponent == 0 {
        0
    } else {
        b.exponent - 1
    };
    let a_significand = if a.exponent == 0 {
        a.fraction
    } else {
        fraction_limit + a.fraction
    };
    let b_significand = if b.exponent == 0 {
        b.fraction
    } else {
        fraction_limit + b.fraction
    };
    let (sa, la) = normalized(a_significand, format);
    let (sb, lb) = normalized(b_significand, format);
    let extra = format.fraction_bits + 3;
    proof {
        lemma_ratio(a, b, sa as nat, la as nat, sb as nat, lb as nat, format);
        lemma_pow2_below(108, 127);
        lemma_pow2_below(118, 127);
        super::bits::lemma_pow2_128();
        lemma_pow2_below(127, 128);
    }
    let num = sa as u128 * wide_power_of_two(extra);
    let whole = num / sb as u128;
    let rest = num % sb as u128;
    let w = if rest != 0 {
        2 * whole + 1
    } else {
        2 * whole
    };
    let up = a_scale + (format.exponent_limit / 2 + format.fraction_bits - 1) + lb;
    let dn = b_scale + la + extra;
    let ghost exact_n = a.units(format) * pow2(unit_shift(format));
    let ghost exact_m = b.units(format);
    proof {
        lemma_pow2_pos(dn as nat);
        lemma_pow2_pos(up as nat);
        assert(sb as nat * pow2(dn as nat) > 0) by (nonlinear_arith)
            requires
                sb > 0,
                pow2(dn as nat) > 0,
        ;
        lemma_round_fraction_of_equal_ratios(
            exact_n,
            exact_m,
            num as nat * pow2(up as nat),
            sb as nat * pow2(dn as nat),
            p,
        );
        assert(w == with_sticky_digit(num as nat, sb as nat));
    }
    let fields = if up > dn {
        proof {
            let e = (up - dn) as nat;
            lemma_pow2_adds(e, dn as nat);
            lemma_pow2_pos(e);
            assert(num as nat * pow2(up as nat) == (num as nat * pow2(e)) * pow2(dn as nat))
                by (nonlinear_arith)
                requires
                    pow2(up as nat) == pow2(e) * pow2(dn as nat),
            ;
            lemma_round_fraction_scaled(num as nat * pow2(e), sb as nat, pow2(dn as nat), p);
            lemma_sticky_scaled_up(num as nat, sb as nat, e, p);
            lemma_pow2_unfold(e);
            assert(w as nat * pow2(e) == (w as nat * pow2((e - 1) as nat)) * 2) by (nonlinear_arith)
                requires
                    pow2(e) == 2 * pow2((e - 1) as nat),
            ;
            lemma_round_fraction_scaled(w as nat * pow2((e - 1) as nat), 1, 2, p);
            lemma_round_fraction_of_whole(w as nat * pow2((e - 1) as nat), p);
            lemma_pow2_below(118, 120);
        }
        round_to_format(w, up - dn - 1, format)
    } else {
        proof {
            let e = (dn - up) as nat;
            lemma_pow2_adds(e, up as nat);
            lemma_pow2_pos(e);
            assert(sb as nat * pow2(dn as nat) == (sb as nat * pow2(e)) * pow2(up as nat))
                by (nonlinear_arith)
                requires
                    pow2(dn as nat) == pow2(e) * pow2(up as nat),
            ;
            assert(sb as nat * pow2(e) > 0) by (nonlinear_arith)
                requires
                    sb > 0,
                    pow2(e) > 0,
            ;
            lemma_round_fraction_scaled(num as nat, sb as nat * pow2(e), pow2(up as nat), p);
            lemma_sticky_scaled_down(num as nat, sb as nat, e, p);
            lemma_pow2_unfold(e + 1);
        }
        round_scaled_down(w, dn - up + 1, format)
    };
    Decoded { negative, exponent: fields.0, fraction: fields.1 }
}

/// Zero divided by anything rounds to zero.
pub proof fn lemma_zero_ratio(m: nat, p: nat)
    requires
        m > 0,
    ensures
        round_fraction(0, m, p) == 0,
{
    lemma2_to64();
    assert(0nat / m == 0);
    assert(bit_length(0) == 0);
    assert(m * pow2(0) == m) by (nonlinear_arith)
        requires
            pow2(0) == 1,
    ;
    assert(0nat % m == 0);
    assert(0nat * pow2(0) == 0) by (nonlinear_arith);
}

} // verus!

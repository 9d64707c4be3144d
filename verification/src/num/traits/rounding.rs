//! Rounding an exact magnitude to the precision of a format: to the nearest value
//! that the format has, and of two equally near to the one whose last bit is zero.

use vstd::arithmetic::div_mod::{
    lemma_div_multiples_vanish, lemma_fundamental_div_mod, lemma_fundamental_div_mod_converse,
    lemma_mod_multiples_basic,
};
use vstd::arithmetic::power2::{lemma2_to64, lemma_pow2_adds, lemma_pow2_pos, lemma_pow2_unfold, pow2};
use vstd::prelude::*;
use super::bits::{count_digits, lemma_pow2_128, lemma_pow2_below, wide_power_of_two};
use super::model::bit_length;

verus! {

/// A number that is not zero lies between the powers of two that its number of
/// binary digits names.
pub proof fn lemma_bit_length_brackets(n: nat)
    requires
        n > 0,
    ensures
        bit_length(n) >= 1,
        pow2((bit_length(n) - 1) as nat) <= n < pow2(bit_length(n)),
    decreases n,
{
    lemma2_to64();
    if n == 1 {
        assert(bit_length(1) == 1) by {
            reveal_with_fuel(bit_length, 3);
        }
    } else {
        lemma_bit_length_brackets(n / 2);
        lemma_pow2_unfold(bit_length(n));
        lemma_pow2_unfold((bit_length(n) - 1) as nat);
    }
}

/// The number of binary digits of a number is the one power of two exponent that
/// brackets it.
pub proof fn lemma_bit_length_unique(n: nat, len: nat)
    requires
        len >= 1,
        pow2((len - 1) as nat) <= n < pow2(len),
    ensures
        bit_length(n) == len,
{
    lemma_pow2_pos((len - 1) as nat);
    lemma_bit_length_brackets(n);
    let b = bit_length(n);
    if b < len {
        if b < len - 1 {
            lemma_pow2_below(b, (len - 1) as nat);
        }
    } else if b > len {
        if len < b - 1 {
            lemma_pow2_below(len, (b - 1) as nat);
        }
    }
}

/// Multiplying by a power of two appends that many zero digits.
pub proof fn lemma_bit_length_shifted(n: nat, k: nat)
    requires
        n > 0,
    ensures
        bit_length(n * pow2(k)) == bit_length(n) + k,
{
    lemma_bit_length_brackets(n);
    let b = bit_length(n);
    let p = pow2(k) as int;
    lemma_pow2_pos(k);
    lemma_pow2_adds((b - 1) as nat, k);
    lemma_pow2_adds(b, k);
    let lo = pow2((b - 1) as nat) as int;
    let hi = pow2(b) as int;
    assert(lo * p <= n * p < hi * p) by (nonlinear_arith)
        requires
            lo <= n < hi,
            p > 0,
    ;
    lemma_bit_length_unique(n * pow2(k), b + k);
}

/// Dividing a multiple of a power of two by a lower power of two.
pub proof fn lemma_shifted_div_low(n: nat, k: nat, q: nat)
    requires
        q <= k,
    ensures
        (n * pow2(k)) / pow2(q) == n * pow2((k - q) as nat),
        (n * pow2(k)) % pow2(q) == 0,
{
    lemma_pow2_adds((k - q) as nat, q);
    lemma_pow2_pos(q);
    let a = pow2((k - q) as nat) as int;
    let d = pow2(q) as int;
    assert(n * (a * d) == d * (n * a) + 0) by (nonlinear_arith);
    lemma_fundamental_div_mod_converse((n * pow2(k)) as int, d, n * a, 0);
}

/// Dividing a multiple of a power of two by a higher power of two.
pub proof fn lemma_shifted_div_high(n: nat, k: nat, q: nat)
    requires
        q >= k,
    ensures
        (n * pow2(k)) / pow2(q) == n / pow2((q - k) as nat),
        (n * pow2(k)) % pow2(q) == (n % pow2((q - k) as nat)) * pow2(k),
{
    lemma_pow2_adds((q - k) as nat, k);
    lemma_pow2_pos(q);
    lemma_pow2_pos(k);
    lemma_pow2_pos((q - k) as nat);
    let a = pow2((q - k) as nat) as int;
    let s = pow2(k) as int;
    let head = (n as int) / a;
    let low = (n as int) % a;
    lemma_fundamental_div_mod(n as int, a);
    assert(n * s == (a * s) * head + low * s) by (nonlinear_arith)
        requires
            n == a * head + low,
    ;
    assert(0 <= low * s < a * s) by (nonlinear_arith)
        requires
            0 <= low < a,
            s > 0,
    ;
    lemma_fundamental_div_mod_converse((n * pow2(k)) as int, a * s, head, low * s);
}

/// `v` rounded to `p` binary digits: `v` itself if it has no more, else the
/// nearest multiple of the power of two that leaves `p` digits in front; if two
/// are equally near, the one with an even number in front. The result may have
/// `p + 1` digits: a one and zeros.
pub open spec fn round_to_precision(v: nat, p: nat) -> nat {
    if v < pow2(p) {
        v
    } else {
        let q = (bit_length(v) - p) as nat;
        let head = v / pow2(q);
        let low = v % pow2(q);
        if 2 * low > pow2(q) || (2 * low == pow2(q) && head % 2 == 1) {
            (head + 1) * pow2(q)
        } else {
            head * pow2(q)
        }
    }
}

/// The parameters of a binary floating-point format.
#[derive(Clone, Copy, Debug)]
pub struct Format {
    /// The number of bits of the fraction.
    pub fraction_bits: u32,
    /// The exponent of infinities and NaNs, which is the greatest.
    pub exponent_limit: u32,
}

impl Format {
    /// What the parameters have to satisfy: the formats up to binary64 do.
    pub open spec fn well_formed(self) -> bool {
        1 <= self.fraction_bits <= 52 && 2 * self.fraction_bits + 6 <= self.exponent_limit <= 0x7ff
    }

    /// The number of fractions.
    pub open spec fn fraction_limit(self) -> nat {
        pow2(self.fraction_bits as nat)
    }

    /// The number of binary digits of a significand.
    pub open spec fn precision(self) -> nat {
        (self.fraction_bits + 1) as nat
    }
}

/// The exponent and fraction of the number of `units` units, which has no more
/// digits than the format's precision, but for trailing zeros; those of infinity if
/// it is too great for the format.
pub open spec fn encoding_of_units(units: nat, format: Format) -> (nat, nat) {
    if units < format.fraction_limit() {
        (0, units)
    } else {
        let q = (bit_length(units) - format.precision()) as nat;
        if q + 1 >= format.exponent_limit {
            (format.exponent_limit as nat, 0)
        } else {
            ((q + 1) as nat, (units / pow2(q) - format.fraction_limit()) as nat)
        }
    }
}

/// The exponent and fraction of the value of the format that is nearest to `v`
/// units, the even one of two that are equally near; those of infinity if that
/// value is too great for the format.
pub open spec fn rounded_magnitude(v: nat, format: Format) -> (nat, nat) {
    encoding_of_units(round_to_precision(v, format.precision()), format)
}

/// Rounds `w` times 2 to the power `shift` units to the format.
pub fn round_to_format(w: u128, shift: u32, format: Format) -> (r: (u32, u64))
    requires
        format.well_formed(),
        w < pow2(120),
        shift <= 0x1000,
    ensures
        (r.0 as nat, r.1 as nat) == rounded_magnitude(w as nat * pow2(shift as nat), format),
        r.0 <= format.exponent_limit,
        r.1 < format.fraction_limit(),
        r.0 == format.exponent_limit ==> r.1 == 0,
{
    let ghost v = w as nat * pow2(shift as nat);
    let ghost p = format.precision();
    let ghost limit = format.fraction_limit();
    proof {
        lemma2_to64();
        lemma_pow2_pos(shift as nat);
        lemma_pow2_pos(format.fraction_bits as nat);
        lemma_pow2_unfold(p);
    }
    if w == 0 {
        proof {
            assert(v == 0) by (nonlinear_arith)
                requires
                    v == 0 * pow2(shift as nat),
            ;
        }
        return (0, 0);
    }
    let digits = count_digits(w) as u32;
    let total = digits + shift;
    proof {
        lemma_bit_length_brackets(w as nat);
        lemma_bit_length_shifted(w as nat, shift as nat);
        lemma_bit_length_brackets(v);
        if digits > 120 {
            lemma_pow2_below(120, (digits - 1) as nat);
        }
    }
    if total <= format.fraction_bits {
        proof {
            if total < format.fraction_bits {
                lemma_pow2_below(total as nat, format.fraction_bits as nat);
            }
            lemma_pow2_below(format.fraction_bits as nat, p);
            lemma_pow2_below(format.fraction_bits as nat, 64);
        }
        let exact = w * wide_power_of_two(shift);
        return (0, exact as u64);
    }
    let precision = format.fraction_bits + 1;
    let drop = total - precision;
    let ghost q = drop as nat;
    let fraction_limit = wide_power_of_two(format.fraction_bits);
    proof {
        lemma_pow2_below(format.fraction_bits as nat, 64);
        lemma_pow2_adds(p, q);
        lemma_pow2_adds((p - 1) as nat, q);
        lemma_pow2_pos(q);
    }
    let significand: u128 = if drop <= shift {
        proof {
            lemma_shifted_div_low(w as nat, shift as nat, q);
            lemma_bit_length_shifted(w as nat, (shift - drop) as nat);
            lemma_bit_length_brackets(w as nat * pow2((shift - drop) as nat));
            lemma_pow2_adds((shift - drop) as nat, q);
            assert(w as nat * pow2((shift - drop) as nat) * pow2(q) == v) by (nonlinear_arith)
                requires
                    v == w as nat * pow2(shift as nat),
                    pow2(shift as nat) == pow2((shift - drop) as nat) * pow2(q),
            ;
            lemma_pow2_below(p, 64);
            if total > precision {
                if p < total - 1 {
                    lemma_pow2_below(p, (total - 1) as nat);
                }
                assert(v >= pow2(p));
                assert(v / pow2(q) == w as nat * pow2((shift - drop) as nat));
                assert(v % pow2(q) == 0);
            } else {
                assert(v < pow2(p));
                assert(q == 0);
                assert(w as nat * pow2((shift - drop) as nat) * pow2(q) == v);
            }
            assert(round_to_precision(v, p) == w as nat * pow2((shift - drop) as nat) * pow2(q));
        }
        w * wide_power_of_two(shift - drop)
    } else {
        let low_digits = drop - shift;
        let divisor = wide_power_of_two(low_digits);
        proof {
            lemma_pow2_pos(low_digits as nat);
            if low_digits < 120 {
                lemma_pow2_below(low_digits as nat, 120);
            }
            lemma_pow2_below(120, 127);
            lemma_pow2_128();
            lemma_pow2_below(127, 128);
        }
        let head = w / divisor;
        let low = w % divisor;
        proof {
            lemma_shifted_div_high(w as nat, shift as nat, q);
            lemma_pow2_adds(low_digits as nat, shift as nat);
            lemma_pow2_pos(low_digits as nat);
            // `head` has exactly `p` digits
            lemma_pow2_adds((p - 1) as nat, low_digits as nat);
            lemma_pow2_adds(p, low_digits as nat);
            lemma_fundamental_div_mod(w as int, divisor as int);
            let lo = pow2((p - 1) as nat) as int;
            let hi = pow2(p) as int;
            let d = divisor as int;
            assert(lo <= head < hi) by (nonlinear_arith)
                requires
                    lo * d <= w < hi * d,
                    w == d * head + low,
                    0 <= low < d,
                    d > 0,
            ;
            let s = pow2(shift as nat) as int;
            let low_v = low * s;
            assert((2 * low_v > d * s) == (2 * low > d) && (2 * low_v == d * s) == (2 * low == d))
                by (nonlinear_arith)
                requires
                    low_v == low * s,
                    s > 0,
            ;
            lemma_pow2_below(p, 64);
            if p < total - 1 {
                lemma_pow2_below(p, (total - 1) as nat);
            }
            assert(v >= pow2(p));
            assert(v / pow2(q) == head);
            assert(v % pow2(q) == low_v);
            assert(pow2(q) == d * s);
        }
        if 2 * low > divisor || (2 * low == divisor && head % 2 == 1) {
            head + 1
        } else {
            head
        }
    };
    proof {
        // the rounded value is `significand` times 2 to the power `q`
        let r = round_to_precision(v, p);
        assert(r == significand as nat * pow2(q));
        let s = significand as nat;
        assert(pow2((p - 1) as nat) <= s <= pow2(p));
        if s < pow2(p) {
            lemma_bit_length_unique(s, p);
            lemma_bit_length_shifted(s, q);
            lemma_div_multiples_vanish(s as int, pow2(q) as int);
            assert(s * pow2(q) == pow2(q) * s) by (nonlinear_arith);
        } else {
            lemma_pow2_adds(p, q);
            lemma_pow2_unfold(p + q + 1);
            lemma_pow2_pos(p + q);
            lemma_bit_length_unique(r, p + q + 1);
            lemma_pow2_unfold(q + 1);
            lemma_pow2_pos(q + 1);
            assert(r == pow2((p - 1) as nat) * pow2(q + 1)) by (nonlinear_arith)
                requires
                    r == pow2(p) * pow2(q),
                    pow2(p) == 2 * pow2((p - 1) as nat),
                    pow2(q + 1) == 2 * pow2(q),
            ;
            lemma_div_multiples_vanish(pow2((p - 1) as nat) as int, pow2(q + 1) as int);
            assert(pow2((p - 1) as nat) * pow2(q + 1) == pow2(q + 1) * pow2((p - 1) as nat))
                by (nonlinear_arith);
        }
        assert(r >= limit) by (nonlinear_arith)
            requires
                r == s * pow2(q),
                s >= limit,
                pow2(q) >= 1,
        ;
    }
    if significand == 2 * fraction_limit {
        if drop + 2 >= format.exponent_limit {
            (format.exponent_limit, 0)
        } else {
            (drop + 2, 0)
        }
    } else {
        if drop + 1 >= format.exponent_limit {
            (format.exponent_limit, 0)
        } else {
            (drop + 1, (significand - fraction_limit) as u64)
        }
    }
}

/// The ratio of `n` to `m` rounded to `p` binary digits, or to a whole number if it
/// has fewer: the nearest multiple of the power of two that leaves `p` digits in
/// front; if two are equally near, the one with an even number in front.
pub open spec fn round_fraction(n: nat, m: nat, p: nat) -> nat {
    let whole = n / m;
    let q: nat = if bit_length(whole) > p {
        (bit_length(whole) - p) as nat
    } else {
        0
    };
    let d = m * pow2(q);
    let head = n / d;
    let rest = n % d;
    if 2 * rest > d || (2 * rest == d && head % 2 == 1) {
        (head + 1) * pow2(q)
    } else {
        head * pow2(q)
    }
}

/// A whole number rounds as the ratio of itself to one.
pub proof fn lemma_round_fraction_of_whole(v: nat, p: nat)
    ensures
        round_fraction(v, 1, p) == round_to_precision(v, p),
{
    lemma2_to64();
    let q: nat = if bit_length(v) > p {
        (bit_length(v) - p) as nat
    } else {
        0
    };
    lemma_pow2_pos(q);
    assert(1 * pow2(q) == pow2(q)) by (nonlinear_arith);
    if v > 0 {
        lemma_bit_length_brackets(v);
        if bit_length(v) > p {
            if p < bit_length(v) - 1 {
                lemma_pow2_below(p, (bit_length(v) - 1) as nat);
            }
        } else {
            if bit_length(v) < p {
                lemma_pow2_below(bit_length(v), p);
            }
            assert(v / 1 == v && v % 1 == 0);
            assert(v * pow2(0) == v) by (nonlinear_arith)
                requires
                    pow2(0) == 1,
            ;
        }
    } else {
        lemma_pow2_pos(p);
        assert(0nat * pow2(0) == 0) by (nonlinear_arith);
    }
}

/// Rounding sees the ratio only: a common factor of both terms changes nothing.
pub proof fn lemma_round_fraction_scaled(a: nat, b: nat, c: nat, p: nat)
    requires
        b > 0,
        c > 0,
    ensures
        round_fraction(a * c, b * c, p) == round_fraction(a, b, p),
{
    assert(b * c > 0) by (nonlinear_arith)
        requires
            b > 0,
            c > 0,
    ;
    vstd::arithmetic::div_mod::lemma_div_multiples_vanish_quotient(c as int, a as int, b as int);
    assert(a * c == c * a && b * c == c * b) by (nonlinear_arith);
    assert((a * c) / (b * c) == a / b);
    let whole = a / b;
    let q: nat = if bit_length(whole) > p {
        (bit_length(whole) - p) as nat
    } else {
        0
    };
    lemma_pow2_pos(q);
    let d = (b * pow2(q)) as int;
    assert(d > 0) by (nonlinear_arith)
        requires
            d == b * pow2(q),
            b > 0,
            pow2(q) > 0,
    ;
    assert(b * c * pow2(q) == c * d) by (nonlinear_arith)
        requires
            d == b * pow2(q),
    ;
    vstd::arithmetic::div_mod::lemma_div_multiples_vanish_quotient(c as int, a as int, d);
    vstd::arithmetic::div_mod::lemma_truncate_middle(a as int, c as int, d);
    let rest = (a as int) % d;
    let rest2 = (a * c) as int % (c * d);
    assert(rest2 == c * rest);
    assert((2 * rest2 > c * d) == (2 * rest > d) && (2 * rest2 == c * d) == (2 * rest == d))
        by (nonlinear_arith)
        requires
            rest2 == c * rest,
            c > 0,
    ;
}

/// Rounding sees the ratio only: two ratios that are equal round alike.
pub proof fn lemma_round_fraction_of_equal_ratios(a: nat, b: nat, c: nat, d: nat, p: nat)
    requires
        b > 0,
        d > 0,
        a * d == c * b,
    ensures
        round_fraction(a, b, p) == round_fraction(c, d, p),
{
    lemma_round_fraction_scaled(a, b, d, p);
    lemma_round_fraction_scaled(c, d, b, p);
    assert(b * d == d * b) by (nonlinear_arith);
}

/// A number of no more digits than the precision, times a power of two, needs no
/// rounding.
pub proof fn lemma_exact_rounds_to_itself(s: nat, k: nat, p: nat)
    requires
        p >= 1,
        s <= pow2(p),
    ensures
        round_to_precision(s * pow2(k), p) == s * pow2(k),
{
    let v = s * pow2(k);
    lemma_pow2_pos(k);
    lemma_pow2_pos(p);
    if v >= pow2(p) {
        assert(s > 0) by (nonlinear_arith)
            requires
                s * pow2(k) > 0,
        ;
        lemma_bit_length_brackets(s);
        lemma_bit_length_shifted(s, k);
        lemma_bit_length_brackets(v);
        if bit_length(v) < p {
            lemma_pow2_below(bit_length(v), p);
        }
        let q = (bit_length(v) - p) as nat;
        if s < pow2(p) {
            lemma_bit_length_brackets(s);
            if bit_length(s) > p {
                if p < bit_length(s) - 1 {
                    lemma_pow2_below(p, (bit_length(s) - 1) as nat);
                }
            }
            if bit_length(s) > p {
                assert(pow2(p) <= pow2((bit_length(s) - 1) as nat));
            }
            assert(bit_length(s) <= p);
            assert(bit_length(v) == bit_length(s) + k);
            assert(q <= k);
            lemma_shifted_div_low(s, k, q);
            lemma_pow2_adds((k - q) as nat, q);
            assert(s * pow2((k - q) as nat) * pow2(q) == v) by (nonlinear_arith)
                requires
                    v == s * pow2(k),
                    pow2(k) == pow2((k - q) as nat) * pow2(q),
            ;
        } else {
            lemma_pow2_unfold(p + 1);
            lemma_bit_length_unique(s, p + 1);
            lemma_pow2_adds(p, k);
            lemma_pow2_unfold(k + 1);
            let half = pow2((p - 1) as nat);
            {
                lemma_pow2_unfold(p);
                assert(v == half * pow2(k + 1)) by (nonlinear_arith)
                    requires
                        v == s * pow2(k),
                        s == 2 * half,
                        pow2(k + 1) == 2 * pow2(k),
                ;
                vstd::arithmetic::div_mod::lemma_div_multiples_vanish(
                    half as int,
                    pow2(k + 1) as int,
                );
                vstd::arithmetic::div_mod::lemma_mod_multiples_basic(
                    half as int,
                    pow2(k + 1) as int,
                );
                assert(half * pow2(k + 1) == pow2(k + 1) * half) by (nonlinear_arith);
                lemma_pow2_pos(k + 1);
            }
        }
    }
}

/// Dividing by a power of two takes that many digits away.
pub proof fn lemma_bit_length_of_quotient(w: nat, k: nat)
    ensures
        bit_length(w / pow2(k)) == if bit_length(w) > k {
            (bit_length(w) - k) as nat
        } else {
            0
        },
{
    lemma_pow2_pos(k);
    let d = pow2(k) as int;
    let quotient = (w as int) / d;
    lemma_fundamental_div_mod(w as int, d);
    vstd::arithmetic::div_mod::lemma_mod_bound(w as int, d);
    vstd::arithmetic::div_mod::lemma_div_pos_is_pos(w as int, d);
    if w == 0 {
        assert(quotient == 0);
    } else {
        lemma_bit_length_brackets(w);
        let b = bit_length(w);
        if b <= k {
            if b < k {
                lemma_pow2_below(b, k);
            }
            vstd::arithmetic::div_mod::lemma_basic_div(w as int, d);
        } else {
            lemma_pow2_adds((b - k) as nat, k);
            lemma_pow2_adds((b - 1 - k) as nat, k);
            let hi = pow2((b - k) as nat) as int;
            let lo = pow2((b - 1 - k) as nat) as int;
            assert(lo <= quotient < hi) by (nonlinear_arith)
                requires
                    lo * d <= w < hi * d,
                    w == d * quotient + (w as int) % d,
                    0 <= (w as int) % d < d,
                    d > 0,
            ;
            lemma_bit_length_unique(quotient as nat, (b - k) as nat);
        }
    }
}

/// Rounds `w` divided by 2 to the power `down` units to the format.
pub fn round_scaled_down(w: u128, down: u32, format: Format) -> (r: (u32, u64))
    requires
        format.well_formed(),
        w < pow2(118),
        1 <= down <= 0x2000,
    ensures
        (r.0 as nat, r.1 as nat) == encoding_of_units(
            round_fraction(w as nat, pow2(down as nat), format.precision()),
            format,
        ),
        r.0 <= format.exponent_limit,
        r.1 < format.fraction_limit(),
        r.0 == format.exponent_limit ==> r.1 == 0,
{
    let ghost p = format.precision();
    let ghost m = pow2(down as nat);
    let digits = count_digits(w) as u32;
    let precision = format.fraction_bits + 1;
    let whole_digits = if digits > down {
        digits - down
    } else {
        0
    };
    let q = if whole_digits > precision {
        whole_digits - precision
    } else {
        0
    };
    let drop = down + q;
    proof {
        lemma2_to64();
        lemma_pow2_pos(down as nat);
        lemma_pow2_pos(q as nat);
        lemma_pow2_pos(format.fraction_bits as nat);
        lemma_pow2_adds(down as nat, q as nat);
        lemma_bit_length_of_quotient(w as nat, down as nat);
        if w > 0 {
            lemma_bit_length_brackets(w as nat);
            if digits > 118 {
                lemma_pow2_below(118, (digits - 1) as nat);
            }
        }
        lemma_pow2_pos(drop as nat);
    }
    if w == 0 || drop > digits + 1 {
        proof {
            let d = pow2(drop as nat);
            if w > 0 {
                lemma_pow2_below(digits as nat, (drop - 1) as nat);
                lemma_pow2_unfold(drop as nat);
            }
            vstd::arithmetic::div_mod::lemma_small_mod(w as nat, d);
            vstd::arithmetic::div_mod::lemma_basic_div(w as int, d as int);
            assert(0nat * pow2(q as nat) == 0) by (nonlinear_arith);
        }
        return (0, 0);
    }
    proof {
        lemma_pow2_below(drop as nat, 120);
        lemma_pow2_below(120, 127);
        lemma_pow2_128();
        lemma_pow2_below(127, 128);
        lemma_bit_length_of_quotient(w as nat, drop as nat);
        lemma_bit_length_brackets(w as nat);
    }
    let divisor = wide_power_of_two(drop);
    let head = w / divisor;
    let low = w % divisor;
    proof {
        // the head has no more digits than the precision
        if head > 0 {
            lemma_bit_length_brackets(head as nat);
            if bit_length(head as nat) < p {
                lemma_pow2_below(bit_length(head as nat), p);
            }
        } else {
            lemma_pow2_pos(p);
        }
        assert(head < pow2(p));
        lemma_pow2_below(p, 64);
        lemma_pow2_below(118, 127);
    }
    let significand = if 2 * low > divisor || (2 * low == divisor && head % 2 == 1) {
        head + 1
    } else {
        head
    };
    proof {
        lemma_exact_rounds_to_itself(significand as nat, q as nat, p);
        lemma_pow2_below(p, 120);
    }
    round_to_format(significand, q, format)
}

/// The distance between two numbers.
pub open spec fn gap(a: int, b: int) -> int {
    if a < b {
        b - a
    } else {
        a - b
    }
}

/// The power of two of which the rounded ratio of `n` to `m` is a multiple: the
/// place of its last binary digit.
pub open spec fn last_place(n: nat, m: nat, p: nat) -> nat {
    if bit_length(n / m) > p {
        (bit_length(n / m) - p) as nat
    } else {
        0
    }
}

/// Rounding gives the nearest value: the rounded ratio is a multiple of 2 to the
/// power of its last place, and no other such multiple is nearer to the ratio.
/// Where two are equally near, the one that is chosen is an even multiple.
pub proof fn lemma_round_fraction_is_nearest(n: nat, m: nat, p: nat, other: nat)
    requires
        m > 0,
    ensures
        ({
            let unit = pow2(last_place(n, m, p));
            let r = round_fraction(n, m, p);
            &&& r % unit == 0
            &&& gap((r * m) as int, n as int) <= gap((other * unit * m) as int, n as int)
            &&& gap((r * m) as int, n as int) == gap((other * unit * m) as int, n as int) && r
                != other * unit ==> (r / unit) % 2 == 0
        }),
{
    let q = last_place(n, m, p);
    let unit = pow2(q) as int;
    lemma_pow2_pos(q);
    let d = m * unit;
    assert(d > 0) by (nonlinear_arith)
        requires
            d == m * unit,
            m > 0,
            unit > 0,
    ;
    let head = (n as int) / d;
    let rest = (n as int) % d;
    lemma_fundamental_div_mod(n as int, d);
    vstd::arithmetic::div_mod::lemma_mod_bound(n as int, d);
    vstd::arithmetic::div_mod::lemma_div_pos_is_pos(n as int, d);
    let r = round_fraction(n, m, p) as int;
    let chosen: int = if 2 * rest > d || (2 * rest == d && head % 2 == 1) {
        head + 1
    } else {
        head
    };
    assert(r == chosen * unit);
    vstd::arithmetic::div_mod::lemma_mod_multiples_basic(chosen, unit);
    vstd::arithmetic::div_mod::lemma_div_multiples_vanish(chosen, unit);
    assert(chosen * unit == unit * chosen) by (nonlinear_arith);
    let k = other as int;
    assert(r * m == chosen * d && k * unit * m == k * d) by (nonlinear_arith)
        requires
            r == chosen * unit,
            d == m * unit,
    ;
    assert(n == head * d + rest) by (nonlinear_arith)
        requires
            n == d * head + rest,
    ;
    // the other multiple lies at or below the head, or at or above its successor
    if k <= head {
        assert(k * d <= head * d) by (nonlinear_arith)
            requires
                k <= head,
                d > 0,
        ;
        assert((head + 1) * d == head * d + d) by (nonlinear_arith);
        if k < head {
            assert(k * d + d <= head * d) by (nonlinear_arith)
                requires
                    k + 1 <= head,
                    d > 0,
            ;
        }
    } else {
        assert(k * d >= head * d + d) by (nonlinear_arith)
            requires
                k >= head + 1,
                d > 0,
        ;
        assert((head + 1) * d == head * d + d) by (nonlinear_arith);
        if k > head + 1 {
            assert(k * d >= head * d + d + d) by (nonlinear_arith)
                requires
                    k >= head + 2,
                    d > 0,
            ;
        }
    }
}

} // verus!

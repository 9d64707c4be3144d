//! The floating-point value nearest to a ratio of two whole numbers.

use vstd::arithmetic::div_mod::lemma_fundamental_div_mod_converse;
use vstd::arithmetic::power2::{lemma2_to64, lemma_pow2_adds, lemma_pow2_pos, lemma_pow2_unfold, pow2};
use vstd::prelude::*;
use super::arithmetic::Decoded;
use super::bits::{lemma_pow2_128, lemma_pow2_below, wide_power_of_two};
use super::model::bit_length;
use super::product::unit_shift;
use super::quotient::{
    lemma_sticky_scaled_down, lemma_sticky_scaled_up, lemma_zero_ratio, with_sticky_digit,
};
use super::rounding::{
    encoding_of_units, lemma_bit_length_brackets, lemma_round_fraction_of_equal_ratios,
    lemma_round_fraction_of_whole, lemma_round_fraction_scaled, round_fraction,
    round_scaled_down, round_to_format, Format,
};

verus! {

/// The value of the format that is nearest to the ratio of `n` to `m`, the even one
/// of two that are equally near; infinity if that value is too great for the
/// format.
pub open spec fn nearest_to_ratio_of(n: nat, m: nat, format: Format) -> Decoded {
    let fields = encoding_of_units(
        round_fraction(n * pow2(unit_shift(format)), m, format.precision()),
        format,
    );
    Decoded { negative: false, exponent: fields.0 as u32, fraction: fields.1 as u64 }
}

/// A quotient and a remainder, after one more binary digit of the quotient was
/// worked out.
proof fn lemma_next_digit(x: int, m: int, q: int, rem: int)
    requires
        q * m + rem == x,
        0 <= rem < m,
    ensures
        2 * rem >= m ==> (2 * q + 1) * m + (2 * rem - m) == 2 * x,
        2 * rem < m ==> (2 * q) * m + 2 * rem == 2 * x,
{
    assert((2 * q + 1) * m == 2 * (q * m) + m) by (nonlinear_arith);
    assert((2 * q) * m == 2 * (q * m)) by (nonlinear_arith);
}

/// The value of the format that is nearest to the ratio of `n` to `m`, whose whole
/// part is below 2 to the power 64.
pub fn nearest_to_ratio(n: u128, m: u128, format: Format) -> (r: Decoded)
    requires
        format.well_formed(),
        0 < m < 0x8000_0000_0000_0000_0000_0000_0000_0000,
        n / m < 0x1_0000_0000_0000_0000,
    ensures
        r == nearest_to_ratio_of(n as nat, m as nat, format),
        r.valid(format),
{
    let ghost p = format.precision();
    let ghost shift = unit_shift(format);
    proof {
        lemma2_to64();
        lemma_pow2_128();
        lemma_pow2_pos(format.fraction_bits as nat);
        lemma_pow2_pos(shift);
        lemma_pow2_unfold(128);
    }
    if n == 0 {
        proof {
            assert(0 * pow2(shift) == 0) by (nonlinear_arith);
            lemma_zero_ratio(m as nat, p);
        }
        return Decoded { negative: false, exponent: 0, fraction: 0 };
    }
    let target = wide_power_of_two(format.fraction_bits + 2);
    let mut q: u128 = n / m;
    let mut rem: u128 = n % m;
    let mut j: u32 = 0;
    proof {
        vstd::arithmetic::div_mod::lemma_fundamental_div_mod(n as int, m as int);
        assert(q * m == m * q) by (nonlinear_arith);
        assert(n * pow2(0) == n) by (nonlinear_arith)
            requires
                pow2(0) == 1,
        ;
        lemma_pow2_below((format.fraction_bits + 2) as nat, 64);
    }
    while q < target
        invariant
            format.well_formed(),
            0 < m < 0x8000_0000_0000_0000_0000_0000_0000_0000,
            n > 0,
            target == pow2((format.fraction_bits + 2) as nat),
            2 * target <= 0x1_0000_0000_0000_0000,
            q * m + rem == n * pow2(j as nat),
            rem < m,
            q < 0x1_0000_0000_0000_0000,
            j <= 181,
        decreases 181 - j,
    {
        proof {
            let x = n as int * pow2(j as nat);
            lemma_pow2_pos(j as nat);
            if j >= 181 {
                if j > 181 {
                    lemma_pow2_below(181, j as nat);
                }
                lemma_pow2_adds(54, 127);
                lemma_pow2_128();
                lemma_pow2_unfold(128);
                if format.fraction_bits + 2 < 54 {
                    lemma_pow2_below((format.fraction_bits + 2) as nat, 54);
                }
                assert(x >= pow2(j as nat)) by (nonlinear_arith)
                    requires
                        x == n as int * pow2(j as nat),
                        n >= 1,
                        pow2(j as nat) > 0,
                ;
                assert(q * m + rem < pow2(54) * pow2(127)) by (nonlinear_arith)
                    requires
                        q < target,
                        target <= pow2(54),
                        rem < m,
                        m < pow2(127),
                ;
                assert(false);
            }
            lemma_next_digit(x, m as int, q as int, rem as int);
            lemma_pow2_unfold((j + 1) as nat);
            assert(2 * x == n * pow2((j + 1) as nat)) by (nonlinear_arith)
                requires
                    x == n as int * pow2(j as nat),
                    pow2((j + 1) as nat) == 2 * pow2(j as nat),
            ;
        }
        if rem * 2 >= m {
            q = 2 * q + 1;
            rem = rem * 2 - m;
        } else {
            q = 2 * q;
            rem = rem * 2;
        }
        j = j + 1;
    }
    let ghost x: nat = n as nat * pow2(j as nat);
    let w = if rem != 0 {
        2 * q + 1
    } else {
        2 * q
    };
    let up = format.exponent_limit / 2 + format.fraction_bits - 1;
    proof {
        assert(x == m * q + rem) by (nonlinear_arith)
            requires
                q * m + rem == x,
        ;
        lemma_fundamental_div_mod_converse(x as int, m as int, q as int, rem as int);
        assert(w == with_sticky_digit(x, m as nat));
        lemma_bit_length_brackets(q as nat);
        if bit_length(q as nat) < p + 2 {
            if bit_length(q as nat) < p + 1 {
                lemma_pow2_below(bit_length(q as nat), p + 1);
            }
            assert(false);
        }
        lemma_pow2_below(65, 118);
        lemma_pow2_unfold(65);
        lemma_pow2_below(118, 120);
    }
    let fields = if up > j {
        proof {
            let e = (up - j) as nat;
            lemma_pow2_adds(j as nat, e);
            lemma_pow2_pos(e);
            assert(n as nat * pow2(shift) == x * pow2(e)) by (nonlinear_arith)
                requires
                    x == n as nat * pow2(j as nat),
                    pow2(shift) == pow2(j as nat) * pow2(e),
            ;
            lemma_sticky_scaled_up(x, m as nat, e, p);
            lemma_pow2_unfold(e);
            assert(w as nat * pow2(e) == (w as nat * pow2((e - 1) as nat)) * 2) by (nonlinear_arith)
                requires
                    pow2(e) == 2 * pow2((e - 1) as nat),
            ;
            lemma_round_fraction_scaled(w as nat * pow2((e - 1) as nat), 1, 2, p);
            lemma_round_fraction_of_whole(w as nat * pow2((e - 1) as nat), p);
        }
        round_to_format(w, up - j - 1, format)
    } else {
        proof {
            let e = (j - up) as nat;
            lemma_pow2_adds(shift, e);
            lemma_pow2_pos(e);
            assert(m as nat * pow2(e) > 0) by (nonlinear_arith)
                requires
                    m > 0,
                    pow2(e) > 0,
            ;
            assert((n as nat * pow2(shift)) * (m as nat * pow2(e)) == x * (m as nat))
                by (nonlinear_arith)
                requires
                    x == n as nat * pow2(j as nat),
                    pow2(j as nat) == pow2(shift) * pow2(e),
            ;
            lemma_round_fraction_of_equal_ratios(
                n as nat * pow2(shift),
                m as nat,
                x,
                m as nat * pow2(e),
                p,
            );
            lemma_sticky_scaled_down(x, m as nat, e, p);
            lemma_pow2_unfold(e + 1);
        }
        round_scaled_down(w, j - up + 1, format)
    };
    Decoded { negative: false, exponent: fields.0, fraction: fields.1 }
}

} // verus!

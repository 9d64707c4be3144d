//! Numbers as decimal texts, and the search of one text in another.

use vstd::prelude::*;
use crate::num::traits::binary64::Binary64;
use crate::num::traits::conversion::{integer_of, to_integer};
use crate::num::traits::nearest::rounded_of;
use crate::num::traits::ratio::{nearest_to_ratio, nearest_to_ratio_of};
use crate::num::traits::{format_of, FloatingPoint};
use crate::utils::push_char;

verus! {

/// The character of a decimal digit.
pub open spec fn digit_char(digit: nat) -> char {
    if digit == 0 {
        '0'
    } else if digit == 1 {
        '1'
    } else if digit == 2 {
        '2'
    } else if digit == 3 {
        '3'
    } else if digit == 4 {
        '4'
    } else if digit == 5 {
        '5'
    } else if digit == 6 {
        '6'
    } else if digit == 7 {
        '7'
    } else if digit == 8 {
        '8'
    } else {
        '9'
    }
}

/// The decimal digits of a number, without leading zeros; `0` for zero.
pub open spec fn digits_of(n: nat) -> Seq<char>
    decreases n,
{
    if n < 10 {
        seq![digit_char(n)]
    } else {
        digits_of(n / 10).push(digit_char(n % 10))
    }
}

/// A number in decimal, with a minus sign in front if it is negative.
pub open spec fn decimal_text(n: int) -> Seq<char> {
    if n < 0 {
        seq!['-'].add(digits_of((-n) as nat))
    } else {
        digits_of(n as nat)
    }
}

/// Whether `needle` stands in `hay` from the place `at` on.
pub open spec fn occurs_at(hay: Seq<char>, needle: Seq<char>, at: int) -> bool {
    0 <= at && at + needle.len() <= hay.len() && hay.subrange(at, at + needle.len()) == needle
}

/// Whether `needle` stands somewhere in `hay`.
pub open spec fn occurs_in(hay: Seq<char>, needle: Seq<char>) -> bool {
    exists|at: int| occurs_at(hay, needle, at)
}

/// The first place at which `needle` stands in `hay`, which has it somewhere.
#[verifier::opaque]
pub open spec fn first_occurrence(hay: Seq<char>, needle: Seq<char>) -> int {
    choose|at: int|
        occurs_at(hay, needle, at) && forall|earlier: int|
            0 <= earlier < at ==> !occurs_at(hay, needle, earlier)
}

/// The character of a decimal digit.
fn digit(value: u8) -> (c: char)
    requires
        value < 10,
    ensures
        c == digit_char(value as nat),
{
    if value == 0 {
        '0'
    } else if value == 1 {
        '1'
    } else if value == 2 {
        '2'
    } else if value == 3 {
        '3'
    } else if value == 4 {
        '4'
    } else if value == 5 {
        '5'
    } else if value == 6 {
        '6'
    } else if value == 7 {
        '7'
    } else if value == 8 {
        '8'
    } else {
        '9'
    }
}

/// The decimal digits of a number.
pub fn digits(n: u128) -> (text: Vec<char>)
    ensures
        text@ == digits_of(n as nat),
    decreases n,
{
    if n < 10 {
        let mut text = Vec::new();
        text.push(digit(n as u8));
        text
    } else {
        let mut text = digits(n / 10);
        text.push(digit((n % 10) as u8));
        text
    }
}

/// A number in decimal.
pub fn decimal(n: i128) -> (text: Vec<char>)
    ensures
        text@ == decimal_text(n as int),
{
    if n < 0 {
        let magnitude: u128 = if n == i128::MIN {
            0x8000_0000_0000_0000_0000_0000_0000_0000
        } else {
            (-n) as u128
        };
        let mut text = Vec::new();
        text.push('-');
        let mut rest = digits(magnitude);
        text.append(&mut rest);
        text
    } else {
        digits(n as u128)
    }
}

/// Whether `needle` stands in `hay` from the place `at` on.
fn stands_at(hay: &Vec<char>, needle: &Vec<char>, at: usize) -> (b: bool)
    requires
        at + needle@.len() <= hay@.len(),
    ensures
        b == occurs_at(hay@, needle@, at as int),
{
    let mut i: usize = 0;
    let total = hay.len();
    while i < needle.len()
        invariant
            i <= needle@.len(),
            at + needle@.len() <= hay@.len(),
            hay@.len() == total,
            forall|j: int| 0 <= j < i ==> hay@[at + j] == needle@[j],
        decreases needle@.len() - i,
    {
        if hay[at + i] != needle[i] {
            proof {
                let part = hay@.subrange(at as int, at + needle@.len());
                assert(part[i as int] == hay@[at + i]);
            }
            return false;
        }
        i = i + 1;
    }
    proof {
        assert(hay@.subrange(at as int, at + needle@.len()) =~= needle@);
    }
    true
}

/// The first place at which `needle` stands in `hay`, if it stands there at all.
pub fn find(hay: &Vec<char>, needle: &Vec<char>) -> (r: Option<usize>)
    ensures
        r is Some == occurs_in(hay@, needle@),
        r matches Some(at) ==> at == first_occurrence(hay@, needle@) && occurs_at(
            hay@,
            needle@,
            at as int,
        ),
{
    if needle.len() > hay.len() {
        return None;
    }
    let last = hay.len() - needle.len();
    let mut at: usize = 0;
    loop
        invariant
            last + needle@.len() == hay@.len(),
            at <= last,
            forall|earlier: int| 0 <= earlier < at ==> !occurs_at(hay@, needle@, earlier),
        decreases last - at,
    {
        if stands_at(hay, needle, at) {
            proof {
                reveal(first_occurrence);
                let chosen = first_occurrence(hay@, needle@);
                assert(occurs_at(hay@, needle@, at as int));
                assert(chosen == at) by {
                    if chosen < at {
                        assert(!occurs_at(hay@, needle@, chosen));
                    } else if chosen > at {
                    }
                }
            }
            return Some(at);
        }
        if at == last {
            return None;
        }
        at = at + 1;
    }
}

/// The text that holds the given characters.
pub fn text_of(chars: &Vec<char>) -> (text: String)
    ensures
        text@ == chars@,
{
    let mut text = String::new();
    let mut i: usize = 0;
    while i < chars.len()
        invariant
            i <= chars@.len(),
            text@ == chars@.subrange(0, i as int),
        decreases chars@.len() - i,
    {
        push_char(&mut text, chars[i]);
        proof {
            assert(chars@.subrange(0, i + 1) =~= chars@.subrange(0, i as int).push(chars@[i as int]));
        }
        i = i + 1;
    }
    proof {
        assert(chars@.subrange(0, chars@.len() as int) =~= chars@);
    }
    text
}

/// Whether a character is a decimal digit.
pub open spec fn is_digit(c: char) -> bool {
    c == '0' || c == '1' || c == '2' || c == '3' || c == '4' || c == '5' || c == '6' || c == '7'
        || c == '8' || c == '9'
}

/// The number that a decimal digit stands for.
pub open spec fn digit_value(c: char) -> nat {
    if c == '1' {
        1
    } else if c == '2' {
        2
    } else if c == '3' {
        3
    } else if c == '4' {
        4
    } else if c == '5' {
        5
    } else if c == '6' {
        6
    } else if c == '7' {
        7
    } else if c == '8' {
        8
    } else if c == '9' {
        9
    } else {
        0
    }
}

/// The number that decimal digits stand for.
pub open spec fn number_of_digits(digits: Seq<char>) -> nat
    decreases digits.len(),
{
    if digits.len() == 0 {
        0
    } else {
        10 * number_of_digits(digits.drop_last()) + digit_value(digits.last())
    }
}

/// Ten to the power `k`.
pub open spec fn power_of_ten(k: nat) -> nat
    decreases k,
{
    if k == 0 {
        1
    } else {
        10 * power_of_ten((k - 1) as nat)
    }
}

/// The digits of `byte_count` that follow the digits of `bytes` where those stand
/// first in them.
pub open spec fn following_digits_of(bytes: int, byte_count: int) -> Seq<char> {
    let whole = decimal_text(bytes);
    let all = decimal_text(byte_count);
    all.skip(first_occurrence(all, whole) + whole.len())
}

/// What digits become that are read as a number with one digit before the decimal
/// point: the whole number nearest to the 64-bit floating-point value that is
/// nearest to that number. Without digits it is zero.
pub open spec fn rounded_fraction_of(digits: Seq<char>) -> int {
    if digits.len() == 0 {
        0
    } else {
        integer_of(
            rounded_of(
                nearest_to_ratio_of(
                    number_of_digits(digits),
                    power_of_ten((digits.len() - 1) as nat),
                    format_of::<Binary64>(),
                ),
                format_of::<Binary64>(),
            ),
            format_of::<Binary64>(),
            i128::MIN as int,
            i128::MAX as int,
        )
    }
}

/// The digits of a number are digits, at least one, and no more than `k` of them
/// if the number is below ten to the power `k`.
pub proof fn lemma_digits_of(n: nat, k: nat)
    requires
        k >= 1,
        n < power_of_ten(k),
    ensures
        1 <= digits_of(n).len() <= k,
        forall|i: int| 0 <= i < digits_of(n).len() ==> is_digit(#[trigger] digits_of(n)[i]),
    decreases n,
{
    if n >= 10 {
        assert(power_of_ten(1) == 10) by {
            reveal_with_fuel(power_of_ten, 2);
        }
        assert(k >= 2);
        lemma_digits_of(n / 10, (k - 1) as nat);
    }
}

/// The powers of ten up to the thirty-ninth, which is above every number of 127
/// bits.
pub proof fn lemma_powers_of_ten(k: nat)
    requires
        k <= 39,
    ensures
        1 <= power_of_ten(k) <= power_of_ten(39),
        power_of_ten(37) == 10_000_000_000_000_000_000_000_000_000_000_000_000,
        power_of_ten(38) == 100_000_000_000_000_000_000_000_000_000_000_000_000,
        power_of_ten(39) == 1_000_000_000_000_000_000_000_000_000_000_000_000_000int,
        k <= 38 ==> power_of_ten(k) <= power_of_ten(38),
        k <= 37 ==> power_of_ten(k) <= power_of_ten(37),
    decreases 39 - k,
{
    if k < 39 {
        lemma_powers_of_ten(k + 1);
    } else {
        lemma_power_of_ten_thirteen();
        lemma_power_of_ten_more(13, 13);
        lemma_power_of_ten_more(26, 11);
        lemma_power_of_ten_more(26, 12);
        lemma_power_of_ten_more(26, 13);
    }
}

/// Ten to the power thirteen, and the powers below.
proof fn lemma_power_of_ten_thirteen()
    ensures
        power_of_ten(11) == 100_000_000_000,
        power_of_ten(12) == 1_000_000_000_000,
        power_of_ten(13) == 10_000_000_000_000,
{
    reveal_with_fuel(power_of_ten, 14);
}

/// The power of a sum is the product of the powers.
proof fn lemma_power_of_ten_more(a: nat, b: nat)
    ensures
        power_of_ten(a + b) == power_of_ten(a) * power_of_ten(b),
    decreases b,
{
    if b == 0 {
        assert(power_of_ten(a) * 1 == power_of_ten(a)) by (nonlinear_arith);
    } else {
        lemma_power_of_ten_more(a, (b - 1) as nat);
        let x = power_of_ten(a);
        let y = power_of_ten((b - 1) as nat);
        assert(10 * (x * y) == x * (10 * y)) by (nonlinear_arith);
    }
}

/// A text that stands somewhere in another stands at its first occurrence, which
/// is no later.
pub proof fn lemma_first_occurrence(hay: Seq<char>, needle: Seq<char>, at: int)
    requires
        occurs_at(hay, needle, at),
    ensures
        occurs_at(hay, needle, first_occurrence(hay, needle)),
        first_occurrence(hay, needle) <= at,
    decreases at,
{
    reveal(first_occurrence);
    if exists|earlier: int| 0 <= earlier < at && occurs_at(hay, needle, earlier) {
        let earlier = choose|earlier: int| 0 <= earlier < at && occurs_at(hay, needle, earlier);
        lemma_first_occurrence(hay, needle, earlier);
    } else {
        assert(occurs_at(hay, needle, at) && forall|earlier: int|
            0 <= earlier < at ==> !occurs_at(hay, needle, earlier));
    }
}

/// The digits that follow a count in the digits of another are digits, and fewer
/// than 39.
pub proof fn lemma_following_digits(bytes: i128, byte_count: i128)
    requires
        occurs_in(decimal_text(byte_count as int), decimal_text(bytes as int)),
    ensures
        following_digits_of(bytes as int, byte_count as int).len() <= 38,
        forall|i: int|
            0 <= i < following_digits_of(bytes as int, byte_count as int).len() ==> is_digit(
                #[trigger] following_digits_of(bytes as int, byte_count as int)[i],
            ),
{
    let whole = decimal_text(bytes as int);
    let all = decimal_text(byte_count as int);
    let somewhere = choose|at: int| occurs_at(all, whole, at);
    lemma_first_occurrence(all, whole, somewhere);
    let at = first_occurrence(all, whole);
    lemma_powers_of_ten(39);
    let magnitude: nat = if byte_count < 0 {
        (-byte_count) as nat
    } else {
        byte_count as nat
    };
    let part: nat = if bytes < 0 {
        (-bytes) as nat
    } else {
        bytes as nat
    };
    lemma_digits_of(magnitude, 39);
    lemma_digits_of(part, 39);
    let rest = following_digits_of(bytes as int, byte_count as int);
    assert(whole.len() >= 1);
    if byte_count < 0 {
        assert(all[0] == '-');
        if at == 0 {
            assert(whole == all.subrange(0, whole.len() as int));
            assert(whole[0] == '-');
            assert(whole.len() >= 2);
        }
        assert forall|i: int| 0 <= i < rest.len() implies is_digit(#[trigger] rest[i]) by {
            assert(rest[i] == digits_of(magnitude)[at + whole.len() + i - 1]);
        }
    } else {
        assert forall|i: int| 0 <= i < rest.len() implies is_digit(#[trigger] rest[i]) by {
            assert(rest[i] == digits_of(magnitude)[at + whole.len() + i]);
        }
    }
}

/// The number that a decimal digit stands for.
fn value_of_digit(c: char) -> (value: u128)
    ensures
        value == digit_value(c),
        value <= 9,
{
    if c == '1' {
        1
    } else if c == '2' {
        2
    } else if c == '3' {
        3
    } else if c == '4' {
        4
    } else if c == '5' {
        5
    } else if c == '6' {
        6
    } else if c == '7' {
        7
    } else if c == '8' {
        8
    } else if c == '9' {
        9
    } else {
        0
    }
}

/// The digits of `byte_count` that follow the digits of `bytes`, which stand
/// somewhere in them.
pub fn following_digits(bytes: i128, byte_count: i128) -> (rest: Vec<char>)
    requires
        occurs_in(decimal_text(byte_count as int), decimal_text(bytes as int)),
    ensures
        rest@ == following_digits_of(bytes as int, byte_count as int),
{
    let whole = decimal(bytes);
    let all = decimal(byte_count);
    let found = find(&all, &whole);
    if found.is_none() {
        return Vec::new();
    }
    let at = found.unwrap();
    let total = all.len();
    assert(occurs_at(all@, whole@, at as int));
    let start = at + whole.len();
    let mut rest: Vec<char> = Vec::new();
    let mut index: usize = start;
    while index < all.len()
        invariant
            start <= index <= all@.len(),
            rest@ == all@.subrange(start as int, index as int),
        decreases all@.len() - index,
    {
        rest.push(all[index]);
        index = index + 1;
    }
    assert(rest@ =~= all@.skip(start as int));
    rest
}

/// What digits, fewer than 39, become that are read as a number with one digit
/// before the decimal point: the whole number nearest to the 64-bit floating-point
/// value that is nearest to that number.
pub fn rounded_fraction(digits: &Vec<char>) -> (rounded: i128)
    requires
        digits@.len() <= 38,
    ensures
        rounded == rounded_fraction_of(digits@),
{
    if digits.len() == 0 {
        return 0;
    }
    let mut number: u128 = 0;
    let mut scale: u128 = 1;
    let mut index: usize = 0;
    proof {
        lemma_powers_of_ten(0);
        assert(digits@.subrange(0, 0) =~= Seq::<char>::empty());
        reveal_with_fuel(power_of_ten, 2);
    }
    while index < digits.len()
        invariant
            1 <= digits@.len() <= 38,
            index <= digits@.len(),
            number == number_of_digits(digits@.subrange(0, index as int)),
            number < power_of_ten(index as nat),
            scale == power_of_ten(
                if index == 0 {
                    0nat
                } else {
                    (index - 1) as nat
                },
            ),
        decreases digits@.len() - index,
    {
        proof {
            lemma_powers_of_ten(index as nat);
            lemma_powers_of_ten((index + 1) as nat);
            if index > 0 {
                lemma_powers_of_ten((index - 1) as nat);
            }
            let before = digits@.subrange(0, index as int);
            let after = digits@.subrange(0, index + 1);
            assert(after.drop_last() =~= before);
            assert(after.last() == digits@[index as int]);
            reveal_with_fuel(power_of_ten, 2);
        }
        number = 10 * number + value_of_digit(digits[index]);
        if index > 0 {
            scale = 10 * scale;
        }
        index = index + 1;
    }
    proof {
        assert(digits@.subrange(0, digits@.len() as int) =~= digits@);
        let k = (digits@.len() - 1) as nat;
        lemma_powers_of_ten(k);
        reveal_with_fuel(power_of_ten, 2);
        assert(power_of_ten(digits@.len()) == 10 * power_of_ten(k));
        vstd::arithmetic::div_mod::lemma_fundamental_div_mod(number as int, scale as int);
        vstd::arithmetic::div_mod::lemma_mod_bound(number as int, scale as int);
        let q = (number as int) / (scale as int);
        assert(q < 10) by (nonlinear_arith)
            requires
                number < 10 * scale,
                number == scale * q + (number as int) % (scale as int),
                0 <= (number as int) % (scale as int),
                scale > 0,
        ;
    }
    let parsed = Binary64::encoded(nearest_to_ratio(number, scale, crate::num::traits::binary64::format()));
    to_integer(
        parsed.rounded().decoded(),
        crate::num::traits::binary64::format(),
        i128::MIN,
        i128::MAX,
    )
}

} // verus!

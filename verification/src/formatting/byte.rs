//! Formatting of counts of bytes.

use vstd::prelude::*;
use vstd::string::StringExecFns;
use super::scale::{
    every_place, lemma_nearest_of_all, nearest_place, nearest_unit, none_is_near, unit_value,
};
use super::text::{
    decimal, decimal_text, find, following_digits, following_digits_of, lemma_following_digits,
    occurs_in, rounded_fraction, rounded_fraction_of, text_of,
};
use crate::num::traits::model::truncated_quotient;

verus! {

/// The units in which a count of bytes can be written.
#[derive(Debug, Clone, Copy, PartialEq, Eq, PartialOrd, Ord, Hash, Structural)]
pub enum CountFormatterUnits {
    /// Bytes.
    UseBytes,
    /// Kilobytes: a thousand bytes.
    UseKB,
    /// Megabytes.
    UseMB,
    /// Gigabytes.
    UseGB,
    /// Terabytes.
    UseTB,
    /// Petabytes.
    UsePB,
    /// Exabytes.
    UseEB,
    /// Zettabytes.
    UseZB,
    /// Yottabytes, and whatever is larger.
    UseYBOrHigher,
    /// Any of the units.
    UseAll,
}

/// The name of a unit, as it is written behind a count.
pub open spec fn unit_name(unit: CountFormatterUnits) -> Seq<char> {
    match unit {
        CountFormatterUnits::UseBytes => "bytes"@,
        CountFormatterUnits::UseKB => "KB"@,
        CountFormatterUnits::UseMB => "MB"@,
        CountFormatterUnits::UseGB => "GB"@,
        CountFormatterUnits::UseTB => "TB"@,
        CountFormatterUnits::UsePB => "PB"@,
        CountFormatterUnits::UseEB => "EB"@,
        CountFormatterUnits::UseZB => "ZB"@,
        CountFormatterUnits::UseYBOrHigher => "YB"@,
        CountFormatterUnits::UseAll => "All"@,
    }
}

/// The unit at a place from 0, for bytes, to 8, for yottabytes.
pub open spec fn unit_at(place: u8) -> CountFormatterUnits {
    match place {
        0 => CountFormatterUnits::UseBytes,
        1 => CountFormatterUnits::UseKB,
        2 => CountFormatterUnits::UseMB,
        3 => CountFormatterUnits::UseGB,
        4 => CountFormatterUnits::UseTB,
        5 => CountFormatterUnits::UsePB,
        6 => CountFormatterUnits::UseEB,
        7 => CountFormatterUnits::UseZB,
        _ => CountFormatterUnits::UseYBOrHigher,
    }
}

/// The nine units, from bytes up.
pub open spec fn every_unit() -> Seq<CountFormatterUnits> {
    seq![CountFormatterUnits::UseBytes, CountFormatterUnits::UseKB, CountFormatterUnits::UseMB, CountFormatterUnits::UseGB, CountFormatterUnits::UseTB, CountFormatterUnits::UsePB, CountFormatterUnits::UseEB, CountFormatterUnits::UseZB, CountFormatterUnits::UseYBOrHigher]
}

/// The units among which a formatter with the given list chooses: all nine if the
/// list is empty or names `UseAll`, else those of the list.
pub open spec fn units_to_choose_from(units: Seq<CountFormatterUnits>) -> Seq<CountFormatterUnits> {
    if units.len() == 0 || units.contains(CountFormatterUnits::UseAll) {
        every_unit()
    } else {
        units
    }
}

/// The name of the unit in which a formatter with the given list writes `count`
/// bytes, and the count in that unit. The least unit that the list names is taken,
/// and `byte` is written for one byte; a list that names none of the nine units
/// takes the unit whose size is nearest to the count, and bytes if the greatest
/// count of all is nearer than any unit.
pub open spec fn unit_and_count_of(units: Seq<CountFormatterUnits>, count: int) -> (Seq<char>, int) {
    if units.contains(CountFormatterUnits::UseBytes) {
        (
            if count == 1 {
                "byte"@
            } else {
                "bytes"@
            },
            count,
        )
    } else if units.contains(CountFormatterUnits::UseKB) {
        ("KB"@, truncated_quotient(count, 1_000))
    } else if units.contains(CountFormatterUnits::UseMB) {
        ("MB"@, truncated_quotient(count, 1_000_000))
    } else if units.contains(CountFormatterUnits::UseGB) {
        ("GB"@, truncated_quotient(count, 1_000_000_000))
    } else if units.contains(CountFormatterUnits::UseTB) {
        ("TB"@, truncated_quotient(count, 1_000_000_000_000))
    } else if units.contains(CountFormatterUnits::UsePB) {
        ("PB"@, truncated_quotient(count, 1_000_000_000_000_000))
    } else if units.contains(CountFormatterUnits::UseEB) {
        ("EB"@, truncated_quotient(count, 1_000_000_000_000_000_000))
    } else if units.contains(CountFormatterUnits::UseZB) {
        ("ZB"@, truncated_quotient(count, 1_000_000_000_000_000_000_000))
    } else if units.contains(CountFormatterUnits::UseYBOrHigher) {
        ("YB"@, truncated_quotient(count, 1_000_000_000_000_000_000_000_000))
    } else if none_is_near(count) {
        ("bytes"@, count)
    } else {
        (
            unit_name(unit_at(nearest_place(count))),
            if count == 0 {
                0
            } else {
                truncated_quotient(count, unit_value(nearest_place(count)))
            },
        )
    }
}

/// Whether the formatter's list names one of the nine units.
pub open spec fn names_a_unit(units: Seq<CountFormatterUnits>) -> bool {
    exists|place: u8| place <= 8 && units.contains(#[trigger] unit_at(place))
}

/// Whether a text holds nothing but zeros.
pub open spec fn all_zeros(text: Seq<char>) -> bool {
    forall|i: int| 0 <= i < text.len() ==> text[i] == '0'
}

/// The count as it is written: the whole count alone if the rounded decimal is
/// zero, else the whole count, a point and the rounded decimal.
pub open spec fn count_text_of(bytes: int, rounded_decimal: int) -> Seq<char> {
    if all_zeros(decimal_text(rounded_decimal)) {
        decimal_text(bytes)
    } else {
        decimal_text(bytes) + "."@ + decimal_text(rounded_decimal)
    }
}

impl CountFormatterUnits {
    /// The name of the unit.
    pub fn to_string(&self) -> (name: String)
        ensures
            name@ == unit_name(*self),
    {
        match self {
            CountFormatterUnits::UseBytes => String::from_str("bytes"),
            CountFormatterUnits::UseKB => String::from_str("KB"),
            CountFormatterUnits::UseMB => String::from_str("MB"),
            CountFormatterUnits::UseGB => String::from_str("GB"),
            CountFormatterUnits::UseTB => String::from_str("TB"),
            CountFormatterUnits::UsePB => String::from_str("PB"),
            CountFormatterUnits::UseEB => String::from_str("EB"),
            CountFormatterUnits::UseZB => String::from_str("ZB"),
            CountFormatterUnits::UseYBOrHigher => String::from_str("YB"),
            CountFormatterUnits::UseAll => String::from_str("All"),
        }
    }
}

/// How a count of bytes is written: in which units, and which of its parts.
#[derive(Debug, Clone)]
pub struct CountFormatter {
    /// The units to choose from; none stands for all of them.
    pub allowed_units: Vec<CountFormatterUnits>,
    /// Whether the unit is written.
    pub includes_unit: bool,
    /// Whether the count is written.
    pub includes_count: bool,
    /// Whether the exact number of bytes is added in brackets.
    pub includes_actual_byte_count: bool,
}

impl CountFormatter {
    /// A formatter that writes count and unit, choosing among all units.
    pub fn new() -> (formatter: Self)
        ensures
            formatter.allowed_units@ == Seq::<CountFormatterUnits>::empty(),
            formatter.includes_unit,
            formatter.includes_count,
            !formatter.includes_actual_byte_count,
    {
        Self::default()
    }

    /// Whether the list of the formatter names the unit.
    pub fn allows(&self, unit: CountFormatterUnits) -> (b: bool)
        ensures
            b == self.allowed_units@.contains(unit),
    {
        let mut index: usize = 0;
        while index < self.allowed_units.len()
            invariant
                index <= self.allowed_units@.len(),
                forall|i: int| 0 <= i < index ==> self.allowed_units@[i] != unit,
            decreases self.allowed_units@.len() - index,
        {
            if self.allowed_units[index] == unit {
                return true;
            }
            index = index + 1;
        }
        false
    }

    /// Puts the units among which the formatter chooses behind those that
    /// `allowed_units` holds.
    pub fn get_allowed_units(&self, allowed_units: &mut Vec<CountFormatterUnits>)
        ensures
            final(allowed_units)@ == old(allowed_units)@ + units_to_choose_from(
                self.allowed_units@,
            ),
    {
        if self.allowed_units.len() == 0 || self.allows(CountFormatterUnits::UseAll) {
            allowed_units.push(CountFormatterUnits::UseBytes);
            allowed_units.push(CountFormatterUnits::UseKB);
            allowed_units.push(CountFormatterUnits::UseMB);
            allowed_units.push(CountFormatterUnits::UseGB);
            allowed_units.push(CountFormatterUnits::UseTB);
            allowed_units.push(CountFormatterUnits::UsePB);
            allowed_units.push(CountFormatterUnits::UseEB);
            allowed_units.push(CountFormatterUnits::UseZB);
            allowed_units.push(CountFormatterUnits::UseYBOrHigher);
            assert(allowed_units@ =~= old(allowed_units)@ + every_unit());
        } else {
            let mut index: usize = 0;
            while index < self.allowed_units.len()
                invariant
                    index <= self.allowed_units@.len(),
                    allowed_units@ == old(allowed_units)@ + self.allowed_units@.subrange(
                        0,
                        index as int,
                    ),
                decreases self.allowed_units@.len() - index,
            {
                allowed_units.push(self.allowed_units[index]);
                index = index + 1;
            }
            assert(self.allowed_units@.subrange(0, index as int) =~= self.allowed_units@);
        }
    }

    /// The name of the unit in which `byte_count` bytes are written, and the count
    /// in that unit. Where the list names none of the nine units, the count is not
    /// negative, and is zero or above 500: nearer to the kilobytes than to zero.
    pub fn unit_and_count(&self, byte_count: i128) -> (r: (String, i128))
        requires
            !names_a_unit(self.allowed_units@) ==> byte_count == 0 || byte_count > 500,
        ensures
            (r.0@, r.1 as int) == unit_and_count_of(self.allowed_units@, byte_count as int),
    {
        let mut allowed_units = Vec::new();
        self.get_allowed_units(&mut allowed_units);
        proof {
            assert(unit_at(0) == CountFormatterUnits::UseBytes);
            assert(unit_at(1) == CountFormatterUnits::UseKB);
            assert(unit_at(2) == CountFormatterUnits::UseMB);
            assert(unit_at(3) == CountFormatterUnits::UseGB);
            assert(unit_at(4) == CountFormatterUnits::UseTB);
            assert(unit_at(5) == CountFormatterUnits::UsePB);
            assert(unit_at(6) == CountFormatterUnits::UseEB);
            assert(unit_at(7) == CountFormatterUnits::UseZB);
            assert(unit_at(8) == CountFormatterUnits::UseYBOrHigher);
        }
        if self.allows(CountFormatterUnits::UseBytes) {
            if byte_count == 1 {
                (String::from_str("byte"), byte_count)
            } else {
                (String::from_str("bytes"), byte_count)
            }
        } else if self.allows(CountFormatterUnits::UseKB) {
            (String::from_str("KB"), byte_count / 1_000)
        } else if self.allows(CountFormatterUnits::UseMB) {
            (String::from_str("MB"), byte_count / 1_000_000)
        } else if self.allows(CountFormatterUnits::UseGB) {
            (String::from_str("GB"), byte_count / 1_000_000_000)
        } else if self.allows(CountFormatterUnits::UseTB) {
            (String::from_str("TB"), byte_count / 1_000_000_000_000)
        } else if self.allows(CountFormatterUnits::UsePB) {
            (String::from_str("PB"), byte_count / 1_000_000_000_000_000)
        } else if self.allows(CountFormatterUnits::UseEB) {
            (String::from_str("EB"), byte_count / 1_000_000_000_000_000_000)
        } else if self.allows(CountFormatterUnits::UseZB) {
            (String::from_str("ZB"), byte_count / 1_000_000_000_000_000_000_000)
        } else if self.allows(CountFormatterUnits::UseYBOrHigher) {
            (String::from_str("YB"), byte_count / 1_000_000_000_000_000_000_000_000)
        } else {
            proof {
                assert(!names_a_unit(self.allowed_units@)) by {
                    if names_a_unit(self.allowed_units@) {
                        let place = choose|place: u8|
                            place <= 8 && self.allowed_units@.contains(#[trigger] unit_at(place));
                        assert(place <= 8);
                    }
                }
                if self.allowed_units@.len() != 0 && !self.allowed_units@.contains(
                    CountFormatterUnits::UseAll,
                ) {
                    let first = self.allowed_units@[0];
                    assert(self.allowed_units@.contains(first));
                }
                assert(allowed_units@ =~= every_unit());
            }
            let mut places: Vec<u8> = Vec::new();
            let mut index: usize = 0;
            while index < allowed_units.len()
                invariant
                    index <= 9,
                    allowed_units@ == every_unit(),
                    places@.len() == index,
                    forall|i: int| 0 <= i < index ==> places@[i] == i,
                decreases 9 - index,
            {
                places.push(allowed_units[index].place());
                index = index + 1;
            }
            proof {
                assert(places@ =~= every_place());
                lemma_nearest_of_all(byte_count as int);
            }
            let (closest_value, closest) = nearest_unit(&places, byte_count);
            match closest {
                None => (String::from_str("bytes"), byte_count),
                Some(place) => {
                    let unit_str = Self::unit_at_place(place).to_string();
                    if byte_count != 0 {
                        (unit_str, byte_count / closest_value)
                    } else {
                        (unit_str, byte_count)
                    }
                },
            }
        }
    }

    /// The unit at a place from 0, for bytes, to 8, for yottabytes.
    fn unit_at_place(place: u8) -> (unit: CountFormatterUnits)
        ensures
            unit == unit_at(place),
    {
        match place {
            0 => CountFormatterUnits::UseBytes,
            1 => CountFormatterUnits::UseKB,
            2 => CountFormatterUnits::UseMB,
            3 => CountFormatterUnits::UseGB,
            4 => CountFormatterUnits::UseTB,
            5 => CountFormatterUnits::UsePB,
            6 => CountFormatterUnits::UseEB,
            7 => CountFormatterUnits::UseZB,
            _ => CountFormatterUnits::UseYBOrHigher,
        }
    }

    /// The count as it is written, if the formatter writes it: `bytes`, the count
    /// in the chosen unit, followed by a point and the decimal unless that is
    /// zero. The decimal is made of the digits that follow `bytes` in
    /// `byte_count`, where `bytes` stands somewhere: read with one digit before
    /// the decimal point, they are rounded to a whole number.
    pub fn format_count(&self, bytes: i128, byte_count: i128) -> (text: String)
        requires
            self.includes_count ==> occurs_in(
                decimal_text(byte_count as int),
                decimal_text(bytes as int),
            ),
        ensures
            text@ == if self.includes_count {
                count_text_of(
                    bytes as int,
                    rounded_fraction_of(following_digits_of(bytes as int, byte_count as int)),
                )
            } else {
                Seq::<char>::empty()
            },
    {
        if self.includes_count {
            let mut whole = decimal(bytes);
            let rest = following_digits(bytes, byte_count);
            proof {
                lemma_following_digits(bytes, byte_count);
            }
            let mut decimal_numbers = decimal(rounded_fraction(&rest));
            let mut zeros = true;
            let mut index: usize = 0;
            while index < decimal_numbers.len()
                invariant
                    index <= decimal_numbers@.len(),
                    zeros == forall|i: int| 0 <= i < index ==> decimal_numbers@[i] == '0',
                decreases decimal_numbers@.len() - index,
            {
                if decimal_numbers[index] != '0' {
                    zeros = false;
                }
                index = index + 1;
            }
            if zeros {
                text_of(&whole)
            } else {
                proof {
                    reveal_strlit(".");
                }
                whole.push('.');
                whole.append(&mut decimal_numbers);
                text_of(&whole)
            }
        } else {
            String::new()
        }
    }

    /// The count of bytes as the formatter writes it: the count in the chosen
    /// unit with its decimal, a space, the unit, and the exact count in brackets,
    /// each if the formatter writes it. Where the list names none of the nine
    /// units, the count is zero or above 500; and where the count is written, the
    /// count in the chosen unit stands somewhere in the digits of the count of
    /// bytes.
    pub fn string_from_byte_count(&self, byte_count: i128) -> (text: String)
        requires
            !names_a_unit(self.allowed_units@) ==> byte_count == 0 || byte_count > 500,
            self.includes_count ==> occurs_in(
                decimal_text(byte_count as int),
                decimal_text(unit_and_count_of(self.allowed_units@, byte_count as int).1),
            ),
        ensures
            text@ == (if self.includes_count {
                count_text_of(
                    unit_and_count_of(self.allowed_units@, byte_count as int).1,
                    rounded_fraction_of(
                        following_digits_of(
                            unit_and_count_of(self.allowed_units@, byte_count as int).1,
                            byte_count as int,
                        ),
                    ),
                )
            } else {
                Seq::<char>::empty()
            }) + (if self.includes_count && self.includes_unit {
                " "@
            } else {
                Seq::<char>::empty()
            }) + (if self.includes_unit {
                unit_and_count_of(self.allowed_units@, byte_count as int).0
            } else {
                Seq::<char>::empty()
            }) + (if self.includes_actual_byte_count {
                " ("@ + decimal_text(byte_count as int) + " bytes)"@
            } else {
                Seq::<char>::empty()
            }),
    {
        let (unit_str, bytes) = self.unit_and_count(byte_count);
        let mut text = self.format_count(bytes, byte_count);
        if self.includes_count && self.includes_unit {
            text.append(" ");
        }
        if self.includes_unit {
            text.append(unit_str.as_str());
        }
        if self.includes_actual_byte_count {
            text.append(" (");
            text.append(text_of(&decimal(byte_count)).as_str());
            text.append(" bytes)");
        }
        text
    }

    /// Whether the list of the formatter names one of the nine units.
    pub fn names_unit(&self) -> (b: bool)
        ensures
            b == names_a_unit(self.allowed_units@),
    {
        let mut index: usize = 0;
        while index < self.allowed_units.len()
            invariant
                index <= self.allowed_units@.len(),
                forall|i: int| 0 <= i < index ==> self.allowed_units@[i] == CountFormatterUnits::UseAll,
            decreases self.allowed_units@.len() - index,
        {
            let place = self.allowed_units[index].place();
            if place <= 8 {
                proof {
                    assert(self.allowed_units@.contains(unit_at(place)));
                }
                return true;
            }
            index = index + 1;
        }
        proof {
            if names_a_unit(self.allowed_units@) {
                let place = choose|place: u8|
                    place <= 8 && self.allowed_units@.contains(#[trigger] unit_at(place));
                let i = choose|i: int|
                    0 <= i < self.allowed_units@.len() && self.allowed_units@[i] == unit_at(place);
                assert(self.allowed_units@[i] == CountFormatterUnits::UseAll);
            }
        }
        false
    }

    /// Whether `string_from_byte_count` can write the count: whether the count is
    /// zero or above 500 where the list names none of the nine units, and the
    /// count in the chosen unit stands somewhere in the digits of the count of
    /// bytes where the count is written.
    pub fn can_write(&self, byte_count: i128) -> (b: bool)
        ensures
            b == ((!names_a_unit(self.allowed_units@) ==> byte_count == 0 || byte_count > 500) && (
            self.includes_count ==> occurs_in(
                decimal_text(byte_count as int),
                decimal_text(unit_and_count_of(self.allowed_units@, byte_count as int).1),
            ))),
    {
        if !self.names_unit() && byte_count != 0 && byte_count <= 500 {
            return false;
        }
        if !self.includes_count {
            return true;
        }
        let (_, bytes) = self.unit_and_count(byte_count);
        find(&decimal(byte_count), &decimal(bytes)).is_some()
    }
}

impl CountFormatterUnits {
    /// The place of the unit, from 0 for bytes to 9 for `UseAll`.
    pub fn place(&self) -> (place: u8)
        ensures
            place <= 9,
            place <= 8 ==> unit_at(place) == *self,
            place == 9 <==> *self == CountFormatterUnits::UseAll,
    {
        match self {
            CountFormatterUnits::UseBytes => 0,
            CountFormatterUnits::UseKB => 1,
            CountFormatterUnits::UseMB => 2,
            CountFormatterUnits::UseGB => 3,
            CountFormatterUnits::UseTB => 4,
            CountFormatterUnits::UsePB => 5,
            CountFormatterUnits::UseEB => 6,
            CountFormatterUnits::UseZB => 7,
            CountFormatterUnits::UseYBOrHigher => 8,
            CountFormatterUnits::UseAll => 9,
        }
    }
}

impl Default for CountFormatter {
    fn default() -> (formatter: Self)
        ensures
            formatter.allowed_units@ == Seq::<CountFormatterUnits>::empty(),
            formatter.includes_unit,
            formatter.includes_count,
            !formatter.includes_actual_byte_count,
    {
        CountFormatter {
            allowed_units: Vec::new(),
            includes_unit: true,
            includes_count: true,
            includes_actual_byte_count: false,
        }
    }
}

} // verus!

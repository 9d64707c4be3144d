//! Numeric abstractions, and numbers of any of the machine's kinds.

use vstd::prelude::*;

pub mod comparison;
pub mod traits;

use traits::arithmetic::Decoded;
use traits::binary32::Binary32;
use traits::binary64::Binary64;
use traits::conversion::{
    convert, converted_of, from_integer, integer_of, number_of_integer, to_integer,
};
use traits::model::wrapped;
use traits::rounding::Format;
use traits::{format_of, number_of, FloatingPoint, FloatingPointFormat};

verus! {

/// A number of one of the machine's kinds. The floating-point kinds are held as
/// their encodings.
#[derive(Debug, Clone, Copy)]
pub enum Number {
    /// A truth value: one for true, zero for false.
    Bool(bool),
    /// A signed integer of the machine's word.
    Int(isize),
    /// A signed integer of 8 bits.
    Int8(i8),
    /// A signed integer of 16 bits.
    Int16(i16),
    /// A signed integer of 32 bits.
    Int32(i32),
    /// An unsigned integer of the machine's word.
    UInt(usize),
    /// An unsigned integer of 8 bits.
    UInt8(u8),
    /// An unsigned integer of 16 bits.
    UInt16(u16),
    /// An unsigned integer of 32 bits.
    UInt32(u32),
    /// A floating-point number of 32 bits.
    Float(Binary32),
    /// A floating-point number of 64 bits.
    Double(Binary64),
}

/// What the readings of one text as a number of each kind gave, each reading
/// being there if the text is a number of that kind.
#[derive(Debug, Clone, Copy)]
pub struct Readings {
    /// The text read as a truth value.
    pub bool: Option<bool>,
    /// The text read as a signed integer of the machine's word.
    pub int: Option<isize>,
    /// The text read as a signed integer of 8 bits.
    pub int8: Option<i8>,
    /// The text read as a signed integer of 16 bits.
    pub int16: Option<i16>,
    /// The text read as a signed integer of 32 bits.
    pub int32: Option<i32>,
    /// The text read as an unsigned integer of the machine's word.
    pub uint: Option<usize>,
    /// The text read as an unsigned integer of 8 bits.
    pub uint8: Option<u8>,
    /// The text read as an unsigned integer of 16 bits.
    pub uint16: Option<u16>,
    /// The text read as an unsigned integer of 32 bits.
    pub uint32: Option<u32>,
    /// The text read as a floating-point number of 32 bits.
    pub float: Option<Binary32>,
    /// The text read as a floating-point number of 64 bits.
    pub double: Option<Binary64>,
}

/// The value of the wider format that a value of the narrower one stands for.
pub fn widened(x: Binary32) -> (r: Binary64)
    ensures
        number_of(r) == converted_of(number_of(x), format_of::<Binary32>(), format_of::<Binary64>()),
{
    Binary64::encoded(
        convert(x.decoded(), traits::binary32::format(), traits::binary64::format()),
    )
}

/// The value of the narrower format that is nearest to a value of the wider one.
pub fn narrowed(x: Binary64) -> (r: Binary32)
    ensures
        number_of(r) == converted_of(number_of(x), format_of::<Binary64>(), format_of::<Binary32>()),
{
    Binary32::encoded(
        convert(x.decoded(), traits::binary64::format(), traits::binary32::format()),
    )
}

/// `v` wrapped into the integers of 8 bits, signed or not.
fn wrap_to_8(v: i128, signed: bool) -> (r: i128)
    requires
        -0x8000_0000_0000_0000 <= v <= 0xffff_ffff_ffff_ffff,
    ensures
        signed ==> r == wrapped(v as int, -0x7f - 1, 0x7f),
        !signed ==> r == wrapped(v as int, 0, 0x100 - 1),
{
    let m = ((v % 0x100) + 0x100) % 0x100;
    if signed && m > 0x7f {
        m - 0x100
    } else {
        m
    }
}

/// `v` wrapped into the integers of 16 bits, signed or not.
fn wrap_to_16(v: i128, signed: bool) -> (r: i128)
    requires
        -0x8000_0000_0000_0000 <= v <= 0xffff_ffff_ffff_ffff,
    ensures
        signed ==> r == wrapped(v as int, -0x7fff - 1, 0x7fff),
        !signed ==> r == wrapped(v as int, 0, 0x1_0000 - 1),
{
    let m = ((v % 0x1_0000) + 0x1_0000) % 0x1_0000;
    if signed && m > 0x7fff {
        m - 0x1_0000
    } else {
        m
    }
}

/// `v` wrapped into the integers of 32 bits, signed or not.
fn wrap_to_32(v: i128, signed: bool) -> (r: i128)
    requires
        -0x8000_0000_0000_0000 <= v <= 0xffff_ffff_ffff_ffff,
    ensures
        signed ==> r == wrapped(v as int, -0x7fff_ffff - 1, 0x7fff_ffff),
        !signed ==> r == wrapped(v as int, 0, 0x1_0000_0000 - 1),
{
    let m = ((v % 0x1_0000_0000) + 0x1_0000_0000) % 0x1_0000_0000;
    if signed && m > 0x7fff_ffff {
        m - 0x1_0000_0000
    } else {
        m
    }
}

/// `v` wrapped into the integers of 64 bits, signed or not.
fn wrap_to_64(v: i128, signed: bool) -> (r: i128)
    requires
        -0x8000_0000_0000_0000 <= v <= 0xffff_ffff_ffff_ffff,
    ensures
        signed ==> r == wrapped(v as int, -0x7fff_ffff_ffff_ffff - 1, 0x7fff_ffff_ffff_ffff),
        !signed ==> r == wrapped(v as int, 0, 0x1_0000_0000_0000_0000 - 1),
{
    let m = ((v % 0x1_0000_0000_0000_0000) + 0x1_0000_0000_0000_0000) % 0x1_0000_0000_0000_0000;
    if signed && m > 0x7fff_ffff_ffff_ffff {
        m - 0x1_0000_0000_0000_0000
    } else {
        m
    }
}

/// `v` wrapped into the integers of the given number of bits, signed or not.
fn wrap_to(v: i128, bits: u32, signed: bool) -> (r: i128)
    requires
        bits == 8 || bits == 16 || bits == 32 || bits == 64,
        -0x8000_0000_0000_0000 <= v <= 0xffff_ffff_ffff_ffff,
    ensures
        bits == 8 && signed ==> r == wrapped(v as int, -0x80, 0x7f),
        bits == 8 && !signed ==> r == wrapped(v as int, 0, 0xff),
        bits == 16 && signed ==> r == wrapped(v as int, -0x8000, 0x7fff),
        bits == 16 && !signed ==> r == wrapped(v as int, 0, 0xffff),
        bits == 32 && signed ==> r == wrapped(v as int, -0x8000_0000, 0x7fff_ffff),
        bits == 32 && !signed ==> r == wrapped(v as int, 0, 0xffff_ffff),
        bits == 64 && signed ==> r == wrapped(
            v as int,
            -0x8000_0000_0000_0000,
            0x7fff_ffff_ffff_ffff,
        ),
        bits == 64 && !signed ==> r == wrapped(v as int, 0, 0xffff_ffff_ffff_ffff),
{
    if bits == 8 {
        wrap_to_8(v, signed)
    } else if bits == 16 {
        wrap_to_16(v, signed)
    } else if bits == 32 {
        wrap_to_32(v, signed)
    } else {
        wrap_to_64(v, signed)
    }
}

impl Number {
    /// The number that a text stands for, from its readings: the first reading
    /// that is there, in the order of the kinds, and nothing if none is.
    pub open spec fn read_from(readings: Readings) -> Option<Number> {
        if let Some(value) = readings.bool {
            Some(Number::Bool(value))
        } else if let Some(value) = readings.int {
            Some(Number::Int(value))
        } else if let Some(value) = readings.int8 {
            Some(Number::Int8(value))
        } else if let Some(value) = readings.int16 {
            Some(Number::Int16(value))
        } else if let Some(value) = readings.int32 {
            Some(Number::Int32(value))
        } else if let Some(value) = readings.uint {
            Some(Number::UInt(value))
        } else if let Some(value) = readings.uint8 {
            Some(Number::UInt8(value))
        } else if let Some(value) = readings.uint16 {
            Some(Number::UInt16(value))
        } else if let Some(value) = readings.uint32 {
            Some(Number::UInt32(value))
        } else if let Some(value) = readings.float {
            Some(Number::Float(value))
        } else if let Some(value) = readings.double {
            Some(Number::Double(value))
        } else {
            None
        }
    }

    /// The number that a text stands for, from its readings.
    pub fn from_readings(readings: &Readings) -> (number: Option<Number>)
        ensures
            number == Number::read_from(*readings),
    {
        if let Some(value) = readings.bool {
            Some(Number::Bool(value))
        } else if let Some(value) = readings.int {
            Some(Number::Int(value))
        } else if let Some(value) = readings.int8 {
            Some(Number::Int8(value))
        } else if let Some(value) = readings.int16 {
            Some(Number::Int16(value))
        } else if let Some(value) = readings.int32 {
            Some(Number::Int32(value))
        } else if let Some(value) = readings.uint {
            Some(Number::UInt(value))
        } else if let Some(value) = readings.uint8 {
            Some(Number::UInt8(value))
        } else if let Some(value) = readings.uint16 {
            Some(Number::UInt16(value))
        } else if let Some(value) = readings.uint32 {
            Some(Number::UInt32(value))
        } else if let Some(value) = readings.float {
            Some(Number::Float(value))
        } else if let Some(value) = readings.double {
            Some(Number::Double(value))
        } else {
            None
        }
    }

    /// The integer that a number of a kind that is not floating-point stands for.
    pub open spec fn whole(self) -> int {
        match self {
            Number::Bool(value) => if value {
                1
            } else {
                0
            },
            Number::Int(value) => value as int,
            Number::Int8(value) => value as int,
            Number::Int16(value) => value as int,
            Number::Int32(value) => value as int,
            Number::UInt(value) => value as int,
            Number::UInt8(value) => value as int,
            Number::UInt16(value) => value as int,
            Number::UInt32(value) => value as int,
            Number::Float(_) => 0,
            Number::Double(_) => 0,
        }
    }

    /// The integer from `min` to `max` that the number becomes: an integer is
    /// wrapped into the range, and a floating-point number loses its fraction and
    /// is held to the range, a NaN becoming zero.
    pub open spec fn as_integer(self, min: int, max: int) -> int {
        match self {
            Number::Float(value) => integer_of(number_of(value), format_of::<Binary32>(), min, max),
            Number::Double(value) => integer_of(
                number_of(value),
                format_of::<Binary64>(),
                min,
                max,
            ),
            _ => wrapped(self.whole(), min, max),
        }
    }

    /// The fields of the floating-point number of the given format that the
    /// number becomes: the value nearest to an integer, and the value nearest to
    /// a floating-point number of the other format.
    pub open spec fn as_floating(self, format: Format) -> Decoded {
        match self {
            Number::Float(value) => converted_of(number_of(value), format_of::<Binary32>(), format),
            Number::Double(value) => converted_of(
                number_of(value),
                format_of::<Binary64>(),
                format,
            ),
            _ => number_of_integer(self.whole(), format),
        }
    }

    /// The integer of the given number of bits, signed or not, that the number
    /// becomes.
    fn integer(&self, bits: u32, signed: bool) -> (r: i128)
        requires
            bits == 8 || bits == 16 || bits == 32 || bits == 64,
        ensures
            bits == 8 && signed ==> r == self.as_integer(-0x80, 0x7f),
            bits == 8 && !signed ==> r == self.as_integer(0, 0xff),
            bits == 16 && signed ==> r == self.as_integer(-0x8000, 0x7fff),
            bits == 16 && !signed ==> r == self.as_integer(0, 0xffff),
            bits == 32 && signed ==> r == self.as_integer(-0x8000_0000, 0x7fff_ffff),
            bits == 32 && !signed ==> r == self.as_integer(0, 0xffff_ffff),
            bits == 64 && signed ==> r == self.as_integer(
                -0x8000_0000_0000_0000,
                0x7fff_ffff_ffff_ffff,
            ),
            bits == 64 && !signed ==> r == self.as_integer(0, 0xffff_ffff_ffff_ffff),
    {
        let max: i128 = if bits == 8 {
            if signed {
                0x7f
            } else {
                0xff
            }
        } else if bits == 16 {
            if signed {
                0x7fff
            } else {
                0xffff
            }
        } else if bits == 32 {
            if signed {
                0x7fff_ffff
            } else {
                0xffff_ffff
            }
        } else {
            if signed {
                0x7fff_ffff_ffff_ffff
            } else {
                0xffff_ffff_ffff_ffff
            }
        };
        let min: i128 = if signed {
            -max - 1
        } else {
            0
        };
        match self {
            Number::Bool(value) => wrap_to(
                if *value {
                    1
                } else {
                    0
                },
                bits,
                signed,
            ),
            Number::Int(value) => wrap_to(*value as i128, bits, signed),
            Number::Int8(value) => wrap_to(*value as i128, bits, signed),
            Number::Int16(value) => wrap_to(*value as i128, bits, signed),
            Number::Int32(value) => wrap_to(*value as i128, bits, signed),
            Number::UInt(value) => wrap_to(*value as i128, bits, signed),
            Number::UInt8(value) => wrap_to(*value as i128, bits, signed),
            Number::UInt16(value) => wrap_to(*value as i128, bits, signed),
            Number::UInt32(value) => wrap_to(*value as i128, bits, signed),
            Number::Float(value) => to_integer(
                value.decoded(),
                traits::binary32::format(),
                min,
                max,
            ),
            Number::Double(value) => to_integer(
                value.decoded(),
                traits::binary64::format(),
                min,
                max,
            ),
        }
    }

    /// The integer that a number of a kind that is not floating-point stands for,
    /// and zero for the others.
    pub(crate) fn whole_value(&self) -> (r: i128)
        ensures
            r == self.whole(),
    {
        match self {
            Number::Bool(value) => if *value {
                1
            } else {
                0
            },
            Number::Int(value) => *value as i128,
            Number::Int8(value) => *value as i128,
            Number::Int16(value) => *value as i128,
            Number::Int32(value) => *value as i128,
            Number::UInt(value) => *value as i128,
            Number::UInt8(value) => *value as i128,
            Number::UInt16(value) => *value as i128,
            Number::UInt32(value) => *value as i128,
            Number::Float(_) => 0,
            Number::Double(_) => 0,
        }
    }

    /// Whether the number is not zero: a NaN is not.
    pub fn bool(&self) -> (b: bool)
        ensures
            b == match *self {
                Number::Bool(value) => value,
                Number::Float(value) => !(value.exponent_field() == 0 && value.fraction_field()
                    == 0),
                Number::Double(value) => !(value.exponent_field() == 0 && value.fraction_field()
                    == 0),
                _ => self.whole() != 0,
            },
    {
        match self {
            Number::Bool(value) => *value,
            Number::Float(value) => !value.is_zero(),
            Number::Double(value) => !value.is_zero(),
            _ => self.whole_value() != 0,
        }
    }

    /// The number as a signed integer of the machine's word.
    pub fn to_int(&self) -> (r: isize)
        ensures
            r == self.as_integer(isize::MIN as int, isize::MAX as int),
    {
        if usize::MAX as u128 >= 0xffff_ffff_ffff_ffff {
            self.integer(64, true) as isize
        } else {
            self.integer(32, true) as isize
        }
    }

    /// The number as a signed integer of 8 bits.
    pub fn int8(&self) -> (r: i8)
        ensures
            r == self.as_integer(i8::MIN as int, i8::MAX as int),
    {
        self.integer(8, true) as i8
    }

    /// The number as a signed integer of 16 bits.
    pub fn int16(&self) -> (r: i16)
        ensures
            r == self.as_integer(i16::MIN as int, i16::MAX as int),
    {
        self.integer(16, true) as i16
    }

    /// The number as a signed integer of 32 bits.
    pub fn int32(&self) -> (r: i32)
        ensures
            r == self.as_integer(i32::MIN as int, i32::MAX as int),
    {
        self.integer(32, true) as i32
    }

    /// The number as an unsigned integer of the machine's word.
    pub fn uint(&self) -> (r: usize)
        ensures
            r == self.as_integer(0, usize::MAX as int),
    {
        if usize::MAX as u128 >= 0xffff_ffff_ffff_ffff {
            self.integer(64, false) as usize
        } else {
            self.integer(32, false) as usize
        }
    }

    /// The number as an unsigned integer of 8 bits.
    pub fn uint8(&self) -> (r: u8)
        ensures
            r == self.as_integer(0, u8::MAX as int),
    {
        self.integer(8, false) as u8
    }

    /// The number as an unsigned integer of 16 bits.
    pub fn uint16(&self) -> (r: u16)
        ensures
            r == self.as_integer(0, u16::MAX as int),
    {
        self.integer(16, false) as u16
    }

    /// The number as an unsigned integer of 32 bits.
    pub fn uint32(&self) -> (r: u32)
        ensures
            r == self.as_integer(0, u32::MAX as int),
    {
        self.integer(32, false) as u32
    }

    /// The number as a floating-point number of 32 bits.
    pub fn float(&self) -> (r: Binary32)
        ensures
            self is Float ==> r == self->Float_0,
            !(self is Float) ==> number_of(r) == self.as_floating(format_of::<Binary32>()),
    {
        match self {
            Number::Float(value) => *value,
            Number::Double(value) => narrowed(*value),
            _ => Binary32::encoded(from_integer(self.whole_value(), traits::binary32::format())),
        }
    }

    /// The number as a floating-point number of 64 bits.
    pub fn double(&self) -> (r: Binary64)
        ensures
            self is Double ==> r == self->Double_0,
            !(self is Double) ==> number_of(r) == self.as_floating(format_of::<Binary64>()),
    {
        match self {
            Number::Float(value) => widened(*value),
            Number::Double(value) => *value,
            _ => Binary64::encoded(from_integer(self.whole_value(), traits::binary64::format())),
        }
    }
}

impl From<bool> for Number {
    fn from(value: bool) -> (r: Number) {
        Number::Bool(value)
    }
}

impl vstd::std_specs::convert::FromSpecImpl<bool> for Number {
    open spec fn obeys_from_spec() -> bool {
        true
    }

    open spec fn from_spec(value: bool) -> Number {
        Number::Bool(value)
    }
}

impl From<isize> for Number {
    fn from(value: isize) -> (r: Number) {
        Number::Int(value)
    }
}

impl vstd::std_specs::convert::FromSpecImpl<isize> for Number {
    open spec fn obeys_from_spec() -> bool {
        true
    }

    open spec fn from_spec(value: isize) -> Number {
        Number::Int(value)
    }
}

} // verus!

//! Equality and order of numbers of any kind.

use std::cmp::Ordering;
use vstd::prelude::*;
use vstd::std_specs::cmp::{PartialEqSpecImpl, PartialOrdSpecImpl};
use super::traits::{encodes_nan, order_key, FloatingPoint, FloatingPointFormat};
use super::Number;

verus! {

/// The place of a number's kind among the kinds.
pub open spec fn kind_of(n: Number) -> int {
    match n {
        Number::Bool(_) => 0,
        Number::Int(_) => 1,
        Number::Int8(_) => 2,
        Number::Int16(_) => 3,
        Number::Int32(_) => 4,
        Number::UInt(_) => 5,
        Number::UInt8(_) => 6,
        Number::UInt16(_) => 7,
        Number::UInt32(_) => 8,
        Number::Float(_) => 9,
        Number::Double(_) => 10,
    }
}

/// How the integer `a` stands to the integer `b`.
pub open spec fn order_of(a: int, b: int) -> Ordering {
    if a < b {
        Ordering::Less
    } else if a > b {
        Ordering::Greater
    } else {
        Ordering::Equal
    }
}

/// How a floating-point value stands to another as IEEE-754 compares: not at all
/// where one of them is a NaN, and a zero equal to the other zero.
pub open spec fn floating_order_of<F: FloatingPointFormat>(a: F, b: F) -> Option<Ordering> {
    if encodes_nan(a) || encodes_nan(b) {
        None
    } else {
        Some(order_of(order_key(a), order_key(b)))
    }
}

/// How a number stands to another: numbers of different kinds as their kinds
/// stand, numbers of one kind as their values stand.
pub open spec fn compared(a: Number, b: Number) -> Option<Ordering> {
    if kind_of(a) != kind_of(b) {
        Some(order_of(kind_of(a), kind_of(b)))
    } else {
        match (a, b) {
            (Number::Float(x), Number::Float(y)) => floating_order_of(x, y),
            (Number::Double(x), Number::Double(y)) => floating_order_of(x, y),
            _ => Some(order_of(a.whole(), b.whole())),
        }
    }
}

/// The place of a number's kind among the kinds.
fn kind(n: &Number) -> (k: i128)
    ensures
        k == kind_of(*n),
{
    match n {
        Number::Bool(_) => 0,
        Number::Int(_) => 1,
        Number::Int8(_) => 2,
        Number::Int16(_) => 3,
        Number::Int32(_) => 4,
        Number::UInt(_) => 5,
        Number::UInt8(_) => 6,
        Number::UInt16(_) => 7,
        Number::UInt32(_) => 8,
        Number::Float(_) => 9,
        Number::Double(_) => 10,
    }
}

/// How `a` stands to `b`.
fn order(a: i128, b: i128) -> (r: Ordering)
    ensures
        a < b ==> r == Ordering::Less,
        a > b ==> r == Ordering::Greater,
        a == b ==> r == Ordering::Equal,
{
    if a < b {
        Ordering::Less
    } else if a > b {
        Ordering::Greater
    } else {
        Ordering::Equal
    }
}

/// How `a` stands to `b` as IEEE-754 compares.
fn floating_order<F: FloatingPoint + Copy>(a: F, b: F) -> (r: Option<Ordering>)
    ensures
        r == floating_order_of(a, b),
{
    if a.is_nan() || b.is_nan() {
        None
    } else if a.is_less_than(b) {
        Some(Ordering::Less)
    } else if b.is_less_than(a) {
        Some(Ordering::Greater)
    } else {
        Some(Ordering::Equal)
    }
}

impl PartialOrd for Number {
    fn partial_cmp(&self, other: &Self) -> (r: Option<Ordering>) {
        let a = kind(self);
        let b = kind(other);
        if a != b {
            Some(order(a, b))
        } else {
            match (self, other) {
                (Number::Float(x), Number::Float(y)) => floating_order(*x, *y),
                (Number::Double(x), Number::Double(y)) => floating_order(*x, *y),
                _ => Some(order(self.whole_value(), other.whole_value())),
            }
        }
    }
}

impl PartialOrdSpecImpl for Number {
    open spec fn obeys_partial_cmp_spec() -> bool {
        true
    }

    open spec fn partial_cmp_spec(&self, other: &Self) -> Option<Ordering> {
        compared(*self, *other)
    }
}

impl PartialEq for Number {
    fn eq(&self, other: &Self) -> (b: bool) {
        match self.partial_cmp(other) {
            Some(Ordering::Equal) => true,
            _ => false,
        }
    }
}

impl PartialEqSpecImpl for Number {
    open spec fn obeys_eq_spec() -> bool {
        true
    }

    open spec fn eq_spec(&self, other: &Self) -> bool {
        compared(*self, *other) == Some(Ordering::Equal)
    }
}

} // verus!

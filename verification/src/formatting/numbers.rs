//! Formatting of numbers.

use vstd::prelude::*;

verus! {

/// The styles in which a number can be written.
#[derive(Debug, PartialEq, Eq, PartialOrd, Ord, Structural)]
pub enum NumberFormatterStyle {
    /// No style.
    NoStyle,
    /// A decimal number.
    Decimal,
    /// A percentage.
    Percent,
    /// Scientific notation.
    Scientific,
    /// The number in words.
    SpellOut,
    /// An ordinal.
    Ordinal,
    /// An amount of money.
    Currency,
    /// An amount of money as accountants write it.
    CurrencyAccounting,
    /// An amount of money with the ISO code of its currency.
    CurrencyISOCode,
    /// An amount of money with the name of its currency in the plural.
    CurrencyPlural,
}

impl Default for NumberFormatterStyle {
    fn default() -> (style: Self)
        ensures
            style == NumberFormatterStyle::NoStyle,
    {
        NumberFormatterStyle::NoStyle
    }
}

/// How a number is written and read.
#[derive(Debug, PartialEq, Eq, PartialOrd, Ord)]
pub struct NumberFormatter {
    /// The style.
    pub number_style: NumberFormatterStyle,
    /// Whether reading yields decimal numbers.
    pub generates_decimal_numbers: bool,
}

impl Default for NumberFormatter {
    fn default() -> (formatter: Self)
        ensures
            formatter.number_style == NumberFormatterStyle::NoStyle,
            !formatter.generates_decimal_numbers,
    {
        NumberFormatter { number_style: NumberFormatterStyle::NoStyle, generates_decimal_numbers: false }
    }
}

} // verus!

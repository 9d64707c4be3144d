//! Numeric capability traits for the primitive integers, the IEEE-754 binary
//! formats with their arithmetic and rounding, and a handful of small collections,
//! formatters and ciphers. Every function is verified against its contract.

pub mod ciphers;
pub mod collections;
pub mod formatting;
pub mod locale;
pub mod num;
pub mod utils;

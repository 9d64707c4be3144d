//! Ciphers.

pub mod morse_code;

//! Collections.

pub mod list;
pub mod stack;

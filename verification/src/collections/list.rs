//! Lists.

pub mod doubly_linked;

//! Stacks.

pub mod linked_list;

//! Holds vehicle records against a rulebook and reports every rule that a
//! record violates, category by category.
//!
//! `specs` is the record, `regulations` the rulebook and its checks;
//! `number` and `text` read and write the numerals and names that both
//! work on.

pub mod number;
pub mod regulations;
pub mod specs;
pub mod text;

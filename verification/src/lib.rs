//! Comparison of two indented tree listings, line by line.
//!
//! A listing line carries a nesting depth, a byte size and a path. Two lines
//! count as the same entry when path and depth agree and the sizes differ by
//! a whole number of block quanta.

pub mod record;
pub mod text;
pub mod parse;
pub mod display;
pub mod script;
pub mod diff;
pub mod outcome;
pub mod roundtrip;

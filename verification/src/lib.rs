//! Structural record matching.
//!
//! A `Record` is a value with a fixed, ordered set of named fields; a
//! `Pattern` is a structural template over such a record.  The matcher takes
//! a record and an ordered list of patterns and returns the first pattern
//! that matches, together with the bindings that pattern introduces.

pub mod basics;
pub mod laws;
pub mod matcher;
pub mod pattern;
pub mod value;

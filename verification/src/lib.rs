//! Incremental per-column profiling of delimited text.
//!
//! The library folds a stream of rows (each an ordered sequence of text
//! cells) into one [`field::Field`] per column position: the largest trimmed
//! cell width seen so far, a three-way tally of how each cell classified
//! (integer, floating-point numeral, or free text), and a one-way latch that
//! records whether the column ever held a non-empty value.

pub mod aggregate;
pub mod classify;
pub mod field;
pub mod laws;
pub mod text;

//! What can be wrong with an expression.
use vstd::prelude::*;

verus! {

/// What is wrong with one field of an expression.
#[derive(Debug, Copy, Clone, PartialEq, Eq, Structural)]
pub enum InvalidExpr {
    /// A wildcard stands beside other entries.
    InvalidWildCard,
    /// The step is zero.
    InvalidStepRange,
    /// The step is not a number.
    InvalidStepValue,
    /// An entry lies outside the field's bounds.
    InvalidEntryRange,
    /// An entry is neither a number nor a name of the field.
    InvalidEntryValue,
    /// A bound of a range is not a value of the field.
    InvalidRange,
    /// A range runs from a greater value to a smaller one.
    InvalidRangeRev,
    /// More values than the field's domain holds. No input leads here.
    ParserOverflow,
}

/// Why an expression was rejected.
#[derive(Debug, Copy, Clone, PartialEq, Eq)]
pub enum ParseError {
    /// An unexpected byte, and its position in the input.
    InvalidCharAt(u8, usize),
    /// A field that does not follow the grammar: the field's name, and what
    /// is wrong with it.
    InvalidExpr(&'static str, InvalidExpr),
    /// Fewer than five fields.
    Incomplete,
    /// More than five fields.
    Unsupported,
}

} // verus!

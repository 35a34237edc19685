//! What can go wrong between the input text and the generated code.

use vstd::prelude::*;

verus! {

/// Why no table, or no output, could be made from an input.
#[derive(Debug, PartialEq, Eq)]
pub enum DeriveError {
    /// A constant's value token is not a numeric literal; the token is kept.
    MalformedLiteral(String),
    /// A constant without a value follows one with the largest `i32` value, so
    /// it has none; the constant's name is kept.
    ValueOverflow(String),
    /// The input holds no constant at all.
    EmptyTable,
}

} // verus!

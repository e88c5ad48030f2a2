//! Structured diagnostics.
//!
//! The scanner and the parser report failures as values of `Diag`; the
//! surrounding driver decides how to display them.

use vstd::prelude::*;
use crate::scanning::TokenType;

verus! {

/// One diagnostic, with the source position where the stage that failed
/// was standing.
#[derive(Debug, PartialEq)]
pub enum Diag {
    /// The scanner needed one particular character and found another.
    ExpectedChar { expected: char, found: char, line: u32, column: u32 },
    /// The scanner met a character that starts no token.
    UnexpectedChar { found: char, line: u32, column: u32 },
    /// The scanner needed one more character and the input ended.
    UnexpectedEndOfInput { line: u32, column: u32 },
    /// The parser met a token that fits no rule at this point.
    UnexpectedToken { token_type: TokenType, line: u32, column: u32 },
    /// The parser needed one more token and the input ended.
    UnexpectedEndOfTokens,
    /// An assignment operator with nothing after it.
    MissingAssignmentRhs { name: String },
    /// A numeric literal whose digits could not be interpreted in its radix.
    BadNumber { prefix: String, digits: String },
}

} // verus!

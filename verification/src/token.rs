//! The token and error data model consumed by the lexer and, further
//! downstream, by a parser.

use vstd::prelude::*;

verus! {

/// One lexical unit of an arithmetic expression.
///
/// Tokens are immutable values with structural equality: two
/// `INTEGER(5)` tokens are equal, and `EOF` equals `EOF`.
#[derive(Debug, Clone, Copy, PartialEq, Eq, Structural)]
#[allow(non_camel_case_types)]
pub enum Token {
    /// A decimal integer literal, built from one or more consecutive
    /// digit characters. The lexer never consumes a sign: `-5` lexes as
    /// `MINUS` followed by `INTEGER(5)`.
    INTEGER(i32),
    /// `+`
    PLUS,
    /// `-`
    MINUS,
    /// `*`
    MUL,
    /// `/`
    DIV,
    /// `^`
    POW,
    /// `(`
    LPAREN,
    /// `)`
    RPAREN,
    /// End of input. Terminal: once emitted, every further request
    /// yields `EOF` again.
    EOF,
}

/// A failure of a single token request.
///
/// Both conditions are fatal to the current scan: the lexer does not
/// resynchronize or skip the offending input.
#[derive(Debug, Clone, Copy, PartialEq, Eq, Structural)]
pub enum LexError {
    /// A character that is not whitespace, not a decimal digit, and not
    /// one of the seven recognized symbols.
    InvalidCharacter,
    /// A digit run whose value does not fit the token's integer width.
    NumericOverflow,
}

} // verus!

use vstd::prelude::*;

use crate::tokens::TokenType;

verus! {

/// Why a parse failed. Every failure ends the whole parse.
#[derive(PartialEq, Clone, Debug)]
pub enum ParseError {
    /// A token of kind `expected` was needed but the input had ended.
    UnexpectedEndOfInput { expected: TokenType },
    /// A token of kind `expected` was needed but another one came.
    /// `position` is the scanner's cursor, just past the offending token.
    UnexpectedToken { expected: TokenType, found: TokenType, found_text: String, position: usize },
    /// No selector (or attribute matcher) starts with a token of this kind.
    UnexpectedSelectorToken { found: TokenType },
    /// No lexical pattern matches the input at this character offset.
    UnrecognizedInput { position: usize },
}

/// The mathematical model of a [`ParseError`].
pub enum ParseErrorV {
    UnexpectedEndOfInput { expected: TokenType },
    UnexpectedToken { expected: TokenType, found: TokenType, found_text: Seq<char>, position: int },
    UnexpectedSelectorToken { found: TokenType },
    UnrecognizedInput { position: int },
}

impl View for ParseError {
    type V = ParseErrorV;

    open spec fn view(&self) -> ParseErrorV {
        match self {
            ParseError::UnexpectedEndOfInput { expected } => ParseErrorV::UnexpectedEndOfInput {
                expected: *expected,
            },
            ParseError::UnexpectedToken { expected, found, found_text, position } =>
                ParseErrorV::UnexpectedToken {
                expected: *expected,
                found: *found,
                found_text: found_text@,
                position: *position as int,
            },
            ParseError::UnexpectedSelectorToken { found } => ParseErrorV::UnexpectedSelectorToken {
                found: *found,
            },
            ParseError::UnrecognizedInput { position } => ParseErrorV::UnrecognizedInput {
                position: *position as int,
            },
        }
    }
}

} // verus!

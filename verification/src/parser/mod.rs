//! Parsers over token streams.
pub mod executable;

pub use executable::ExecutableDocumentParser;

use vstd::prelude::*;

use crate::lexer::LexicalError;

verus! {

/// Why a token stream does not parse.
#[derive(Debug, PartialEq, Eq)]
pub enum ParseError<L, T, E> {
    /// The lexer met text that no token matches.
    InvalidToken { location: L },
    /// The input ended where one of the `expected` terminals should follow.
    UnrecognizedEof { location: L, expected: Vec<String> },
    /// A token came where one of the `expected` terminals should stand.
    UnrecognizedToken { token: (L, T, L), expected: Vec<String> },
    /// A token came after a complete parse.
    ExtraToken { token: (L, T, L) },
    /// An error of the lexer or of a semantic action.
    User { error: E },
}

/// Errors that the parsers report beyond those of the grammar.
#[derive(Debug, Clone, PartialEq, Eq)]
pub enum AdditionalErrors {
    Lexical(LexicalError),
    MalformedDirectiveLocation(usize, String, usize),
    VariableInConstPosition(usize, String, usize),
}

} // verus!

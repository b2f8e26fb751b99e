//! The errors that parsing reports.
use vstd::prelude::*;

use crate::lexer::tokens::{kind_of, token_message};
use crate::lexer::{LexicalError, Token};
use crate::parser::{AdditionalErrors, ParseError};

verus! {

#[derive(Debug, PartialEq, Eq)]
pub enum Error {
    /// The lexer met text that no token matches.
    InvalidToken { location: usize },
    /// The input ended where one of the `expected` terminals should follow.
    UnrecognizedEof { location: usize, expected: Vec<String> },
    /// A token, described in words, came where one of the `expected` terminals should stand.
    UnrecognizedToken { token: (usize, String, usize), expected: Vec<String> },
    /// A token, described in words, came after a complete parse.
    ExtraToken { token: (usize, String, usize) },
    /// The lexer failed.
    Lexical(LexicalError),
    /// A directive location that is not one.
    MalformedDirectiveLocation(usize, String, usize),
    /// A schema coordinate that holds nothing.
    EmptySchemaCoordinate,
}

/// How an error of the parser is reported: tokens are described in words.
pub open spec fn converted(error: ParseError<usize, Token, LexicalError>, reported: Error) -> bool {
    match error {
        ParseError::InvalidToken { location } => reported == Error::InvalidToken { location },
        ParseError::UnrecognizedEof { location, expected } => reported == Error::UnrecognizedEof {
            location,
            expected,
        },
        ParseError::UnrecognizedToken { token, expected } => {
            &&& reported matches Error::UnrecognizedToken { token: (l, message, r), expected: e }
            &&& l == token.0 && r == token.2 && e == expected
            &&& message@ == token_message(kind_of(token.1))
        },
        ParseError::ExtraToken { token } => {
            &&& reported matches Error::ExtraToken { token: (l, message, r) }
            &&& l == token.0 && r == token.2
            &&& message@ == token_message(kind_of(token.1))
        },
        ParseError::User { error } => reported == Error::Lexical(error),
    }
}

/// How an error beyond the grammar's is reported: a lexical error as
/// itself; a variable in a constant position, like a malformed directive
/// location, with its span and its text.
pub open spec fn additional_reported(error: AdditionalErrors, reported: Error) -> bool {
    match error {
        AdditionalErrors::Lexical(e) => reported == Error::Lexical(e),
        AdditionalErrors::MalformedDirectiveLocation(l, text, r)
        | AdditionalErrors::VariableInConstPosition(l, text, r) => {
            &&& reported matches Error::MalformedDirectiveLocation(l2, text2, r2)
            &&& l2 == l && r2 == r && text2@ == text@
        },
    }
}

impl Error {
    /// The report of an error beyond the grammar's; see [`additional_reported`].
    pub fn from_additional(error: &AdditionalErrors) -> (reported: Error)
        ensures
            additional_reported(*error, reported),
    {
        match error {
            AdditionalErrors::Lexical(e) => Error::Lexical(*e),
            AdditionalErrors::MalformedDirectiveLocation(l, text, r) => {
                Error::MalformedDirectiveLocation(*l, text.clone(), *r)
            },
            AdditionalErrors::VariableInConstPosition(l, text, r) => {
                Error::MalformedDirectiveLocation(*l, text.clone(), *r)
            },
        }
    }

    /// The report of an error of the parser.
    pub fn from_parse_error(error: ParseError<usize, Token, LexicalError>) -> (reported: Error)
        ensures
            converted(error, reported),
    {
        match error {
            ParseError::InvalidToken { location } => Error::InvalidToken { location },
            ParseError::UnrecognizedEof { location, expected } => Error::UnrecognizedEof {
                location,
                expected,
            },
            ParseError::UnrecognizedToken { token: (lspan, token, rspan), expected } => {
                Error::UnrecognizedToken { token: (lspan, token.to_string(), rspan), expected }
            },
            ParseError::ExtraToken { token: (lspan, token, rspan) } => Error::ExtraToken {
                token: (lspan, token.to_string(), rspan),
            },
            ParseError::User { error } => Error::Lexical(error),
        }
    }
}

} // verus!

//! The kinds of the nodes and tokens of the concrete syntax tree.
pub mod grammar;
pub mod lexer;
pub mod parser;

use vstd::prelude::*;

use lexer::Token;

verus! {

#[allow(non_camel_case_types, clippy::upper_case_acronyms)]
#[derive(Debug, Clone, Copy, PartialEq, Eq, Hash, Structural)]
pub enum SyntaxKind {
    COMMA,
    HASH,
    BANG,
    DOLLAR,
    OPEN_PAREN,
    CLOSE_PAREN,
    SPREAD,
    COLON,
    EQUALS,
    AT,
    OPEN_SQUARE,
    CLOSE_SQUARE,
    OPEN_CURLY,
    PIPE,
    CLOSE_CURLY,
    NAME,
    NEGATIVE_SIGN,
    NUMBER,
    EXPONENT_PART,
    FRACTIONAL_PART,
    QUOTE,
    BLOCK_QUOTE,
    WHITESPACE,
    ESCAPED_CHARACTER,
    ESCAPED_UNICODE,
    LINE_TERMINATOR,
    ON,
    OTHER,
    NULL,
    TRUE,
    FALSE,
    QUERY_KEYWORD,
    MUTATION_KEYWORD,
    SUBSCRIPTION_KEYWORD,
    FRAGMENT_KEYWORD,
    OPERATION_DEF,
    FRAGMENT_DEF,
    VARIABLE_DEFS,
    VARIABLE_DEF,
    VARIABLE,
    NAMED_TYPE,
    TYPE,
    SELECTION_SET,
    SELECTION,
    FIELD_SELECTION,
    ALIAS,
    ARGUMENTS,
    ARGUMENT,
    DEFAULT_VALUE,
    TYPE_CONDITION,
    FRAGMENT_SPREAD,
    FRAGMENT_NAME,
    INLINE_FRAGMENT,
    COMMENT,
    COMMENT_CONTENTS,
    DIRECTIVES,
    DIRECTIVE,
    ERROR,
    VALUE,
    INTEGER_VALUE,
    INTEGER_PART,
    BOOL_VALUE,
    FLOAT_VALUE,
    ENUM_VALUE,
    LIST_VALUE,
    OBJECT_VALUE,
    OBJECT_FIELD,
    STRING_VALUE,
    STRING_CONTENTS,
    ROOT,
}

/// The syntax kind of a token of the concrete syntax tree.
pub open spec fn token_syntax_kind(token: Token) -> SyntaxKind {
    match token {
        Token::Comma => SyntaxKind::COMMA,
        Token::Hash => SyntaxKind::HASH,
        Token::Bang => SyntaxKind::BANG,
        Token::Dollar => SyntaxKind::DOLLAR,
        Token::OpenParen => SyntaxKind::OPEN_PAREN,
        Token::CloseParen => SyntaxKind::CLOSE_PAREN,
        Token::Spread => SyntaxKind::SPREAD,
        Token::Colon => SyntaxKind::COLON,
        Token::Equals => SyntaxKind::EQUALS,
        Token::At => SyntaxKind::AT,
        Token::OpenSquare => SyntaxKind::OPEN_SQUARE,
        Token::CloseSquare => SyntaxKind::CLOSE_SQUARE,
        Token::OpenCurly => SyntaxKind::OPEN_CURLY,
        Token::Pipe => SyntaxKind::PIPE,
        Token::CloseCurly => SyntaxKind::CLOSE_CURLY,
        Token::Name => SyntaxKind::NAME,
        Token::NegativeSign => SyntaxKind::NEGATIVE_SIGN,
        Token::Number => SyntaxKind::NUMBER,
        Token::ExponentPart => SyntaxKind::EXPONENT_PART,
        Token::FractionalPart => SyntaxKind::FRACTIONAL_PART,
        Token::Quote => SyntaxKind::QUOTE,
        Token::BlockQuote => SyntaxKind::BLOCK_QUOTE,
        Token::Whitespace => SyntaxKind::WHITESPACE,
        Token::EscapedUnicode => SyntaxKind::ESCAPED_UNICODE,
        Token::EscapedCharacter => SyntaxKind::ESCAPED_CHARACTER,
        Token::LineTerminator => SyntaxKind::LINE_TERMINATOR,
    }
}

impl From<Token> for SyntaxKind {
    fn from(token: Token) -> (kind: SyntaxKind) {
        match token {
            Token::Comma => SyntaxKind::COMMA,
            Token::Hash => SyntaxKind::HASH,
            Token::Bang => SyntaxKind::BANG,
            Token::Dollar => SyntaxKind::DOLLAR,
            Token::OpenParen => SyntaxKind::OPEN_PAREN,
            Token::CloseParen => SyntaxKind::CLOSE_PAREN,
            Token::Spread => SyntaxKind::SPREAD,
            Token::Colon => SyntaxKind::COLON,
            Token::Equals => SyntaxKind::EQUALS,
            Token::At => SyntaxKind::AT,
            Token::OpenSquare => SyntaxKind::OPEN_SQUARE,
            Token::CloseSquare => SyntaxKind::CLOSE_SQUARE,
            Token::OpenCurly => SyntaxKind::OPEN_CURLY,
            Token::Pipe => SyntaxKind::PIPE,
            Token::CloseCurly => SyntaxKind::CLOSE_CURLY,
            Token::Name => SyntaxKind::NAME,
            Token::NegativeSign => SyntaxKind::NEGATIVE_SIGN,
            Token::Number => SyntaxKind::NUMBER,
            Token::ExponentPart => SyntaxKind::EXPONENT_PART,
            Token::FractionalPart => SyntaxKind::FRACTIONAL_PART,
            Token::Quote => SyntaxKind::QUOTE,
            Token::BlockQuote => SyntaxKind::BLOCK_QUOTE,
            Token::Whitespace => SyntaxKind::WHITESPACE,
            Token::EscapedUnicode => SyntaxKind::ESCAPED_UNICODE,
            Token::EscapedCharacter => SyntaxKind::ESCAPED_CHARACTER,
            Token::LineTerminator => SyntaxKind::LINE_TERMINATOR,
        }
    }
}

impl vstd::std_specs::convert::FromSpecImpl<Token> for SyntaxKind {
    open spec fn obeys_from_spec() -> bool {
        true
    }

    open spec fn from_spec(token: Token) -> SyntaxKind {
        token_syntax_kind(token)
    }
}

/// The number of a syntax kind: its position in the list of kinds.
pub open spec fn raw_of(kind: SyntaxKind) -> u16 {
    match kind {
        SyntaxKind::COMMA => 0,
        SyntaxKind::HASH => 1,
        SyntaxKind::BANG => 2,
        SyntaxKind::DOLLAR => 3,
        SyntaxKind::OPEN_PAREN => 4,
        SyntaxKind::CLOSE_PAREN => 5,
        SyntaxKind::SPREAD => 6,
        SyntaxKind::COLON => 7,
        SyntaxKind::EQUALS => 8,
        SyntaxKind::AT => 9,
        SyntaxKind::OPEN_SQUARE => 10,
        SyntaxKind::CLOSE_SQUARE => 11,
        SyntaxKind::OPEN_CURLY => 12,
        SyntaxKind::PIPE => 13,
        SyntaxKind::CLOSE_CURLY => 14,
        SyntaxKind::NAME => 15,
        SyntaxKind::NEGATIVE_SIGN => 16,
        SyntaxKind::NUMBER => 17,
        SyntaxKind::EXPONENT_PART => 18,
        SyntaxKind::FRACTIONAL_PART => 19,
        SyntaxKind::QUOTE => 20,
        SyntaxKind::BLOCK_QUOTE => 21,
        SyntaxKind::WHITESPACE => 22,
        SyntaxKind::ESCAPED_CHARACTER => 23,
        SyntaxKind::ESCAPED_UNICODE => 24,
        SyntaxKind::LINE_TERMINATOR => 25,
        SyntaxKind::ON => 26,
        SyntaxKind::OTHER => 27,
        SyntaxKind::NULL => 28,
        SyntaxKind::TRUE => 29,
        SyntaxKind::FALSE => 30,
        SyntaxKind::QUERY_KEYWORD => 31,
        SyntaxKind::MUTATION_KEYWORD => 32,
        SyntaxKind::SUBSCRIPTION_KEYWORD => 33,
        SyntaxKind::FRAGMENT_KEYWORD => 34,
        SyntaxKind::OPERATION_DEF => 35,
        SyntaxKind::FRAGMENT_DEF => 36,
        SyntaxKind::VARIABLE_DEFS => 37,
        SyntaxKind::VARIABLE_DEF => 38,
        SyntaxKind::VARIABLE => 39,
        SyntaxKind::NAMED_TYPE => 40,
        SyntaxKind::TYPE => 41,
        SyntaxKind::SELECTION_SET => 42,
        SyntaxKind::SELECTION => 43,
        SyntaxKind::FIELD_SELECTION => 44,
        SyntaxKind::ALIAS => 45,
        SyntaxKind::ARGUMENTS => 46,
        SyntaxKind::ARGUMENT => 47,
        SyntaxKind::DEFAULT_VALUE => 48,
        SyntaxKind::TYPE_CONDITION => 49,
        SyntaxKind::FRAGMENT_SPREAD => 50,
        SyntaxKind::FRAGMENT_NAME => 51,
        SyntaxKind::INLINE_FRAGMENT => 52,
        SyntaxKind::COMMENT => 53,
        SyntaxKind::COMMENT_CONTENTS => 54,
        SyntaxKind::DIRECTIVES => 55,
        SyntaxKind::DIRECTIVE => 56,
        SyntaxKind::ERROR => 57,
        SyntaxKind::VALUE => 58,
        SyntaxKind::INTEGER_VALUE => 59,
        SyntaxKind::INTEGER_PART => 60,
        SyntaxKind::BOOL_VALUE => 61,
        SyntaxKind::FLOAT_VALUE => 62,
        SyntaxKind::ENUM_VALUE => 63,
        SyntaxKind::LIST_VALUE => 64,
        SyntaxKind::OBJECT_VALUE => 65,
        SyntaxKind::OBJECT_FIELD => 66,
        SyntaxKind::STRING_VALUE => 67,
        SyntaxKind::STRING_CONTENTS => 68,
        SyntaxKind::ROOT => 69,
    }
}

/// The syntax kinds as a language of syntax trees: kinds to and from
/// their numbers.
#[derive(Debug, Clone, Copy, PartialEq, Eq, PartialOrd, Ord, Hash)]
pub struct Lang;

impl Lang {
    /// The kind numbered `raw`; numbers run up to that of `ROOT`.
    pub fn kind_from_raw(raw: u16) -> (kind: SyntaxKind)
        requires
            raw <= 69,
        ensures
            raw_of(kind) == raw,
    {
        if raw == 0 {
            SyntaxKind::COMMA
        } else if raw == 1 {
            SyntaxKind::HASH
        } else if raw == 2 {
            SyntaxKind::BANG
        } else if raw == 3 {
            SyntaxKind::DOLLAR
        } else if raw == 4 {
            SyntaxKind::OPEN_PAREN
        } else if raw == 5 {
            SyntaxKind::CLOSE_PAREN
        } else if raw == 6 {
            SyntaxKind::SPREAD
        } else if raw == 7 {
            SyntaxKind::COLON
        } else if raw == 8 {
            SyntaxKind::EQUALS
        } else if raw == 9 {
            SyntaxKind::AT
        } else if raw == 10 {
            SyntaxKind::OPEN_SQUARE
        } else if raw == 11 {
            SyntaxKind::CLOSE_SQUARE
        } else if raw == 12 {
            SyntaxKind::OPEN_CURLY
        } else if raw == 13 {
            SyntaxKind::PIPE
        } else if raw == 14 {
            SyntaxKind::CLOSE_CURLY
        } else if raw == 15 {
            SyntaxKind::NAME
        } else if raw == 16 {
            SyntaxKind::NEGATIVE_SIGN
        } else if raw == 17 {
            SyntaxKind::NUMBER
        } else if raw == 18 {
            SyntaxKind::EXPONENT_PART
        } else if raw == 19 {
            SyntaxKind::FRACTIONAL_PART
        } else if raw == 20 {
            SyntaxKind::QUOTE
        } else if raw == 21 {
            SyntaxKind::BLOCK_QUOTE
        } else if raw == 22 {
            SyntaxKind::WHITESPACE
        } else if raw == 23 {
            SyntaxKind::ESCAPED_CHARACTER
        } else if raw == 24 {
            SyntaxKind::ESCAPED_UNICODE
        } else if raw == 25 {
            SyntaxKind::LINE_TERMINATOR
        } else if raw == 26 {
            SyntaxKind::ON
        } else if raw == 27 {
            SyntaxKind::OTHER
        } else if raw == 28 {
            SyntaxKind::NULL
        } else if raw == 29 {
            SyntaxKind::TRUE
        } else if raw == 30 {
            SyntaxKind::FALSE
        } else if raw == 31 {
            SyntaxKind::QUERY_KEYWORD
        } else if raw == 32 {
            SyntaxKind::MUTATION_KEYWORD
        } else if raw == 33 {
            SyntaxKind::SUBSCRIPTION_KEYWORD
        } else if raw == 34 {
            SyntaxKind::FRAGMENT_KEYWORD
        } else if raw == 35 {
            SyntaxKind::OPERATION_DEF
        } else if raw == 36 {
            SyntaxKind::FRAGMENT_DEF
        } else if raw == 37 {
            SyntaxKind::VARIABLE_DEFS
        } else if raw == 38 {
            SyntaxKind::VARIABLE_DEF
        } else if raw == 39 {
            SyntaxKind::VARIABLE
        } else if raw == 40 {
            SyntaxKind::NAMED_TYPE
        } else if raw == 41 {
            SyntaxKind::TYPE
        } else if raw == 42 {
            SyntaxKind::SELECTION_SET
        } else if raw == 43 {
            SyntaxKind::SELECTION
        } else if raw == 44 {
            SyntaxKind::FIELD_SELECTION
        } else if raw == 45 {
            SyntaxKind::ALIAS
        } else if raw == 46 {
            SyntaxKind::ARGUMENTS
        } else if raw == 47 {
            SyntaxKind::ARGUMENT
        } else if raw == 48 {
            SyntaxKind::DEFAULT_VALUE
        } else if raw == 49 {
            SyntaxKind::TYPE_CONDITION
        } else if raw == 50 {
            SyntaxKind::FRAGMENT_SPREAD
        } else if raw == 51 {
            SyntaxKind::FRAGMENT_NAME
        } else if raw == 52 {
            SyntaxKind::INLINE_FRAGMENT
        } else if raw == 53 {
            SyntaxKind::COMMENT
        } else if raw == 54 {
            SyntaxKind::COMMENT_CONTENTS
        } else if raw == 55 {
            SyntaxKind::DIRECTIVES
        } else if raw == 56 {
            SyntaxKind::DIRECTIVE
        } else if raw == 57 {
            SyntaxKind::ERROR
        } else if raw == 58 {
            SyntaxKind::VALUE
        } else if raw == 59 {
            SyntaxKind::INTEGER_VALUE
        } else if raw == 60 {
            SyntaxKind::INTEGER_PART
        } else if raw == 61 {
            SyntaxKind::BOOL_VALUE
        } else if raw == 62 {
            SyntaxKind::FLOAT_VALUE
        } else if raw == 63 {
            SyntaxKind::ENUM_VALUE
        } else if raw == 64 {
            SyntaxKind::LIST_VALUE
        } else if raw == 65 {
            SyntaxKind::OBJECT_VALUE
        } else if raw == 66 {
            SyntaxKind::OBJECT_FIELD
        } else if raw == 67 {
            SyntaxKind::STRING_VALUE
        } else if raw == 68 {
            SyntaxKind::STRING_CONTENTS
        } else {
            SyntaxKind::ROOT
        }
    }

    /// The number of `kind`.
    pub fn kind_to_raw(kind: SyntaxKind) -> (raw: u16)
        ensures
            raw == raw_of(kind),
            raw <= 69,
    {
        match kind {
            SyntaxKind::COMMA => 0,
            SyntaxKind::HASH => 1,
            SyntaxKind::BANG => 2,
            SyntaxKind::DOLLAR => 3,
            SyntaxKind::OPEN_PAREN => 4,
            SyntaxKind::CLOSE_PAREN => 5,
            SyntaxKind::SPREAD => 6,
            SyntaxKind::COLON => 7,
            SyntaxKind::EQUALS => 8,
            SyntaxKind::AT => 9,
            SyntaxKind::OPEN_SQUARE => 10,
            SyntaxKind::CLOSE_SQUARE => 11,
            SyntaxKind::OPEN_CURLY => 12,
            SyntaxKind::PIPE => 13,
            SyntaxKind::CLOSE_CURLY => 14,
            SyntaxKind::NAME => 15,
            SyntaxKind::NEGATIVE_SIGN => 16,
            SyntaxKind::NUMBER => 17,
            SyntaxKind::EXPONENT_PART => 18,
            SyntaxKind::FRACTIONAL_PART => 19,
            SyntaxKind::QUOTE => 20,
            SyntaxKind::BLOCK_QUOTE => 21,
            SyntaxKind::WHITESPACE => 22,
            SyntaxKind::ESCAPED_CHARACTER => 23,
            SyntaxKind::ESCAPED_UNICODE => 24,
            SyntaxKind::LINE_TERMINATOR => 25,
            SyntaxKind::ON => 26,
            SyntaxKind::OTHER => 27,
            SyntaxKind::NULL => 28,
            SyntaxKind::TRUE => 29,
            SyntaxKind::FALSE => 30,
            SyntaxKind::QUERY_KEYWORD => 31,
            SyntaxKind::MUTATION_KEYWORD => 32,
            SyntaxKind::SUBSCRIPTION_KEYWORD => 33,
            SyntaxKind::FRAGMENT_KEYWORD => 34,
            SyntaxKind::OPERATION_DEF => 35,
            SyntaxKind::FRAGMENT_DEF => 36,
            SyntaxKind::VARIABLE_DEFS => 37,
            SyntaxKind::VARIABLE_DEF => 38,
            SyntaxKind::VARIABLE => 39,
            SyntaxKind::NAMED_TYPE => 40,
            SyntaxKind::TYPE => 41,
            SyntaxKind::SELECTION_SET => 42,
            SyntaxKind::SELECTION => 43,
            SyntaxKind::FIELD_SELECTION => 44,
            SyntaxKind::ALIAS => 45,
            SyntaxKind::ARGUMENTS => 46,
            SyntaxKind::ARGUMENT => 47,
            SyntaxKind::DEFAULT_VALUE => 48,
            SyntaxKind::TYPE_CONDITION => 49,
            SyntaxKind::FRAGMENT_SPREAD => 50,
            SyntaxKind::FRAGMENT_NAME => 51,
            SyntaxKind::INLINE_FRAGMENT => 52,
            SyntaxKind::COMMENT => 53,
            SyntaxKind::COMMENT_CONTENTS => 54,
            SyntaxKind::DIRECTIVES => 55,
            SyntaxKind::DIRECTIVE => 56,
            SyntaxKind::ERROR => 57,
            SyntaxKind::VALUE => 58,
            SyntaxKind::INTEGER_VALUE => 59,
            SyntaxKind::INTEGER_PART => 60,
            SyntaxKind::BOOL_VALUE => 61,
            SyntaxKind::FLOAT_VALUE => 62,
            SyntaxKind::ENUM_VALUE => 63,
            SyntaxKind::LIST_VALUE => 64,
            SyntaxKind::OBJECT_VALUE => 65,
            SyntaxKind::OBJECT_FIELD => 66,
            SyntaxKind::STRING_VALUE => 67,
            SyntaxKind::STRING_CONTENTS => 68,
            SyntaxKind::ROOT => 69,
        }
    }
}

/// Numbering is one to one: the kind of the number of a kind is that
/// kind, and every number up to that of `ROOT` is the number of a kind.
pub proof fn law_kind_numbering(kind: SyntaxKind, raw: u16)
    ensures
        raw_of(kind) <= 69,
        raw_of(kind) == raw ==> forall|other: SyntaxKind| raw_of(other) == raw ==> other == kind,
{
}

} // verus!

//! The lexical grammar of GraphQL documents: http://spec.graphql.org/
//!
//! Lexing works on the characters of the source text.  At each position the
//! lexer first skips ignored characters (white space, line terminators,
//! commas, the byte order mark and comments), then takes the longest token
//! that matches there.
use vstd::prelude::*;

use crate::text::{escape_char, escaped, hex_digit};

verus! {

/// Tokens of the GraphQL lexical grammar.
///
/// The first four variants are never produced as tokens: they describe why
/// a string or block string could not be lexed (see [`TokenExtras`]).
#[derive(Clone, Debug, Eq, PartialEq, Ord, PartialOrd, Hash)]
pub enum Token {
    ErrorUnterminatedString,
    ErrorUnsupportedStringCharacter,
    ErrorUnterminatedBlockString,
    Empty,
    Ampersand,
    At,
    CloseBrace,
    CloseBracket,
    CloseParen,
    Colon,
    Dollar,
    EndOfFile,
    Equals,
    Exclamation,
    Schema,
    Query,
    Type,
    FloatLiteral,
    Identifier(String),
    IntegerLiteral,
    ErrorNumberLiteralLeadingZero,
    ErrorNumberLiteralTrailingInvalid,
    ErrorFloatLiteralMissingZero,
    OpenBrace,
    OpenBracket,
    OpenParen,
    Period,
    PeriodPeriod,
    Pipe,
    Spread,
    StringLiteral,
    BlockStringLiteral,
}

/// The kind of a [`Token`], without the text that an identifier carries.
#[derive(Clone, Copy, Debug, Eq, PartialEq, Structural)]
pub enum TokenKind {
    ErrorUnterminatedString,
    ErrorUnsupportedStringCharacter,
    ErrorUnterminatedBlockString,
    Empty,
    Ampersand,
    At,
    CloseBrace,
    CloseBracket,
    CloseParen,
    Colon,
    Dollar,
    EndOfFile,
    Equals,
    Exclamation,
    Schema,
    Query,
    Type,
    FloatLiteral,
    Identifier,
    IntegerLiteral,
    ErrorNumberLiteralLeadingZero,
    ErrorNumberLiteralTrailingInvalid,
    ErrorFloatLiteralMissingZero,
    OpenBrace,
    OpenBracket,
    OpenParen,
    Period,
    PeriodPeriod,
    Pipe,
    Spread,
    StringLiteral,
    BlockStringLiteral,
}

/// Extra state of a lexer: the reason why the last string or block string
/// failed to lex.  Once set, it stays until another string fails.
#[derive(Default, Eq, PartialEq, Debug, Clone)]
pub struct TokenExtras {
    pub error_token: Option<Token>,
}

/// The tokens inside a string literal.
#[derive(Debug, Clone, Copy, Eq, PartialEq, Structural)]
pub enum StringToken {
    EscapedCharacter,
    EscapedUnicode,
    Quote,
    LineTerminator,
    StringCharacters,
}

/// The tokens inside a block string literal.
#[derive(Copy, Clone, Debug, Eq, PartialEq, Ord, PartialOrd, Hash, Structural)]
pub enum BlockStringToken {
    EscapedTripleQuote,
    TripleQuote,
    Other,
}

/// The kind of a token, as the specification of lexing speaks of it.
pub open spec fn kind_of(token: Token) -> TokenKind {
    match token {
        Token::ErrorUnterminatedString => TokenKind::ErrorUnterminatedString,
        Token::ErrorUnsupportedStringCharacter => TokenKind::ErrorUnsupportedStringCharacter,
        Token::ErrorUnterminatedBlockString => TokenKind::ErrorUnterminatedBlockString,
        Token::Empty => TokenKind::Empty,
        Token::Ampersand => TokenKind::Ampersand,
        Token::At => TokenKind::At,
        Token::CloseBrace => TokenKind::CloseBrace,
        Token::CloseBracket => TokenKind::CloseBracket,
        Token::CloseParen => TokenKind::CloseParen,
        Token::Colon => TokenKind::Colon,
        Token::Dollar => TokenKind::Dollar,
        Token::EndOfFile => TokenKind::EndOfFile,
        Token::Equals => TokenKind::Equals,
        Token::Exclamation => TokenKind::Exclamation,
        Token::Schema => TokenKind::Schema,
        Token::Query => TokenKind::Query,
        Token::Type => TokenKind::Type,
        Token::FloatLiteral => TokenKind::FloatLiteral,
        Token::Identifier(_) => TokenKind::Identifier,
        Token::IntegerLiteral => TokenKind::IntegerLiteral,
        Token::ErrorNumberLiteralLeadingZero => TokenKind::ErrorNumberLiteralLeadingZero,
        Token::ErrorNumberLiteralTrailingInvalid => TokenKind::ErrorNumberLiteralTrailingInvalid,
        Token::ErrorFloatLiteralMissingZero => TokenKind::ErrorFloatLiteralMissingZero,
        Token::OpenBrace => TokenKind::OpenBrace,
        Token::OpenBracket => TokenKind::OpenBracket,
        Token::OpenParen => TokenKind::OpenParen,
        Token::Period => TokenKind::Period,
        Token::PeriodPeriod => TokenKind::PeriodPeriod,
        Token::Pipe => TokenKind::Pipe,
        Token::Spread => TokenKind::Spread,
        Token::StringLiteral => TokenKind::StringLiteral,
        Token::BlockStringLiteral => TokenKind::BlockStringLiteral,
    }
}

// ---------------------------------------------------------------------
// Character classes
// ---------------------------------------------------------------------

pub open spec fn is_digit(c: char) -> bool {
    '0' <= c && c <= '9'
}

pub open spec fn is_hex_digit(c: char) -> bool {
    is_digit(c) || ('a' <= c && c <= 'f') || ('A' <= c && c <= 'F')
}

/// `[a-zA-Z_]`
pub open spec fn is_name_start(c: char) -> bool {
    ('a' <= c && c <= 'z') || ('A' <= c && c <= 'Z') || c == '_'
}

/// `[a-zA-Z0-9_]`
pub open spec fn is_name_continue(c: char) -> bool {
    is_name_start(c) || is_digit(c)
}

/// Characters that are skipped between tokens: `[ \t\r\n\f,\ufeff]`.
pub open spec fn is_ignored_char(c: char) -> bool {
    c == ' ' || c == '\t' || c == '\r' || c == '\n' || c == '\u{0C}' || c == ','
        || c == '\u{FEFF}'
}

/// `[\u0009\u0020\u0021\u0023-\u005B\u005D-\uFFFF]`
pub open spec fn is_string_char(c: char) -> bool {
    c == '\t' || c == ' ' || c == '!' || ('#' <= c && c <= '[') || (']' <= c && c <= '\u{FFFF}')
}

/// `[\u0009\u000A\u000D\u0020-\uFFFF]`
pub open spec fn is_block_string_char(c: char) -> bool {
    c == '\t' || c == '\n' || c == '\r' || (' ' <= c && c <= '\u{FFFF}')
}

/// `["\\/bfnrt]`, the characters that may follow a backslash in a string.
pub open spec fn is_escapable(c: char) -> bool {
    c == '"' || c == '\\' || c == '/' || c == 'b' || c == 'f' || c == 'n' || c == 'r' || c == 't'
}

/// `[.a-zA-Z_]`, what may not directly follow a number.
pub open spec fn is_number_trailer(c: char) -> bool {
    c == '.' || is_name_start(c)
}

pub open spec fn char_is(s: Seq<char>, i: int, c: char) -> bool {
    0 <= i < s.len() && s[i] == c
}

pub open spec fn digit_at(s: Seq<char>, i: int) -> bool {
    0 <= i < s.len() && is_digit(s[i])
}

pub open spec fn triple_quote_at(s: Seq<char>, i: int) -> bool {
    char_is(s, i, '"') && char_is(s, i + 1, '"') && char_is(s, i + 2, '"')
}

// ---------------------------------------------------------------------
// Runs and the parts of numbers (each a length, 0 when nothing matches)
// ---------------------------------------------------------------------

/// The number of digits in the run that starts at `i`.
pub open spec fn digit_run(s: Seq<char>, i: int) -> nat
    decreases s.len() - i,
{
    if 0 <= i < s.len() && is_digit(s[i]) {
        1 + digit_run(s, i + 1)
    } else {
        0
    }
}

/// The number of `[a-zA-Z0-9_]` characters in the run that starts at `i`.
pub open spec fn name_continue_run(s: Seq<char>, i: int) -> nat
    decreases s.len() - i,
{
    if 0 <= i < s.len() && is_name_continue(s[i]) {
        1 + name_continue_run(s, i + 1)
    } else {
        0
    }
}

/// The number of characters up to the next `\n` or `\r` (or the end).
pub open spec fn comment_run(s: Seq<char>, i: int) -> nat
    decreases s.len() - i,
{
    if 0 <= i < s.len() && s[i] != '\n' && s[i] != '\r' {
        1 + comment_run(s, i + 1)
    } else {
        0
    }
}

/// No run of characters reaches past the end of the input.
pub proof fn lemma_run_bounds(s: Seq<char>, i: int)
    requires
        0 <= i <= s.len(),
    ensures
        i + digit_run(s, i) <= s.len(),
        i + name_continue_run(s, i) <= s.len(),
        i + comment_run(s, i) <= s.len(),
    decreases s.len() - i,
{
    if i < s.len() {
        lemma_run_bounds(s, i + 1);
    }
}

/// `-?`
pub open spec fn sign_len(s: Seq<char>, i: int) -> nat {
    if char_is(s, i, '-') {
        1
    } else {
        0
    }
}

/// `0|[1-9][0-9]*`
pub open spec fn integer_part(s: Seq<char>, i: int) -> nat {
    if char_is(s, i, '0') {
        1
    } else if 0 <= i < s.len() && '1' <= s[i] && s[i] <= '9' {
        1 + digit_run(s, i + 1)
    } else {
        0
    }
}

/// `\.[0-9]+`
pub open spec fn fraction_part(s: Seq<char>, i: int) -> nat {
    if char_is(s, i, '.') && digit_run(s, i + 1) > 0 {
        1 + digit_run(s, i + 1)
    } else {
        0
    }
}

/// `[eE][+-]?[0-9]+`
pub open spec fn exponent_part(s: Seq<char>, i: int) -> nat {
    if char_is(s, i, 'e') || char_is(s, i, 'E') {
        let j = if char_is(s, i + 1, '+') || char_is(s, i + 1, '-') {
            i + 2
        } else {
            i + 1
        };
        if digit_run(s, j) > 0 {
            ((j - i) + digit_run(s, j)) as nat
        } else {
            0
        }
    } else {
        0
    }
}

/// The longest match of `\.[0-9]+[eE][+-]?[0-9]+|\.[0-9]+|[eE][+-]?[0-9]+`.
pub open spec fn float_suffix(s: Seq<char>, i: int) -> nat {
    let f = fraction_part(s, i);
    if f > 0 {
        f + exponent_part(s, i + f)
    } else {
        exponent_part(s, i)
    }
}

/// `-?(0|[1-9][0-9]*)`
pub open spec fn integer_literal_len(s: Seq<char>, p: int) -> nat {
    let n = sign_len(s, p);
    let ip = integer_part(s, p + n);
    if ip > 0 {
        n + ip
    } else {
        0
    }
}

/// `-?(0|[1-9][0-9]*)(\.[0-9]+[eE][+-]?[0-9]+|\.[0-9]+|[eE][+-]?[0-9]+)`
pub open spec fn float_literal_len(s: Seq<char>, p: int) -> nat {
    let n = sign_len(s, p);
    let ip = integer_part(s, p + n);
    let fs = float_suffix(s, p + n + ip);
    if ip > 0 && fs > 0 {
        n + ip + fs
    } else {
        0
    }
}

/// `-?0[0-9]+(\.[0-9]+[eE][+-]?[0-9]+|\.[0-9]+|[eE][+-]?[0-9]+)?`
pub open spec fn leading_zero_len(s: Seq<char>, p: int) -> nat {
    let n = sign_len(s, p);
    let d = digit_run(s, p + n + 1);
    if char_is(s, p + n, '0') && d > 0 {
        n + 1 + d + float_suffix(s, p + n + 1 + d)
    } else {
        0
    }
}

/// `-?(\.[0-9]+[eE][+-]?[0-9]+|\.[0-9]+)`
pub open spec fn missing_zero_len(s: Seq<char>, p: int) -> nat {
    let n = sign_len(s, p);
    let f = fraction_part(s, p + n);
    if f > 0 {
        n + f + exponent_part(s, p + n + f)
    } else {
        0
    }
}

/// The length of `s[p..end]` followed by one `[.a-zA-Z_]`, or 0 when no such
/// character follows.
pub open spec fn trailer_len(s: Seq<char>, p: int, end: int) -> nat {
    if 0 <= end < s.len() && is_number_trailer(s[end]) {
        (end - p + 1) as nat
    } else {
        0
    }
}

/// `-?(0|[1-9][0-9]*)(\.[0-9]+[eE][+-]?[0-9]+|\.[0-9]+|[eE][+-]?[0-9]+)?[.a-zA-Z_]`
///
/// The longest match ends right after the longest prefix number that is
/// followed by a trailer: the whole number, or the number without its
/// exponent, or the integer part alone.
pub open spec fn trailing_invalid_len(s: Seq<char>, p: int) -> nat {
    let n = sign_len(s, p);
    let ip = integer_part(s, p + n);
    let base = p + n + ip;
    let full = base + float_suffix(s, base);
    let mid = base + fraction_part(s, base);
    if ip == 0 {
        0
    } else if trailer_len(s, p, full) > 0 {
        trailer_len(s, p, full)
    } else if trailer_len(s, p, mid) > 0 {
        trailer_len(s, p, mid)
    } else {
        trailer_len(s, p, base)
    }
}

/// Of two candidate matches, the longer one; the first one on a tie.
pub open spec fn longer(a: (TokenKind, nat), b: (TokenKind, nat)) -> (TokenKind, nat) {
    if b.1 > a.1 {
        b
    } else {
        a
    }
}

/// The longest of the number patterns at `p`, with length 0 when none matches.
pub open spec fn number_match(s: Seq<char>, p: int) -> (TokenKind, nat) {
    longer(
        longer(
            longer(
                longer(
                    (TokenKind::FloatLiteral, float_literal_len(s, p)),
                    (TokenKind::IntegerLiteral, integer_literal_len(s, p)),
                ),
                (TokenKind::ErrorNumberLiteralLeadingZero, leading_zero_len(s, p)),
            ),
            (TokenKind::ErrorNumberLiteralTrailingInvalid, trailing_invalid_len(s, p)),
        ),
        (TokenKind::ErrorFloatLiteralMissingZero, missing_zero_len(s, p)),
    )
}

/// `.`, `..` or `...`: the longest of them at `p`, with length 0 when none.
pub open spec fn period_match(s: Seq<char>, p: int) -> (TokenKind, nat) {
    if char_is(s, p, '.') && char_is(s, p + 1, '.') && char_is(s, p + 2, '.') {
        (TokenKind::Spread, 3)
    } else if char_is(s, p, '.') && char_is(s, p + 1, '.') {
        (TokenKind::PeriodPeriod, 2)
    } else if char_is(s, p, '.') {
        (TokenKind::Period, 1)
    } else {
        (TokenKind::Period, 0)
    }
}

/// The token made of the single character `c`, if there is one.
pub open spec fn punctuator(c: char) -> Option<TokenKind> {
    if c == '&' {
        Some(TokenKind::Ampersand)
    } else if c == '@' {
        Some(TokenKind::At)
    } else if c == '}' {
        Some(TokenKind::CloseBrace)
    } else if c == ']' {
        Some(TokenKind::CloseBracket)
    } else if c == ')' {
        Some(TokenKind::CloseParen)
    } else if c == ':' {
        Some(TokenKind::Colon)
    } else if c == '$' {
        Some(TokenKind::Dollar)
    } else if c == '=' {
        Some(TokenKind::Equals)
    } else if c == '!' {
        Some(TokenKind::Exclamation)
    } else if c == '{' {
        Some(TokenKind::OpenBrace)
    } else if c == '[' {
        Some(TokenKind::OpenBracket)
    } else if c == '(' {
        Some(TokenKind::OpenParen)
    } else if c == '|' {
        Some(TokenKind::Pipe)
    } else {
        None
    }
}

// ---------------------------------------------------------------------
// Strings
// ---------------------------------------------------------------------

/// The length of the escape sequence at `i` (which holds a backslash):
/// `\\["\\/bfnrt]` or `\\u[0-9A-Fa-f]{4}`, 0 when neither matches.
pub open spec fn escape_len(s: Seq<char>, i: int) -> nat {
    if 0 <= i + 1 < s.len() && is_escapable(s[i + 1]) {
        2
    } else if char_is(s, i + 1, 'u') && i + 5 < s.len() && is_hex_digit(s[i + 2]) && is_hex_digit(
        s[i + 3],
    ) && is_hex_digit(s[i + 4]) && is_hex_digit(s[i + 5]) {
        6
    } else {
        0
    }
}

/// How the contents of a string that starts before `i` end.
#[derive(Clone, Copy, Debug, PartialEq, Eq, Structural)]
pub enum StringEnd {
    /// The closing quote; the string ends before the given position.
    Closed(usize),
    /// A line terminator at the given position.
    LineTerminator(usize),
    /// A character that may not stand in a string.
    Unsupported,
    /// The end of the input.
    Unterminated,
}

/// Scans the contents of a string literal from `i`, one [`StringToken`] at a time.
pub open spec fn scan_string(s: Seq<char>, i: int) -> StringEnd
    decreases s.len() - i,
{
    if i < 0 || i >= s.len() {
        StringEnd::Unterminated
    } else if s[i] == '"' {
        StringEnd::Closed((i + 1) as usize)
    } else if s[i] == '\n' || s[i] == '\r' {
        StringEnd::LineTerminator(i as usize)
    } else if s[i] == '\\' {
        if escape_len(s, i) > 0 {
            scan_string(s, i + escape_len(s, i))
        } else {
            StringEnd::Unsupported
        }
    } else if is_string_char(s[i]) {
        scan_string(s, i + 1)
    } else {
        StringEnd::Unsupported
    }
}

/// How the contents of a block string that starts before `i` end.
#[derive(Clone, Copy, Debug, PartialEq, Eq, Structural)]
pub enum BlockStringEnd {
    /// The closing triple quote; the block string ends before the given position.
    Closed(usize),
    /// A character that may not stand in a block string.
    Unsupported,
    /// The end of the input.
    Unterminated,
}

/// Scans the contents of a block string from `i`, one [`BlockStringToken`] at a time.
pub open spec fn scan_block_string(s: Seq<char>, i: int) -> BlockStringEnd
    decreases s.len() - i,
{
    if i < 0 || i >= s.len() {
        BlockStringEnd::Unterminated
    } else if s[i] == '\\' && triple_quote_at(s, i + 1) {
        scan_block_string(s, i + 4)
    } else if triple_quote_at(s, i) {
        BlockStringEnd::Closed((i + 3) as usize)
    } else if is_block_string_char(s[i]) {
        scan_block_string(s, i + 1)
    } else {
        BlockStringEnd::Unsupported
    }
}

// ---------------------------------------------------------------------
// One step of the lexer
// ---------------------------------------------------------------------

/// What the lexer finds at a position that holds no ignored character.
#[derive(Clone, Copy, Debug, PartialEq, Eq, Structural)]
pub enum Step {
    /// A token of the given kind and length (in characters).
    Token(TokenKind, usize),
    /// No token: the given number of characters are passed over, and the
    /// reason is recorded in [`TokenExtras`] when there is one.
    Error(usize, Option<TokenKind>),
    /// A block string holds a character that no block string token accepts.
    Unsupported,
}

/// The step at `p`.
pub open spec fn step_at(s: Seq<char>, p: int) -> Step {
    let c = s[p];
    if punctuator(c) is Some {
        Step::Token(punctuator(c)->0, 1)
    } else if c == '"' {
        if triple_quote_at(s, p) {
            match scan_block_string(s, p + 3) {
                BlockStringEnd::Closed(e) => Step::Token(
                    TokenKind::BlockStringLiteral,
                    (e - p) as usize,
                ),
                BlockStringEnd::Unterminated => Step::Error(
                    3,
                    Some(TokenKind::ErrorUnterminatedBlockString),
                ),
                BlockStringEnd::Unsupported => Step::Unsupported,
            }
        } else {
            match scan_string(s, p + 1) {
                StringEnd::Closed(e) => Step::Token(TokenKind::StringLiteral, (e - p) as usize),
                StringEnd::LineTerminator(e) => Step::Error(
                    (e - p) as usize,
                    Some(TokenKind::ErrorUnterminatedString),
                ),
                StringEnd::Unsupported => Step::Error(
                    1,
                    Some(TokenKind::ErrorUnsupportedStringCharacter),
                ),
                StringEnd::Unterminated => Step::Error(1, Some(TokenKind::ErrorUnterminatedString)),
            }
        }
    } else if c == '.' {
        let m = longer(period_match(s, p), (TokenKind::ErrorFloatLiteralMissingZero, missing_zero_len(s, p)));
        Step::Token(m.0, m.1 as usize)
    } else if c == '-' || is_digit(c) {
        let m = number_match(s, p);
        if m.1 > 0 {
            Step::Token(m.0, m.1 as usize)
        } else {
            Step::Error(1, None)
        }
    } else if is_name_start(c) {
        Step::Token(TokenKind::Identifier, (1 + name_continue_run(s, p + 1)) as usize)
    } else {
        Step::Error(1, None)
    }
}

/// The first position at or after `p` that is not skipped: ignored
/// characters and comments (`#` up to the end of the line) are skipped.
pub open spec fn skip_ignored(s: Seq<char>, p: int) -> int
    decreases s.len() - p,
{
    if 0 <= p < s.len() && is_ignored_char(s[p]) {
        skip_ignored(s, p + 1)
    } else if 0 <= p < s.len() && s[p] == '#' {
        proof {
            lemma_run_bounds(s, p + 1);
        }
        skip_ignored(s, p + 1 + comment_run(s, p + 1))
    } else {
        p
    }
}


// ---------------------------------------------------------------------
// Every match stays within the input
// ---------------------------------------------------------------------

/// The parts of a number never reach past the end of the input.
pub proof fn lemma_part_bounds(s: Seq<char>, i: int)
    requires
        0 <= i <= s.len(),
    ensures
        i + integer_part(s, i) <= s.len(),
        i + fraction_part(s, i) <= s.len(),
        i + exponent_part(s, i) <= s.len(),
{
    if i < s.len() {
        lemma_run_bounds(s, i + 1);
    }
    if i + 1 < s.len() {
        lemma_run_bounds(s, i + 2);
    }
    if i + 2 < s.len() {
        lemma_run_bounds(s, i + 3);
    }
}

/// The optional fraction and exponent never reach past the end of the input.
pub proof fn lemma_suffix_bound(s: Seq<char>, i: int)
    requires
        0 <= i <= s.len(),
    ensures
        i + float_suffix(s, i) <= s.len(),
{
    lemma_part_bounds(s, i);
    lemma_part_bounds(s, i + fraction_part(s, i));
}

/// Every number pattern matches within the input.
pub proof fn lemma_number_bounds(s: Seq<char>, p: int)
    requires
        0 <= p < s.len(),
    ensures
        p + number_match(s, p).1 <= s.len(),
        p + missing_zero_len(s, p) <= s.len(),
{
    let n = sign_len(s, p);
    lemma_part_bounds(s, p + n);
    let ip = integer_part(s, p + n);
    lemma_suffix_bound(s, p + n + ip);
    lemma_part_bounds(s, p + n + ip);
    lemma_part_bounds(s, p + n + fraction_part(s, p + n));
    if p + n < s.len() {
        lemma_run_bounds(s, p + n + 1);
        lemma_suffix_bound(s, p + n + 1 + digit_run(s, p + n + 1));
    }
}

/// A string's contents end within the input.
pub proof fn lemma_scan_string_bounds(s: Seq<char>, i: int)
    requires
        0 <= i <= s.len(),
        s.len() <= usize::MAX,
    ensures
        match scan_string(s, i) {
            StringEnd::Closed(e) => i < e <= s.len(),
            StringEnd::LineTerminator(e) => i <= e < s.len(),
            _ => true,
        },
    decreases s.len() - i,
{
    if i < s.len() && s[i] != '"' && s[i] != '\n' && s[i] != '\r' {
        if s[i] == '\\' {
            if escape_len(s, i) > 0 {
                lemma_scan_string_bounds(s, i + escape_len(s, i));
            }
        } else if is_string_char(s[i]) {
            lemma_scan_string_bounds(s, i + 1);
        }
    }
}

/// A block string's contents end within the input.
pub proof fn lemma_scan_block_string_bounds(s: Seq<char>, i: int)
    requires
        0 <= i <= s.len(),
        s.len() <= usize::MAX,
    ensures
        match scan_block_string(s, i) {
            BlockStringEnd::Closed(e) => i + 3 <= e <= s.len(),
            _ => true,
        },
    decreases s.len() - i,
{
    if i < s.len() {
        if s[i] == '\\' && triple_quote_at(s, i + 1) {
            lemma_scan_block_string_bounds(s, i + 4);
        } else if !triple_quote_at(s, i) && is_block_string_char(s[i]) {
            lemma_scan_block_string_bounds(s, i + 1);
        }
    }
}

/// The number of characters that a step passes over; 0 for a step that
/// cannot be taken.
pub open spec fn step_len(step: Step) -> int {
    match step {
        Step::Token(_, n) => n as int,
        Step::Error(n, _) => n as int,
        Step::Unsupported => 0,
    }
}

/// Every step that can be taken passes over at least one character and
/// stays within the input.
pub proof fn lemma_step_bounds(s: Seq<char>, p: int)
    requires
        0 <= p < s.len(),
        s.len() <= usize::MAX,
    ensures
        step_at(s, p) !is Unsupported ==> 0 < step_len(step_at(s, p)) && p + step_len(
            step_at(s, p),
        ) <= s.len(),
{
    lemma_number_bounds(s, p);
    lemma_run_bounds(s, p + 1);
    lemma_scan_string_bounds(s, p + 1);
    if p + 3 <= s.len() {
        lemma_scan_block_string_bounds(s, p + 3);
    }
}

/// Skipping never moves backwards nor past the end of the input.
pub proof fn lemma_skip_bounds(s: Seq<char>, p: int)
    requires
        0 <= p <= s.len(),
    ensures
        p <= skip_ignored(s, p) <= s.len(),
    decreases s.len() - p,
{
    if p < s.len() && is_ignored_char(s[p]) {
        lemma_skip_bounds(s, p + 1);
    } else if p < s.len() && s[p] == '#' {
        lemma_run_bounds(s, p + 1);
        lemma_skip_bounds(s, p + 1 + comment_run(s, p + 1));
    }
}

/// What lexing finds after position `p`: nothing but skipped characters
/// (`None`), or the position where the next step starts and that step.
pub open spec fn next_step(s: Seq<char>, p: int) -> Option<(int, Step)> {
    let q = skip_ignored(s, p);
    if 0 <= q < s.len() {
        Some((q, step_at(s, q)))
    } else {
        None
    }
}

/// Every step that lexing takes from position `p` to the end of the input,
/// each with the position where it starts.  Lexing stops after a step that
/// cannot be taken.
pub open spec fn lex_steps(s: Seq<char>, p: int) -> Seq<(int, Step)>
    decreases s.len() - p,
{
    if 0 <= p <= s.len() && s.len() <= usize::MAX {
        match next_step(s, p) {
            None => seq![],
            Some((q, step)) => {
                if step is Unsupported {
                    seq![(q, step)]
                } else {
                    proof {
                        lemma_skip_bounds(s, p);
                        lemma_step_bounds(s, q);
                    }
                    seq![(q, step)] + lex_steps(s, q + step_len(step))
                }
            },
        }
    } else {
        seq![]
    }
}

/// Lexing all of `s` never meets a block string holding a character that
/// no block string token accepts.
pub open spec fn lexes_without_panic(s: Seq<char>) -> bool {
    forall|i: int| 0 <= i < lex_steps(s, 0).len() ==> !(#[trigger] lex_steps(s, 0)[i].1 is Unsupported)
}


/// How a token of kind `kind` is described in messages.
pub open spec fn token_message(kind: TokenKind) -> Seq<char> {
    match kind {
        TokenKind::Ampersand => "ampersand ('&')"@,
        TokenKind::At => "at ('@')"@,
        TokenKind::CloseBrace => "closing brace ('}')"@,
        TokenKind::CloseBracket => "closing bracket (']')"@,
        TokenKind::CloseParen => "closing paren (')')"@,
        TokenKind::Colon => "colon (':')"@,
        TokenKind::Dollar => "dollar ('$')"@,
        TokenKind::EndOfFile => "end of file"@,
        TokenKind::Equals => "equals ('=')"@,
        TokenKind::Exclamation => "exclamation mark ('!')"@,
        TokenKind::FloatLiteral => "floating point value (e.g. '3.14')"@,
        TokenKind::Identifier => "non-variable identifier (e.g. 'x' or 'Foo')"@,
        TokenKind::IntegerLiteral => "integer value (e.g. '0' or '42')"@,
        TokenKind::OpenBrace => "open brace ('{')"@,
        TokenKind::OpenBracket => "open bracket ('[')"@,
        TokenKind::OpenParen => "open parenthesis ('(')"@,
        TokenKind::Period => "period ('.')"@,
        TokenKind::PeriodPeriod => "double period ('..')"@,
        TokenKind::Pipe => "pipe ('|')"@,
        TokenKind::Spread => "spread ('...')"@,
        TokenKind::BlockStringLiteral => "block string (e.g. '\"\"\"hi\"\"\"')"@,
        TokenKind::ErrorFloatLiteralMissingZero => "unsupported number (int or float) literal"@,
        TokenKind::ErrorNumberLiteralLeadingZero => "unsupported number (int or float) literal"@,
        TokenKind::ErrorNumberLiteralTrailingInvalid => "unsupported number (int or float) literal"@,
        TokenKind::StringLiteral => "string literal (e.g. '\"...\"')"@,
        TokenKind::ErrorUnterminatedString => "unterminated string"@,
        TokenKind::ErrorUnsupportedStringCharacter => "unsupported character in string"@,
        TokenKind::ErrorUnterminatedBlockString => "unterminated block string"@,
        TokenKind::Empty => "missing expected kind"@,
        TokenKind::Schema => "schema"@,
        TokenKind::Query => "query"@,
        TokenKind::Type => "type"@,
    }
}

impl Token {
    /// The kind of this token.
    pub fn kind(&self) -> (kind: TokenKind)
        ensures
            kind == kind_of(*self),
    {
        match self {
            Token::ErrorUnterminatedString => TokenKind::ErrorUnterminatedString,
            Token::ErrorUnsupportedStringCharacter => TokenKind::ErrorUnsupportedStringCharacter,
            Token::ErrorUnterminatedBlockString => TokenKind::ErrorUnterminatedBlockString,
            Token::Empty => TokenKind::Empty,
            Token::Ampersand => TokenKind::Ampersand,
            Token::At => TokenKind::At,
            Token::CloseBrace => TokenKind::CloseBrace,
            Token::CloseBracket => TokenKind::CloseBracket,
            Token::CloseParen => TokenKind::CloseParen,
            Token::Colon => TokenKind::Colon,
            Token::Dollar => TokenKind::Dollar,
            Token::EndOfFile => TokenKind::EndOfFile,
            Token::Equals => TokenKind::Equals,
            Token::Exclamation => TokenKind::Exclamation,
            Token::Schema => TokenKind::Schema,
            Token::Query => TokenKind::Query,
            Token::Type => TokenKind::Type,
            Token::FloatLiteral => TokenKind::FloatLiteral,
            Token::Identifier(_) => TokenKind::Identifier,
            Token::IntegerLiteral => TokenKind::IntegerLiteral,
            Token::ErrorNumberLiteralLeadingZero => TokenKind::ErrorNumberLiteralLeadingZero,
            Token::ErrorNumberLiteralTrailingInvalid => TokenKind::ErrorNumberLiteralTrailingInvalid,
            Token::ErrorFloatLiteralMissingZero => TokenKind::ErrorFloatLiteralMissingZero,
            Token::OpenBrace => TokenKind::OpenBrace,
            Token::OpenBracket => TokenKind::OpenBracket,
            Token::OpenParen => TokenKind::OpenParen,
            Token::Period => TokenKind::Period,
            Token::PeriodPeriod => TokenKind::PeriodPeriod,
            Token::Pipe => TokenKind::Pipe,
            Token::Spread => TokenKind::Spread,
            Token::StringLiteral => TokenKind::StringLiteral,
            Token::BlockStringLiteral => TokenKind::BlockStringLiteral,
        }
    }

    /// The description of this token in messages.
    pub fn to_string(&self) -> (message: String)
        ensures
            message@ == token_message(kind_of(*self)),
    {
        let text = match self.kind() {
            TokenKind::Ampersand => "ampersand ('&')",
            TokenKind::At => "at ('@')",
            TokenKind::CloseBrace => "closing brace ('}')",
            TokenKind::CloseBracket => "closing bracket (']')",
            TokenKind::CloseParen => "closing paren (')')",
            TokenKind::Colon => "colon (':')",
            TokenKind::Dollar => "dollar ('$')",
            TokenKind::EndOfFile => "end of file",
            TokenKind::Equals => "equals ('=')",
            TokenKind::Exclamation => "exclamation mark ('!')",
            TokenKind::FloatLiteral => "floating point value (e.g. '3.14')",
            TokenKind::Identifier => "non-variable identifier (e.g. 'x' or 'Foo')",
            TokenKind::IntegerLiteral => "integer value (e.g. '0' or '42')",
            TokenKind::OpenBrace => "open brace ('{')",
            TokenKind::OpenBracket => "open bracket ('[')",
            TokenKind::OpenParen => "open parenthesis ('(')",
            TokenKind::Period => "period ('.')",
            TokenKind::PeriodPeriod => "double period ('..')",
            TokenKind::Pipe => "pipe ('|')",
            TokenKind::Spread => "spread ('...')",
            TokenKind::BlockStringLiteral => "block string (e.g. '\"\"\"hi\"\"\"')",
            TokenKind::ErrorFloatLiteralMissingZero => "unsupported number (int or float) literal",
            TokenKind::ErrorNumberLiteralLeadingZero => "unsupported number (int or float) literal",
            TokenKind::ErrorNumberLiteralTrailingInvalid => "unsupported number (int or float) literal",
            TokenKind::StringLiteral => "string literal (e.g. '\"...\"')",
            TokenKind::ErrorUnterminatedString => "unterminated string",
            TokenKind::ErrorUnsupportedStringCharacter => "unsupported character in string",
            TokenKind::ErrorUnterminatedBlockString => "unterminated block string",
            TokenKind::Empty => "missing expected kind",
            TokenKind::Schema => "schema",
            TokenKind::Query => "query",
            TokenKind::Type => "type",
        };
        text.to_owned()
    }
}

/// Every escape that the GraphQL grammar lists, `\\["\\/bfnrt]`, is passed
/// over inside a string: the string reads on after it as it reads on after
/// any other character.
pub proof fn law_escapes_pass(s: Seq<char>, i: int)
    requires
        0 <= i,
        i + 1 < s.len(),
        s[i] == '\\',
        s[i + 1] == '"' || s[i + 1] == '\\' || s[i + 1] == '/' || s[i + 1] == 'b' || s[i + 1] == 'f'
            || s[i + 1] == 'n' || s[i + 1] == 'r' || s[i + 1] == 't',
    ensures
        scan_string(s, i) == scan_string(s, i + 2),
{
}

/// An escaped character is passed over inside a string.
proof fn lemma_escaped_char_passes(p: Seq<char>, c: char, q: Seq<char>)
    requires
        c <= '\u{FFFF}',
    ensures
        scan_string(p + escape_char(c) + q, p.len() as int) == scan_string(
            p + escape_char(c) + q,
            (p.len() + escape_char(c).len()) as int,
        ),
{
    let t = p + escape_char(c) + q;
    let i = p.len() as int;
    assert(t[i] == escape_char(c)[0]);
    if c == '"' || c == '\\' || c == '\n' || c == '\r' || c == '\t' || c == '\u{8}' || c == '\u{c}' {
        assert(t[i + 1] == escape_char(c)[1]);
    } else if (c as u32) < 0x20 {
        let n = (c as u32) as int;
        assert(t[i + 1] == 'u');
        assert(t[i + 2] == '0' && t[i + 3] == '0');
        assert(t[i + 4] == hex_digit(n / 16));
        assert(t[i + 5] == hex_digit(n % 16));
        assert(escape_len(t, i) == 6);
    } else {
        assert(is_string_char(c));
    }
}

/// What the printer writes inside quotes the lexer reads back as one whole
/// string: for every string of characters the lexer accepts, its escaped
/// text between quotes scans as one string that closes at its last quote.
pub proof fn law_escaped_strings_scan_whole(s: Seq<char>)
    requires
        forall|k: int| 0 <= k < s.len() ==> s[k] <= '\u{FFFF}',
        escaped(s).len() + 2 <= usize::MAX,
    ensures
        scan_string(seq!['"'] + escaped(s) + seq!['"'], 1) == StringEnd::Closed(
            (escaped(s).len() + 2) as usize,
        ),
{
    lemma_escaped_scan(seq!['"'], s, seq!['"']);
    let t = seq!['"'] + escaped(s) + seq!['"'];
    assert(t[(escaped(s).len() + 1) as int] == '"');
}

/// Scanning passes over the escaped text of `s`.
proof fn lemma_escaped_scan(p: Seq<char>, s: Seq<char>, q: Seq<char>)
    requires
        forall|k: int| 0 <= k < s.len() ==> s[k] <= '\u{FFFF}',
    ensures
        scan_string(p + escaped(s) + q, p.len() as int) == scan_string(
            p + escaped(s) + q,
            (p.len() + escaped(s).len()) as int,
        ),
    decreases s.len(),
{
    if s.len() > 0 {
        let rest = s.drop_first();
        assert(s =~= seq![s[0]] + rest);
        crate::text::lemma_escaped_front(s);
        let p2 = p + escape_char(s[0]);
        assert(p + escaped(s) + q =~= p + escape_char(s[0]) + (escaped(rest) + q));
        assert(p + escaped(s) + q =~= p2 + escaped(rest) + q);
        lemma_escaped_char_passes(p, s[0], escaped(rest) + q);
        assert forall|k: int| 0 <= k < rest.len() implies rest[k] <= '\u{FFFF}' by {
            assert(rest[k] == s[k + 1]);
        }
        lemma_escaped_scan(p2, rest, q);
    }
}

} // verus!

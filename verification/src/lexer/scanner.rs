//! The executable matchers of the lexical grammar.  Each one computes, on
//! the characters of the input, exactly the spec function of the same part
//! of the grammar in [`super::tokens`].
use vstd::prelude::*;

use super::tokens;
use super::tokens::{BlockStringEnd, Step, StringEnd, TokenKind};

verus! {

pub fn char_is_digit(c: char) -> (r: bool)
    ensures
        r == tokens::is_digit(c),
{
    '0' <= c && c <= '9'
}

pub fn char_is_hex_digit(c: char) -> (r: bool)
    ensures
        r == tokens::is_hex_digit(c),
{
    char_is_digit(c) || ('a' <= c && c <= 'f') || ('A' <= c && c <= 'F')
}

pub fn char_is_name_start(c: char) -> (r: bool)
    ensures
        r == tokens::is_name_start(c),
{
    ('a' <= c && c <= 'z') || ('A' <= c && c <= 'Z') || c == '_'
}

pub fn char_is_name_continue(c: char) -> (r: bool)
    ensures
        r == tokens::is_name_continue(c),
{
    char_is_name_start(c) || char_is_digit(c)
}

pub fn char_is_ignored(c: char) -> (r: bool)
    ensures
        r == tokens::is_ignored_char(c),
{
    c == ' ' || c == '\t' || c == '\r' || c == '\n' || c == '\u{0C}' || c == ','
        || c == '\u{FEFF}'
}

pub fn char_is_string_char(c: char) -> (r: bool)
    ensures
        r == tokens::is_string_char(c),
{
    c == '\t' || c == ' ' || c == '!' || ('#' <= c && c <= '[') || (']' <= c && c <= '\u{FFFF}')
}

pub fn char_is_block_string_char(c: char) -> (r: bool)
    ensures
        r == tokens::is_block_string_char(c),
{
    c == '\t' || c == '\n' || c == '\r' || (' ' <= c && c <= '\u{FFFF}')
}

pub fn char_is_escapable(c: char) -> (r: bool)
    ensures
        r == tokens::is_escapable(c),
{
    c == '"' || c == '\\' || c == '/' || c == 'b' || c == 'f' || c == 'n' || c == 'r' || c == 't'
}

fn char_at_is(s: &Vec<char>, i: usize, c: char) -> (r: bool)
    ensures
        r == tokens::char_is(s@, i as int, c),
{
    i < s.len() && s[i] == c
}

/// The length of the run of digits at `i`.
pub fn digits_from(s: &Vec<char>, i: usize) -> (n: usize)
    requires
        i <= s.len(),
    ensures
        n == tokens::digit_run(s@, i as int),
        i + n <= s.len(),
{
    let mut j = i;
    while j < s.len() && char_is_digit(s[j])
        invariant
            i <= j <= s.len(),
            tokens::digit_run(s@, i as int) == (j - i) + tokens::digit_run(s@, j as int),
        decreases s.len() - j,
    {
        j = j + 1;
    }
    j - i
}

/// The length of the run of `[a-zA-Z0-9_]` at `i`.
pub fn name_chars_from(s: &Vec<char>, i: usize) -> (n: usize)
    requires
        i <= s.len(),
    ensures
        n == tokens::name_continue_run(s@, i as int),
        i + n <= s.len(),
{
    let mut j = i;
    while j < s.len() && char_is_name_continue(s[j])
        invariant
            i <= j <= s.len(),
            tokens::name_continue_run(s@, i as int) == (j - i) + tokens::name_continue_run(s@, j as int),
        decreases s.len() - j,
    {
        j = j + 1;
    }
    j - i
}

/// The length of a comment's text from `i` up to the end of its line.
pub fn comment_chars_from(s: &Vec<char>, i: usize) -> (n: usize)
    requires
        i <= s.len(),
    ensures
        n == tokens::comment_run(s@, i as int),
        i + n <= s.len(),
{
    let mut j = i;
    while j < s.len() && s[j] != '\n' && s[j] != '\r'
        invariant
            i <= j <= s.len(),
            tokens::comment_run(s@, i as int) == (j - i) + tokens::comment_run(s@, j as int),
        decreases s.len() - j,
    {
        j = j + 1;
    }
    j - i
}

pub fn sign_width(s: &Vec<char>, i: usize) -> (n: usize)
    ensures
        n == tokens::sign_len(s@, i as int),
{
    if char_at_is(s, i, '-') {
        1
    } else {
        0
    }
}

pub fn integer_part_width(s: &Vec<char>, i: usize) -> (n: usize)
    requires
        i <= s.len(),
    ensures
        n == tokens::integer_part(s@, i as int),
        i + n <= s.len(),
{
    if char_at_is(s, i, '0') {
        1
    } else if i < s.len() && '1' <= s[i] && s[i] <= '9' {
        1 + digits_from(s, i + 1)
    } else {
        0
    }
}

pub fn fraction_width(s: &Vec<char>, i: usize) -> (n: usize)
    requires
        i <= s.len(),
    ensures
        n == tokens::fraction_part(s@, i as int),
        i + n <= s.len(),
{
    if char_at_is(s, i, '.') {
        let d = digits_from(s, i + 1);
        if d > 0 {
            1 + d
        } else {
            0
        }
    } else {
        0
    }
}

pub fn exponent_width(s: &Vec<char>, i: usize) -> (n: usize)
    requires
        i <= s.len(),
    ensures
        n == tokens::exponent_part(s@, i as int),
        i + n <= s.len(),
{
    if char_at_is(s, i, 'e') || char_at_is(s, i, 'E') {
        let j = if char_at_is(s, i + 1, '+') || char_at_is(s, i + 1, '-') {
            i + 2
        } else {
            i + 1
        };
        let d = digits_from(s, j);
        if d > 0 {
            (j - i) + d
        } else {
            0
        }
    } else {
        0
    }
}

pub fn float_suffix_width(s: &Vec<char>, i: usize) -> (n: usize)
    requires
        i <= s.len(),
    ensures
        n == tokens::float_suffix(s@, i as int),
        i + n <= s.len(),
{
    let f = fraction_width(s, i);
    if f > 0 {
        f + exponent_width(s, i + f)
    } else {
        exponent_width(s, i)
    }
}

pub fn integer_literal_width(s: &Vec<char>, p: usize) -> (n: usize)
    requires
        p < s.len(),
    ensures
        n == tokens::integer_literal_len(s@, p as int),
        p + n <= s.len(),
{
    let n = sign_width(s, p);
    let ip = integer_part_width(s, p + n);
    if ip > 0 {
        n + ip
    } else {
        0
    }
}

pub fn float_literal_width(s: &Vec<char>, p: usize) -> (n: usize)
    requires
        p < s.len(),
    ensures
        n == tokens::float_literal_len(s@, p as int),
        p + n <= s.len(),
{
    let n = sign_width(s, p);
    let ip = integer_part_width(s, p + n);
    let fs = float_suffix_width(s, p + n + ip);
    if ip > 0 && fs > 0 {
        n + ip + fs
    } else {
        0
    }
}

pub fn leading_zero_width(s: &Vec<char>, p: usize) -> (n: usize)
    requires
        p < s.len(),
    ensures
        n == tokens::leading_zero_len(s@, p as int),
        p + n <= s.len(),
{
    let n = sign_width(s, p);
    if char_at_is(s, p + n, '0') {
        let d = digits_from(s, p + n + 1);
        if d > 0 {
            n + 1 + d + float_suffix_width(s, p + n + 1 + d)
        } else {
            0
        }
    } else {
        0
    }
}

pub fn missing_zero_width(s: &Vec<char>, p: usize) -> (n: usize)
    requires
        p < s.len(),
    ensures
        n == tokens::missing_zero_len(s@, p as int),
        p + n <= s.len(),
{
    let n = sign_width(s, p);
    let f = fraction_width(s, p + n);
    if f > 0 {
        n + f + exponent_width(s, p + n + f)
    } else {
        0
    }
}

fn trailer_width(s: &Vec<char>, p: usize, end: usize) -> (n: usize)
    requires
        p <= end,
    ensures
        n == tokens::trailer_len(s@, p as int, end as int),
        n > 0 ==> p + n <= s.len(),
{
    if end < s.len() && (s[end] == '.' || char_is_name_start(s[end])) {
        end - p + 1
    } else {
        0
    }
}

pub fn trailing_invalid_width(s: &Vec<char>, p: usize) -> (n: usize)
    requires
        p < s.len(),
    ensures
        n == tokens::trailing_invalid_len(s@, p as int),
        p + n <= s.len(),
{
    let n = sign_width(s, p);
    let ip = integer_part_width(s, p + n);
    let base = p + n + ip;
    let full = base + float_suffix_width(s, base);
    let mid = base + fraction_width(s, base);
    if ip == 0 {
        0
    } else {
        let t = trailer_width(s, p, full);
        if t > 0 {
            t
        } else {
            let t = trailer_width(s, p, mid);
            if t > 0 {
                t
            } else {
                trailer_width(s, p, base)
            }
        }
    }
}

fn pick_longer(a: (TokenKind, usize), b: (TokenKind, usize)) -> (r: (TokenKind, usize))
    ensures
        r.0 == tokens::longer((a.0, a.1 as nat), (b.0, b.1 as nat)).0,
        r.1 == tokens::longer((a.0, a.1 as nat), (b.0, b.1 as nat)).1,
{
    if b.1 > a.1 {
        b
    } else {
        a
    }
}

/// The longest of the number patterns at `p`.
pub fn match_number(s: &Vec<char>, p: usize) -> (m: (TokenKind, usize))
    requires
        p < s.len(),
    ensures
        m.0 == tokens::number_match(s@, p as int).0,
        m.1 == tokens::number_match(s@, p as int).1,
        p + m.1 <= s.len(),
{
    let a = pick_longer(
        (TokenKind::FloatLiteral, float_literal_width(s, p)),
        (TokenKind::IntegerLiteral, integer_literal_width(s, p)),
    );
    let b = pick_longer(a, (TokenKind::ErrorNumberLiteralLeadingZero, leading_zero_width(s, p)));
    let c = pick_longer(
        b,
        (TokenKind::ErrorNumberLiteralTrailingInvalid, trailing_invalid_width(s, p)),
    );
    pick_longer(c, (TokenKind::ErrorFloatLiteralMissingZero, missing_zero_width(s, p)))
}

pub fn match_periods(s: &Vec<char>, p: usize) -> (m: (TokenKind, usize))
    requires
        p < s.len(),
    ensures
        m.0 == tokens::period_match(s@, p as int).0,
        m.1 == tokens::period_match(s@, p as int).1,
{
    if s.len() - p > 2 && s[p] == '.' && s[p + 1] == '.' && s[p + 2] == '.' {
        (TokenKind::Spread, 3)
    } else if s.len() - p > 1 && s[p] == '.' && s[p + 1] == '.' {
        (TokenKind::PeriodPeriod, 2)
    } else if s[p] == '.' {
        (TokenKind::Period, 1)
    } else {
        (TokenKind::Period, 0)
    }
}

pub fn punctuator_kind(c: char) -> (k: Option<TokenKind>)
    ensures
        k == tokens::punctuator(c),
{
    if c == '&' {
        Some(TokenKind::Ampersand)
    } else if c == '@' {
        Some(TokenKind::At)
    } else if c == '}' {
        Some(TokenKind::CloseBrace)
    } else if c == ']' {
        Some(TokenKind::CloseBracket)
    } else if c == ')' {
        Some(TokenKind::CloseParen)
    } else if c == ':' {
        Some(TokenKind::Colon)
    } else if c == '$' {
        Some(TokenKind::Dollar)
    } else if c == '=' {
        Some(TokenKind::Equals)
    } else if c == '!' {
        Some(TokenKind::Exclamation)
    } else if c == '{' {
        Some(TokenKind::OpenBrace)
    } else if c == '[' {
        Some(TokenKind::OpenBracket)
    } else if c == '(' {
        Some(TokenKind::OpenParen)
    } else if c == '|' {
        Some(TokenKind::Pipe)
    } else {
        None
    }
}

/// The length of the escape sequence that starts with the backslash at `i`.
pub fn escape_width(s: &Vec<char>, i: usize) -> (n: usize)
    requires
        i < s.len(),
    ensures
        n == tokens::escape_len(s@, i as int),
        i + n <= s.len(),
{
    if i + 1 < s.len() && char_is_escapable(s[i + 1]) {
        2
    } else if char_at_is(s, i + 1, 'u') && s.len() - i > 5 && char_is_hex_digit(s[i + 2])
        && char_is_hex_digit(s[i + 3]) && char_is_hex_digit(s[i + 4]) && char_is_hex_digit(
        s[i + 5],
    ) {
        6
    } else {
        0
    }
}

/// Lexes the contents of a string from `i`, just after its opening quote.
pub fn lex_string(s: &Vec<char>, i: usize) -> (r: StringEnd)
    requires
        i <= s.len(),
    ensures
        r == tokens::scan_string(s@, i as int),
{
    let mut j = i;
    loop
        invariant
            i <= j <= s.len(),
            tokens::scan_string(s@, i as int) == tokens::scan_string(s@, j as int),
        decreases s.len() - j,
    {
        if j >= s.len() {
            return StringEnd::Unterminated;
        }
        let c = s[j];
        if c == '"' {
            return StringEnd::Closed(j + 1);
        } else if c == '\n' || c == '\r' {
            return StringEnd::LineTerminator(j);
        } else if c == '\\' {
            let e = escape_width(s, j);
            if e > 0 {
                j = j + e;
            } else {
                return StringEnd::Unsupported;
            }
        } else if char_is_string_char(c) {
            j = j + 1;
        } else {
            return StringEnd::Unsupported;
        }
    }
}

fn triple_quote_at_exec(s: &Vec<char>, i: usize) -> (r: bool)
    ensures
        r == tokens::triple_quote_at(s@, i as int),
{
    i < s.len() && s.len() - i > 2 && s[i] == '"' && s[i + 1] == '"' && s[i + 2] == '"'
}

/// Lexes the contents of a block string from `i`, just after its opening
/// triple quote.
pub fn lex_block_string(s: &Vec<char>, i: usize) -> (r: BlockStringEnd)
    requires
        i <= s.len(),
    ensures
        r == tokens::scan_block_string(s@, i as int),
{
    let mut j = i;
    loop
        invariant
            i <= j <= s.len(),
            tokens::scan_block_string(s@, i as int) == tokens::scan_block_string(s@, j as int),
        decreases s.len() - j,
    {
        if j >= s.len() {
            return BlockStringEnd::Unterminated;
        }
        if s[j] == '\\' && j + 1 < s.len() && triple_quote_at_exec(s, j + 1) {
            j = j + 4;
        } else if triple_quote_at_exec(s, j) {
            return BlockStringEnd::Closed(j + 3);
        } else if char_is_block_string_char(s[j]) {
            j = j + 1;
        } else {
            return BlockStringEnd::Unsupported;
        }
    }
}

/// The step that lexing takes at `p`.
pub fn lex_step(s: &Vec<char>, p: usize) -> (r: Step)
    requires
        p < s.len(),
    ensures
        r == tokens::step_at(s@, p as int),
{
    proof {
        tokens::lemma_step_bounds(s@, p as int);
        tokens::lemma_scan_string_bounds(s@, p + 1);
        if p + 3 <= s.len() {
            tokens::lemma_scan_block_string_bounds(s@, p + 3);
        }
    }
    let c = s[p];
    if let Some(k) = punctuator_kind(c) {
        Step::Token(k, 1)
    } else if c == '"' {
        if triple_quote_at_exec(s, p) {
            match lex_block_string(s, p + 3) {
                BlockStringEnd::Closed(e) => Step::Token(TokenKind::BlockStringLiteral, e - p),
                BlockStringEnd::Unterminated => Step::Error(
                    3,
                    Some(TokenKind::ErrorUnterminatedBlockString),
                ),
                BlockStringEnd::Unsupported => Step::Unsupported,
            }
        } else {
            match lex_string(s, p + 1) {
                StringEnd::Closed(e) => Step::Token(TokenKind::StringLiteral, e - p),
                StringEnd::LineTerminator(e) => Step::Error(
                    e - p,
                    Some(TokenKind::ErrorUnterminatedString),
                ),
                StringEnd::Unsupported => Step::Error(
                    1,
                    Some(TokenKind::ErrorUnsupportedStringCharacter),
                ),
                StringEnd::Unterminated => Step::Error(1, Some(TokenKind::ErrorUnterminatedString)),
            }
        }
    } else if c == '.' {
        let m = pick_longer(
            match_periods(s, p),
            (TokenKind::ErrorFloatLiteralMissingZero, missing_zero_width(s, p)),
        );
        Step::Token(m.0, m.1)
    } else if c == '-' || char_is_digit(c) {
        let m = match_number(s, p);
        if m.1 > 0 {
            Step::Token(m.0, m.1)
        } else {
            Step::Error(1, None)
        }
    } else if char_is_name_start(c) {
        Step::Token(TokenKind::Identifier, 1 + name_chars_from(s, p + 1))
    } else {
        Step::Error(1, None)
    }
}

/// The first position at or after `p` that lexing does not skip.
pub fn skip_ignored_from(s: &Vec<char>, p: usize) -> (q: usize)
    requires
        p <= s.len(),
    ensures
        q == tokens::skip_ignored(s@, p as int),
        p <= q <= s.len(),
{
    let mut j = p;
    loop
        invariant
            p <= j <= s.len(),
            tokens::skip_ignored(s@, p as int) == tokens::skip_ignored(s@, j as int),
        decreases s.len() - j,
    {
        if j < s.len() && char_is_ignored(s[j]) {
            j = j + 1;
        } else if j < s.len() && s[j] == '#' {
            j = j + 1 + comment_chars_from(s, j + 1);
        } else {
            return j;
        }
    }
}

} // verus!

//! A lexer that keeps every character of the source: white space, line
//! terminators and the parts of numbers and strings are tokens of their own.
//! It is the lexer of the concrete syntax tree.
use vstd::prelude::*;

use crate::lexer::scanner;
use crate::lexer::tokens;

verus! {

#[derive(Debug, PartialEq, Eq, Clone, Copy, Structural)]
pub enum Token {
    Comma,
    Hash,
    // Punctuators
    Bang,
    Dollar,
    OpenParen,
    CloseParen,
    Spread,
    Colon,
    Equals,
    At,
    OpenSquare,
    CloseSquare,
    OpenCurly,
    Pipe,
    CloseCurly,
    /// `[_A-Za-z][_0-9A-Za-z]*`
    Name,
    // Numbers
    NegativeSign,
    /// `(0)|([1-9][0-9]*)`
    Number,
    /// `[eE][+-]?[0-9]+`
    ExponentPart,
    /// `\.[0-9]+`
    FractionalPart,
    Quote,
    BlockQuote,
    /// `[ \t\f]+`
    Whitespace,
    /// `\\u[0-9A-Fa-f]{4}/`
    EscapedUnicode,
    /// `\\["\\/bfnrt]`
    EscapedCharacter,
    /// `\n|(\r[^\n])|\r\n`
    LineTerminator,
}

/// `[ \t\f]`
pub open spec fn is_blank(c: char) -> bool {
    c == ' ' || c == '\t' || c == '\u{0C}'
}

/// The number of `[ \t\f]` characters in the run that starts at `i`.
pub open spec fn blank_run(s: Seq<char>, i: int) -> nat
    decreases s.len() - i,
{
    if 0 <= i < s.len() && is_blank(s[i]) {
        1 + blank_run(s, i + 1)
    } else {
        0
    }
}

/// The token made of the single character `c`, if there is one.
pub open spec fn single_char_token(c: char) -> Option<Token> {
    if c == ',' {
        Some(Token::Comma)
    } else if c == '#' {
        Some(Token::Hash)
    } else if c == '!' {
        Some(Token::Bang)
    } else if c == '$' {
        Some(Token::Dollar)
    } else if c == '(' {
        Some(Token::OpenParen)
    } else if c == ')' {
        Some(Token::CloseParen)
    } else if c == ':' {
        Some(Token::Colon)
    } else if c == '=' {
        Some(Token::Equals)
    } else if c == '@' {
        Some(Token::At)
    } else if c == '[' {
        Some(Token::OpenSquare)
    } else if c == ']' {
        Some(Token::CloseSquare)
    } else if c == '{' {
        Some(Token::OpenCurly)
    } else if c == '|' {
        Some(Token::Pipe)
    } else if c == '}' {
        Some(Token::CloseCurly)
    } else if c == '-' {
        Some(Token::NegativeSign)
    } else if c == '\n' {
        Some(Token::LineTerminator)
    } else {
        None
    }
}

/// The longest token at `p` with its length in characters; `None` where no
/// token matches.  Where a name and an exponent match the same text, the
/// exponent wins (`e5`).
pub open spec fn raw_match(s: Seq<char>, p: int) -> Option<(Token, nat)> {
    let c = s[p];
    if single_char_token(c) is Some {
        Some((single_char_token(c)->0, 1))
    } else if c == '.' {
        if tokens::char_is(s, p + 1, '.') && tokens::char_is(s, p + 2, '.') {
            Some((Token::Spread, 3))
        } else if tokens::fraction_part(s, p) > 0 {
            Some((Token::FractionalPart, tokens::fraction_part(s, p)))
        } else {
            None
        }
    } else if tokens::is_name_start(c) {
        let n = 1 + tokens::name_continue_run(s, p + 1);
        if (c == 'e' || c == 'E') && tokens::exponent_part(s, p) >= n {
            Some((Token::ExponentPart, tokens::exponent_part(s, p)))
        } else {
            Some((Token::Name, n))
        }
    } else if c == '0' {
        Some((Token::Number, 1))
    } else if '1' <= c && c <= '9' {
        Some((Token::Number, 1 + tokens::digit_run(s, p + 1)))
    } else if c == '"' {
        if tokens::triple_quote_at(s, p) {
            Some((Token::BlockQuote, 3))
        } else {
            Some((Token::Quote, 1))
        }
    } else if is_blank(c) {
        Some((Token::Whitespace, blank_run(s, p)))
    } else if c == '\\' {
        if tokens::char_is(s, p + 1, 'u') && p + 6 < s.len() && tokens::is_hex_digit(s[p + 2])
            && tokens::is_hex_digit(s[p + 3]) && tokens::is_hex_digit(s[p + 4])
            && tokens::is_hex_digit(s[p + 5]) && s[p + 6] == '/' {
            Some((Token::EscapedUnicode, 7))
        } else if p + 1 < s.len() && tokens::is_escapable(s[p + 1]) {
            Some((Token::EscapedCharacter, 2))
        } else {
            None
        }
    } else if c == '\r' {
        if p + 1 < s.len() {
            Some((Token::LineTerminator, 2))
        } else {
            None
        }
    } else {
        None
    }
}

/// What lexing yields at `p`: a token and its length, or an error that
/// passes over one character.
pub open spec fn raw_step(s: Seq<char>, p: int) -> (Result<Token, ()>, nat) {
    match raw_match(s, p) {
        Some((t, n)) => (Ok(t), n),
        None => (Err(()), 1),
    }
}

/// No blank run reaches past the end of the input.
pub proof fn lemma_blank_run_bound(s: Seq<char>, i: int)
    requires
        0 <= i <= s.len(),
    ensures
        i + blank_run(s, i) <= s.len(),
    decreases s.len() - i,
{
    if i < s.len() {
        lemma_blank_run_bound(s, i + 1);
    }
}

/// Every step passes over at least one character and stays within the input.
pub proof fn lemma_raw_step_bounds(s: Seq<char>, p: int)
    requires
        0 <= p < s.len(),
    ensures
        0 < raw_step(s, p).1,
        p + raw_step(s, p).1 <= s.len(),
{
    tokens::lemma_part_bounds(s, p);
    tokens::lemma_run_bounds(s, p + 1);
    lemma_blank_run_bound(s, p);
}

pub fn single_char_token_of(c: char) -> (r: Option<Token>)
    ensures
        r == single_char_token(c),
{
    if c == ',' {
        Some(Token::Comma)
    } else if c == '#' {
        Some(Token::Hash)
    } else if c == '!' {
        Some(Token::Bang)
    } else if c == '$' {
        Some(Token::Dollar)
    } else if c == '(' {
        Some(Token::OpenParen)
    } else if c == ')' {
        Some(Token::CloseParen)
    } else if c == ':' {
        Some(Token::Colon)
    } else if c == '=' {
        Some(Token::Equals)
    } else if c == '@' {
        Some(Token::At)
    } else if c == '[' {
        Some(Token::OpenSquare)
    } else if c == ']' {
        Some(Token::CloseSquare)
    } else if c == '{' {
        Some(Token::OpenCurly)
    } else if c == '|' {
        Some(Token::Pipe)
    } else if c == '}' {
        Some(Token::CloseCurly)
    } else if c == '-' {
        Some(Token::NegativeSign)
    } else if c == '\n' {
        Some(Token::LineTerminator)
    } else {
        None
    }
}

fn blanks_from(s: &Vec<char>, i: usize) -> (n: usize)
    requires
        i <= s.len(),
    ensures
        n == blank_run(s@, i as int),
        i + n <= s.len(),
{
    let mut j = i;
    while j < s.len() && (s[j] == ' ' || s[j] == '\t' || s[j] == '\u{0C}')
        invariant
            i <= j <= s.len(),
            blank_run(s@, i as int) == (j - i) + blank_run(s@, j as int),
        decreases s.len() - j,
    {
        j = j + 1;
    }
    j - i
}

/// The step of the lexer at `p`.
pub fn raw_token_at(s: &Vec<char>, p: usize) -> (r: (Result<Token, ()>, usize))
    requires
        p < s.len(),
    ensures
        r.0 == raw_step(s@, p as int).0,
        r.1 == raw_step(s@, p as int).1,
{
    proof {
        lemma_raw_step_bounds(s@, p as int);
    }
    let c = s[p];
    if let Some(t) = single_char_token_of(c) {
        (Ok(t), 1)
    } else if c == '.' {
        if s.len() - p > 2 && s[p + 1] == '.' && s[p + 2] == '.' {
            (Ok(Token::Spread), 3)
        } else {
            let f = scanner::fraction_width(s, p);
            if f > 0 {
                (Ok(Token::FractionalPart), f)
            } else {
                (Err(()), 1)
            }
        }
    } else if scanner::char_is_name_start(c) {
        let n = 1 + scanner::name_chars_from(s, p + 1);
        let e = scanner::exponent_width(s, p);
        if (c == 'e' || c == 'E') && e >= n {
            (Ok(Token::ExponentPart), e)
        } else {
            (Ok(Token::Name), n)
        }
    } else if c == '0' {
        (Ok(Token::Number), 1)
    } else if '1' <= c && c <= '9' {
        (Ok(Token::Number), 1 + scanner::digits_from(s, p + 1))
    } else if c == '"' {
        if s.len() - p > 2 && s[p + 1] == '"' && s[p + 2] == '"' {
            (Ok(Token::BlockQuote), 3)
        } else {
            (Ok(Token::Quote), 1)
        }
    } else if c == ' ' || c == '\t' || c == '\u{0C}' {
        (Ok(Token::Whitespace), blanks_from(s, p))
    } else if c == '\\' {
        if s.len() - p > 6 && s[p + 1] == 'u' && scanner::char_is_hex_digit(s[p + 2])
            && scanner::char_is_hex_digit(s[p + 3]) && scanner::char_is_hex_digit(s[p + 4])
            && scanner::char_is_hex_digit(s[p + 5]) && s[p + 6] == '/' {
            (Ok(Token::EscapedUnicode), 7)
        } else if s.len() - p > 1 && scanner::char_is_escapable(s[p + 1]) {
            (Ok(Token::EscapedCharacter), 2)
        } else {
            (Err(()), 1)
        }
    } else if c == '\r' {
        if s.len() - p > 1 {
            (Ok(Token::LineTerminator), 2)
        } else {
            (Err(()), 1)
        }
    } else {
        (Err(()), 1)
    }
}

/// Every step of lexing `s` from `p` to the end: the position where it
/// starts, its length and what it yields.
pub open spec fn raw_steps(s: Seq<char>, p: int) -> Seq<(int, nat, Result<Token, ()>)>
    decreases s.len() - p,
{
    if 0 <= p < s.len() {
        proof {
            lemma_raw_step_bounds(s, p);
        }
        seq![(p, raw_step(s, p).1, raw_step(s, p).0)] + raw_steps(s, p + raw_step(s, p).1)
    } else {
        seq![]
    }
}

/// A lexer that keeps every character of its source.
pub struct RawLexer {
    chars: Vec<char>,
    pos: usize,
    token_start: usize,
}

impl RawLexer {
    pub closed spec fn text(&self) -> Seq<char> {
        self.chars@
    }

    pub closed spec fn position(&self) -> int {
        self.pos as int
    }

    /// The character positions of the last token.
    pub closed spec fn token_range(&self) -> (int, int) {
        (self.token_start as int, self.pos as int)
    }

    pub closed spec fn wf(&self) -> bool {
        self.token_start <= self.pos <= self.chars.len()
    }

    pub fn new(source: &str) -> (lexer: Self)
        ensures
            lexer.wf(),
            lexer.text() == source@,
            lexer.position() == 0,
    {
        RawLexer { chars: crate::lexer::token_lexer::chars_of(source), pos: 0, token_start: 0 }
    }

    /// The next token, `None` at the end of the input.
    pub fn next(&mut self) -> (r: Option<Result<Token, ()>>)
        requires
            old(self).wf(),
        ensures
            final(self).wf(),
            final(self).text() == old(self).text(),
            old(self).position() >= old(self).text().len() ==> r is None && final(self).position()
                == old(self).position(),
            0 <= final(self).position() <= final(self).text().len(),
            old(self).position() < old(self).text().len() ==> old(self).position() < final(self).position(),
            old(self).position() < old(self).text().len() ==> {
                let step = raw_step(old(self).text(), old(self).position());
                &&& r == Some(step.0)
                &&& final(self).token_range() == (old(self).position(), old(self).position() + step.1)
                &&& final(self).position() == old(self).position() + step.1
            },
    {
        if self.pos >= self.chars.len() {
            return None;
        }
        let (t, n) = raw_token_at(&self.chars, self.pos);
        proof {
            lemma_raw_step_bounds(self.chars@, self.pos as int);
        }
        self.token_start = self.pos;
        self.pos = self.pos + n;
        Some(t)
    }

    /// The text of the last token.
    pub fn slice(&self) -> (r: String)
        requires
            self.wf(),
        ensures
            r@ == self.text().subrange(self.token_range().0, self.token_range().1),
    {
        let mut text = String::new();
        let mut i = self.token_start;
        while i < self.pos
            invariant
                self.wf(),
                self.token_start <= i <= self.pos,
                text@ == self.chars@.subrange(self.token_start as int, i as int),
            decreases self.pos - i,
        {
            crate::text::push_char(&mut text, self.chars[i]);
            proof {
                assert(self.chars@.subrange(self.token_start as int, i + 1) =~= self.chars@.subrange(
                    self.token_start as int,
                    i as int,
                ).push(self.chars@[i as int]));
            }
            i = i + 1;
        }
        text
    }
}

impl Token {
    pub fn lexer(source: &str) -> (lexer: RawLexer)
        ensures
            lexer.wf(),
            lexer.text() == source@,
            lexer.position() == 0,
    {
        RawLexer::new(source)
    }
}

/// Lexes all of `source`: what each step yields, in order.
pub fn lex_all(source: &str) -> (r: Vec<Result<Token, ()>>)
    ensures
        r.len() == raw_steps(source@, 0).len(),
        forall|i: int| 0 <= i < r.len() ==> r[i] == (#[trigger] raw_steps(source@, 0)[i]).2,
{
    let mut lexer = Token::lexer(source);
    let mut out: Vec<Result<Token, ()>> = Vec::new();
    let ghost s = source@;
    let ghost all = raw_steps(s, 0);
    loop
        invariant
            lexer.wf(),
            lexer.text() == s,
            s == source@,
            0 <= lexer.position() <= s.len(),
            all == raw_steps(s, 0),
            out.len() + raw_steps(s, lexer.position()).len() == all.len(),
            all.skip(out.len() as int) == raw_steps(s, lexer.position()),
            forall|i: int| 0 <= i < out.len() ==> out[i] == (#[trigger] all[i]).2,
        decreases s.len() - lexer.position(),
    {
        let ghost p = lexer.position();
        match lexer.next() {
            None => {
                assert(raw_steps(s, p) =~= Seq::<(int, nat, Result<Token, ()>)>::empty());
                return out;
            },
            Some(t) => {
                proof {
                    lemma_raw_step_bounds(s, p);
                    let k = out.len() as int;
                    assert(all[k] == all.skip(k)[0]);
                    assert(all.skip(k + 1) =~= all.skip(k).skip(1));
                    assert(raw_steps(s, p).skip(1) =~= raw_steps(s, lexer.position()));
                }
                out.push(t);
            },
        }
    }
}

} // verus!

//! A lexer over a source text that hands out one [`Token`] at a time, with
//! the span and the text of the last one.
use vstd::prelude::*;
use vstd::utf8::encode_utf8;

use super::scanner;
use super::tokens;
use super::tokens::{Step, Token, TokenExtras, TokenKind};

verus! {

/// The byte offset of the character position `i` in the UTF-8 encoding of `s`.
pub open spec fn byte_offset(s: Seq<char>, i: int) -> nat {
    encode_utf8(s.take(i)).len()
}

/// The UTF-8 encoding of a concatenation is the concatenation of the encodings.
pub proof fn lemma_encode_concat(a: Seq<char>, b: Seq<char>)
    ensures
        encode_utf8(a + b) == encode_utf8(a) + encode_utf8(b),
    decreases a.len(),
{
    if a.len() == 0 {
        assert(a + b =~= b);
        assert(encode_utf8(a) =~= Seq::<u8>::empty());
        assert(encode_utf8(a + b) =~= encode_utf8(a) + encode_utf8(b));
    } else {
        lemma_encode_concat(a.drop_first(), b);
        assert((a + b).drop_first() =~= a.drop_first() + b);
        assert((a + b)[0] == a[0]);
        assert(encode_utf8(a + b) =~= encode_utf8(a) + encode_utf8(b));
    }
}

/// The byte offset of the next position adds the width of one character.
pub proof fn lemma_byte_offset_step(s: Seq<char>, i: int)
    requires
        0 <= i < s.len(),
    ensures
        byte_offset(s, i + 1) == byte_offset(s, i) + vstd::utf8::encode_scalar(s[i] as u32).len(),
{
    let one = seq![s[i]];
    assert(s.take(i + 1) =~= s.take(i) + one);
    lemma_encode_concat(s.take(i), one);
    assert(one.drop_first() =~= Seq::<char>::empty());
    assert(encode_utf8(Seq::<char>::empty()) =~= Seq::<u8>::empty());
    assert(encode_utf8(one) =~= vstd::utf8::encode_scalar(s[i] as u32));
}

/// Byte offsets grow with character positions, up to the length of the encoding.
pub proof fn lemma_byte_offset_monotone(s: Seq<char>, i: int, j: int)
    requires
        0 <= i <= j <= s.len(),
    ensures
        byte_offset(s, i) <= byte_offset(s, j),
        byte_offset(s, j) <= encode_utf8(s).len(),
{
    assert(s.take(j) =~= s.take(i) + s.subrange(i, j));
    lemma_encode_concat(s.take(i), s.subrange(i, j));
    assert(s =~= s.take(j) + s.subrange(j, s.len() as int));
    lemma_encode_concat(s.take(j), s.subrange(j, s.len() as int));
}

/// Every character takes at least one byte.
pub proof fn lemma_encode_len_at_least(s: Seq<char>)
    ensures
        s.len() <= encode_utf8(s).len(),
    decreases s.len(),
{
    if s.len() > 0 {
        lemma_encode_len_at_least(s.drop_first());
    }
}

/// The number of bytes that encode `c` in UTF-8.
pub fn utf8_width(c: char) -> (n: usize)
    ensures
        n == vstd::utf8::encode_scalar(c as u32).len(),
{
    proof {
        vstd::utf8::char_is_scalar(c);
    }
    let v = c as u32;
    if v <= 0x7F {
        1
    } else if v <= 0x7FF {
        2
    } else if v <= 0xFFFF {
        3
    } else {
        4
    }
}

/// The byte offset of character position `to`, from that of `from`.
pub(crate) fn advance_bytes(chars: &Vec<char>, from: usize, from_byte: usize, to: usize) -> (b: usize)
    requires
        from <= to <= chars.len(),
        from_byte == byte_offset(chars@, from as int),
        encode_utf8(chars@).len() <= usize::MAX,
    ensures
        b == byte_offset(chars@, to as int),
{
    let mut i = from;
    let mut b = from_byte;
    while i < to
        invariant
            from <= i <= to <= chars.len(),
            b == byte_offset(chars@, i as int),
            encode_utf8(chars@).len() <= usize::MAX,
        decreases to - i,
    {
        proof {
            lemma_byte_offset_step(chars@, i as int);
            lemma_byte_offset_monotone(chars@, i + 1, chars.len() as int);
        }
        b = b + utf8_width(chars[i]);
        i = i + 1;
    }
    b
}

/// The characters of `source`, in order.
pub fn chars_of(source: &str) -> (v: Vec<char>)
    ensures
        v@ == source@,
{
    let mut v: Vec<char> = Vec::new();
    for c in it: source.chars()
        invariant
            v@ == it.seq().take(it.index() as int),
            it.seq() == source@,
    {
        v.push(c);
    }
    v
}

/// Byte offsets strictly grow with character positions.
pub proof fn lemma_byte_offset_strict(s: Seq<char>, i: int, j: int)
    requires
        0 <= i < j <= s.len(),
    ensures
        byte_offset(s, i) < byte_offset(s, j),
{
    lemma_byte_offset_step(s, i);
    lemma_byte_offset_monotone(s, i + 1, j);
}

/// The characters among the first `k` of `s` whose byte offsets lie in
/// `start..end`.
pub open spec fn chars_within(s: Seq<char>, start: int, end: int, k: int) -> Seq<char>
    decreases k,
{
    if k <= 0 {
        Seq::empty()
    } else {
        let rest = chars_within(s, start, end, k - 1);
        if start <= byte_offset(s, k - 1) < end {
            rest.push(s[k - 1])
        } else {
            rest
        }
    }
}

/// Where `start` and `end` are the byte offsets of positions `i` and `j`,
/// the characters within them are those from `i` up to `j`.
pub proof fn lemma_chars_within(s: Seq<char>, i: int, j: int, k: int)
    requires
        0 <= i <= j <= s.len(),
        0 <= k <= s.len(),
    ensures
        chars_within(s, byte_offset(s, i) as int, byte_offset(s, j) as int, k) == if k <= i {
            Seq::<char>::empty()
        } else if k <= j {
            s.subrange(i, k)
        } else {
            s.subrange(i, j)
        },
    decreases k,
{
    if k > 0 {
        lemma_chars_within(s, i, j, k - 1);
        let o = byte_offset(s, k - 1);
        if k - 1 < i {
            lemma_byte_offset_strict(s, k - 1, i);
        } else if k - 1 < j {
            lemma_byte_offset_monotone(s, i, k - 1);
            lemma_byte_offset_strict(s, k - 1, j);
            assert(s.subrange(i, k) =~= s.subrange(i, k - 1).push(s[k - 1]));
        } else {
            lemma_byte_offset_monotone(s, j, k - 1);
        }
    }
}

/// The text of `source` between the byte offsets `start` and `end`.
pub fn text_between(source: &str, start: usize, end: usize) -> (text: String)
    requires
        encode_utf8(source@).len() <= usize::MAX,
    ensures
        text@ == chars_within(source@, start as int, end as int, source@.len() as int),
        forall|i: int, j: int|
            0 <= i <= j <= source@.len() && byte_offset(source@, i) == start && byte_offset(
                source@,
                j,
            ) == end ==> text@ == source@.subrange(i, j),
{
    let chars = chars_of(source);
    let mut text = String::new();
    let mut k: usize = 0;
    let mut b: usize = 0;
    proof {
        assert(chars@.take(0) =~= Seq::<char>::empty());
        assert(encode_utf8(Seq::<char>::empty()) =~= Seq::<u8>::empty());
    }
    while k < chars.len()
        invariant
            chars@ == source@,
            k <= chars.len(),
            encode_utf8(chars@).len() <= usize::MAX,
            b == byte_offset(chars@, k as int),
            text@ == chars_within(chars@, start as int, end as int, k as int),
        decreases chars.len() - k,
    {
        if start <= b && b < end {
            crate::text::push_char(&mut text, chars[k]);
        }
        proof {
            lemma_byte_offset_step(chars@, k as int);
            lemma_byte_offset_monotone(chars@, k + 1, chars.len() as int);
        }
        b = b + utf8_width(chars[k]);
        k = k + 1;
    }
    proof {
        assert forall|i: int, j: int|
            0 <= i <= j <= source@.len() && byte_offset(source@, i) == start && byte_offset(
                source@,
                j,
            ) == end implies text@ == source@.subrange(i, j) by {
            lemma_chars_within(source@, i, j, source@.len() as int);
        }
    }
    text
}

/// The token of a kind that carries no text.
pub fn token_of_kind(kind: TokenKind) -> (t: Token)
    requires
        kind != TokenKind::Identifier,
    ensures
        tokens::kind_of(t) == kind,
{
    match kind {
        TokenKind::ErrorUnterminatedString => Token::ErrorUnterminatedString,
        TokenKind::ErrorUnsupportedStringCharacter => Token::ErrorUnsupportedStringCharacter,
        TokenKind::ErrorUnterminatedBlockString => Token::ErrorUnterminatedBlockString,
        TokenKind::Empty => Token::Empty,
        TokenKind::Ampersand => Token::Ampersand,
        TokenKind::At => Token::At,
        TokenKind::CloseBrace => Token::CloseBrace,
        TokenKind::CloseBracket => Token::CloseBracket,
        TokenKind::CloseParen => Token::CloseParen,
        TokenKind::Colon => Token::Colon,
        TokenKind::Dollar => Token::Dollar,
        TokenKind::EndOfFile => Token::EndOfFile,
        TokenKind::Equals => Token::Equals,
        TokenKind::Exclamation => Token::Exclamation,
        TokenKind::Schema => Token::Schema,
        TokenKind::Query => Token::Query,
        TokenKind::Type => Token::Type,
        TokenKind::FloatLiteral => Token::FloatLiteral,
        TokenKind::Identifier => Token::Empty,
        TokenKind::IntegerLiteral => Token::IntegerLiteral,
        TokenKind::ErrorNumberLiteralLeadingZero => Token::ErrorNumberLiteralLeadingZero,
        TokenKind::ErrorNumberLiteralTrailingInvalid => Token::ErrorNumberLiteralTrailingInvalid,
        TokenKind::ErrorFloatLiteralMissingZero => Token::ErrorFloatLiteralMissingZero,
        TokenKind::OpenBrace => Token::OpenBrace,
        TokenKind::OpenBracket => Token::OpenBracket,
        TokenKind::OpenParen => Token::OpenParen,
        TokenKind::Period => Token::Period,
        TokenKind::PeriodPeriod => Token::PeriodPeriod,
        TokenKind::Pipe => Token::Pipe,
        TokenKind::Spread => Token::Spread,
        TokenKind::StringLiteral => Token::StringLiteral,
        TokenKind::BlockStringLiteral => Token::BlockStringLiteral,
    }
}

/// A lexer over `source`: [`TokenLexer::next`] takes the next token,
/// [`TokenLexer::span`] and [`TokenLexer::slice`] tell where it stood.
pub struct TokenLexer<'a> {
    source: &'a str,
    chars: Vec<char>,
    pos: usize,
    byte_pos: usize,
    token_start: usize,
    token_end: usize,
    span_start: usize,
    span_end: usize,
    /// The reason why the last string or block string failed to lex.
    pub extras: TokenExtras,
}

impl<'a> TokenLexer<'a> {
    /// The characters of the source text.
    pub closed spec fn text(&self) -> Seq<char> {
        self.source@
    }

    /// The character position up to which the source has been lexed.
    pub closed spec fn position(&self) -> int {
        self.pos as int
    }

    /// The character positions of the last token (or error).
    pub closed spec fn token_range(&self) -> (int, int) {
        (self.token_start as int, self.token_end as int)
    }

    /// The reason recorded for the last string or block string that failed.
    pub closed spec fn recorded_error(&self) -> Option<Token> {
        self.extras.error_token
    }

    pub closed spec fn wf(&self) -> bool {
        &&& self.chars@ == self.source@
        &&& self.token_start <= self.token_end <= self.pos <= self.chars.len()
        &&& encode_utf8(self.chars@).len() <= usize::MAX
        &&& self.byte_pos == byte_offset(self.chars@, self.pos as int)
        &&& self.span_start == byte_offset(self.chars@, self.token_start as int)
        &&& self.span_end == byte_offset(self.chars@, self.token_end as int)
    }

    /// Starts lexing `source` from its beginning.
    pub fn new(source: &'a str) -> (lexer: Self)
        requires
            encode_utf8(source@).len() <= usize::MAX,
        ensures
            lexer.wf(),
            lexer.text() == source@,
            lexer.position() == 0,
            lexer.token_range() == (0int, 0int),
            lexer.recorded_error() is None,
    {
        let chars = chars_of(source);
        proof {
            assert(chars@.take(0) =~= Seq::<char>::empty());
            assert(encode_utf8(Seq::<char>::empty()) =~= Seq::<u8>::empty());
        }
        TokenLexer {
            source,
            chars,
            pos: 0,
            byte_pos: 0,
            token_start: 0,
            token_end: 0,
            span_start: 0,
            span_end: 0,
            extras: TokenExtras { error_token: None },
        }
    }

    /// Whether the next call of [`TokenLexer::next`] can be made: it can,
    /// unless the next token is a block string that holds a character that
    /// no block string token accepts.
    pub open spec fn can_lex_next(&self) -> bool {
        match tokens::next_step(self.text(), self.position()) {
            Some((_, step)) => !(step is Unsupported),
            None => true,
        }
    }

    /// Whether the next step is defined; see [`TokenLexer::can_lex_next`].
    pub fn next_is_lexable(&self) -> (r: bool)
        requires
            self.wf(),
        ensures
            r == self.can_lex_next(),
    {
        let q = scanner::skip_ignored_from(&self.chars, self.pos);
        if q < self.chars.len() {
            match scanner::lex_step(&self.chars, q) {
                Step::Unsupported => false,
                _ => true,
            }
        } else {
            true
        }
    }

    /// Takes the next token: `None` at the end of the input, `Some(Err(()))`
    /// where no token matches (and, for a string or block string, the reason
    /// is recorded in `extras`).
    pub fn next(&mut self) -> (r: Option<Result<Token, ()>>)
        requires
            old(self).wf(),
            old(self).can_lex_next(),
        ensures
            final(self).wf(),
            final(self).text() == old(self).text(),
            final(self).position() == match tokens::next_step(old(self).text(), old(self).position()) {
                Some((q, step)) => q + tokens::step_len(step),
                None => tokens::skip_ignored(old(self).text(), old(self).position()),
            },
            match tokens::next_step(old(self).text(), old(self).position()) {
                None => {
                    &&& r is None
                    &&& final(self).recorded_error() == old(self).recorded_error()
                },
                Some((q, Step::Token(kind, n))) => {
                    &&& r matches Some(Ok(t))
                    &&& tokens::kind_of(t) == kind
                    &&& (t matches Token::Identifier(name) ==> name@ == old(self).text().subrange(q, q + n))
                    &&& final(self).token_range() == (q, q + n)
                    &&& final(self).recorded_error() == old(self).recorded_error()
                },
                Some((q, Step::Error(n, reason))) => {
                    &&& r == Some(Err::<Token, ()>(()))
                    &&& final(self).token_range() == (q, q + n)
                    &&& match reason {
                        Some(kind) => final(self).recorded_error() matches Some(t) && tokens::kind_of(t) == kind,
                        None => final(self).recorded_error() == old(self).recorded_error(),
                    }
                },
                Some((_, Step::Unsupported)) => false,
            },
    {
        let q = scanner::skip_ignored_from(&self.chars, self.pos);
        let qb = advance_bytes(&self.chars, self.pos, self.byte_pos, q);
        if q >= self.chars.len() {
            self.pos = q;
            self.byte_pos = qb;
            self.token_start = q;
            self.token_end = q;
            self.span_start = qb;
            self.span_end = qb;
            return None;
        }
        proof {
            tokens::lemma_step_bounds(self.chars@, q as int);
        }
        let step = scanner::lex_step(&self.chars, q);
        match step {
            Step::Token(kind, n) => {
                let end = q + n;
                let eb = advance_bytes(&self.chars, q, qb, end);
                self.pos = end;
                self.byte_pos = eb;
                self.token_start = q;
                self.token_end = end;
                self.span_start = qb;
                self.span_end = eb;
                match kind {
                    TokenKind::Identifier => {
                        let name = self.source.substring_char(q, end).to_owned();
                        Some(Ok(Token::Identifier(name)))
                    },
                    _ => Some(Ok(token_of_kind(kind))),
                }
            },
            Step::Error(n, reason) => {
                let end = q + n;
                let eb = advance_bytes(&self.chars, q, qb, end);
                self.pos = end;
                self.byte_pos = eb;
                self.token_start = q;
                self.token_end = end;
                self.span_start = qb;
                self.span_end = eb;
                match reason {
                    Some(kind) => {
                        self.extras.error_token = Some(token_of_kind(kind));
                    },
                    None => {},
                }
                Some(Err(()))
            },
            Step::Unsupported => None,
        }
    }

    /// The byte range of the last token (or error) in the source text.
    pub fn span(&self) -> (r: std::ops::Range<usize>)
        requires
            self.wf(),
        ensures
            r.start == byte_offset(self.text(), self.token_range().0),
            r.end == byte_offset(self.text(), self.token_range().1),
    {
        self.span_start..self.span_end
    }

    /// The text of the last token (or error).
    pub fn slice(&self) -> (r: &'a str)
        requires
            self.wf(),
        ensures
            r@ == self.text().subrange(self.token_range().0, self.token_range().1),
    {
        self.source.substring_char(self.token_start, self.token_end)
    }
}

impl Token {
    /// A lexer over `source`.
    pub fn lexer<'a>(source: &'a str) -> (lexer: TokenLexer<'a>)
        requires
            encode_utf8(source@).len() <= usize::MAX,
        ensures
            lexer.wf(),
            lexer.text() == source@,
            lexer.position() == 0,
            lexer.token_range() == (0int, 0int),
            lexer.recorded_error() is None,
    {
        TokenLexer::new(source)
    }
}

} // verus!

//! The tokens of schema coordinates.  Ignored characters and comments are
//! skipped as in documents.
use vstd::prelude::*;
use vstd::utf8::encode_utf8;

use crate::lexer::scanner;
use crate::lexer::token_lexer::{self, byte_offset};
use crate::lexer::tokens;
use crate::lexer::LexicalError;
use crate::parser::AdditionalErrors;

verus! {

#[derive(Clone, Debug, Eq, PartialEq)]
pub enum Token {
    At,
    CloseParen,
    Colon,
    Identifier(String),
    OpenParen,
    Dot,
}

/// The kind of a [`Token`], without the text of an identifier.
#[derive(Clone, Copy, Debug, Eq, PartialEq, Structural)]
pub enum CoordinateTokenKind {
    At,
    CloseParen,
    Colon,
    Identifier,
    OpenParen,
    Dot,
}

pub open spec fn kind_of(token: Token) -> CoordinateTokenKind {
    match token {
        Token::At => CoordinateTokenKind::At,
        Token::CloseParen => CoordinateTokenKind::CloseParen,
        Token::Colon => CoordinateTokenKind::Colon,
        Token::Identifier(_) => CoordinateTokenKind::Identifier,
        Token::OpenParen => CoordinateTokenKind::OpenParen,
        Token::Dot => CoordinateTokenKind::Dot,
    }
}

/// How a token is described in messages.
pub open spec fn token_message(kind: CoordinateTokenKind) -> Seq<char> {
    match kind {
        CoordinateTokenKind::At => "at ('@')"@,
        CoordinateTokenKind::CloseParen => "closing paren (')')"@,
        CoordinateTokenKind::Colon => "colon (':')"@,
        CoordinateTokenKind::Identifier => "identifier"@,
        CoordinateTokenKind::OpenParen => "opening paren ('(')"@,
        CoordinateTokenKind::Dot => "dot ('.')"@,
    }
}

impl Token {
    pub fn kind(&self) -> (kind: CoordinateTokenKind)
        ensures
            kind == kind_of(*self),
    {
        match self {
            Token::At => CoordinateTokenKind::At,
            Token::CloseParen => CoordinateTokenKind::CloseParen,
            Token::Colon => CoordinateTokenKind::Colon,
            Token::Identifier(_) => CoordinateTokenKind::Identifier,
            Token::OpenParen => CoordinateTokenKind::OpenParen,
            Token::Dot => CoordinateTokenKind::Dot,
        }
    }

    /// The description of this token in messages.
    pub fn to_string(&self) -> (message: String)
        ensures
            message@ == token_message(kind_of(*self)),
    {
        let text = match self.kind() {
            CoordinateTokenKind::At => "at ('@')",
            CoordinateTokenKind::CloseParen => "closing paren (')')",
            CoordinateTokenKind::Colon => "colon (':')",
            CoordinateTokenKind::Identifier => "identifier",
            CoordinateTokenKind::OpenParen => "opening paren ('(')",
            CoordinateTokenKind::Dot => "dot ('.')",
        };
        text.to_owned()
    }
}

/// The token at `p` and its length in characters, `None` where no token
/// matches (lexing then passes over one character).
pub open spec fn coordinate_step(s: Seq<char>, p: int) -> Option<(CoordinateTokenKind, nat)> {
    let c = s[p];
    if c == '@' {
        Some((CoordinateTokenKind::At, 1))
    } else if c == ')' {
        Some((CoordinateTokenKind::CloseParen, 1))
    } else if c == ':' {
        Some((CoordinateTokenKind::Colon, 1))
    } else if c == '(' {
        Some((CoordinateTokenKind::OpenParen, 1))
    } else if c == '.' {
        Some((CoordinateTokenKind::Dot, 1))
    } else if tokens::is_name_start(c) {
        Some((CoordinateTokenKind::Identifier, 1 + tokens::name_continue_run(s, p + 1)))
    } else {
        None
    }
}

pub open spec fn coordinate_step_len(s: Seq<char>, p: int) -> nat {
    match coordinate_step(s, p) {
        Some((_, n)) => n,
        None => 1,
    }
}

/// Each token or error of lexing `s` from `p`: where it starts, with the token found.
pub open spec fn coordinate_steps(s: Seq<char>, p: int) -> Seq<(int, Option<(CoordinateTokenKind, nat)>)>
    decreases s.len() - p,
{
    if 0 <= p <= s.len() {
        let q = tokens::skip_ignored(s, p);
        if 0 <= q < s.len() {
            proof {
                tokens::lemma_skip_bounds(s, p);
                tokens::lemma_run_bounds(s, q + 1);
            }
            seq![(q, coordinate_step(s, q))] + coordinate_steps(s, q + coordinate_step_len(s, q))
        } else {
            seq![]
        }
    } else {
        seq![]
    }
}

/// A token with its byte span, or an error.
pub type CoordinateItem = Result<(usize, Token, usize), AdditionalErrors>;

/// What lexing hands out for a step at `q`.
pub open spec fn spanned_coordinate(s: Seq<char>, q: int, found: Option<(CoordinateTokenKind, nat)>, item: CoordinateItem) -> bool {
    match found {
        Some((kind, n)) => {
            &&& item matches Ok((start, t, end))
            &&& start == byte_offset(s, q)
            &&& end == byte_offset(s, q + n)
            &&& kind_of(t) == kind
            &&& (t matches Token::Identifier(name) ==> name@ == s.subrange(q, q + n))
        },
        None => item == Err::<(usize, Token, usize), AdditionalErrors>(
            AdditionalErrors::Lexical(LexicalError::InvalidToken),
        ),
    }
}

/// `items` are what lexing all of `s` hands out, in order.
pub open spec fn coordinates_lexed(s: Seq<char>, items: Seq<CoordinateItem>) -> bool {
    &&& items.len() == coordinate_steps(s, 0).len()
    &&& forall|i: int|
        0 <= i < items.len() ==> spanned_coordinate(
            s,
            #[trigger] coordinate_steps(s, 0)[i].0,
            coordinate_steps(s, 0)[i].1,
            items[i],
        )
}

fn coordinate_step_at(s: &Vec<char>, p: usize) -> (r: Option<(CoordinateTokenKind, usize)>)
    requires
        p < s.len(),
    ensures
        match coordinate_step(s@, p as int) {
            Some((kind, n)) => r == Some((kind, n as usize)) && p + n <= s.len(),
            None => r is None,
        },
{
    proof {
        tokens::lemma_run_bounds(s@, p + 1);
    }
    let c = s[p];
    if c == '@' {
        Some((CoordinateTokenKind::At, 1))
    } else if c == ')' {
        Some((CoordinateTokenKind::CloseParen, 1))
    } else if c == ':' {
        Some((CoordinateTokenKind::Colon, 1))
    } else if c == '(' {
        Some((CoordinateTokenKind::OpenParen, 1))
    } else if c == '.' {
        Some((CoordinateTokenKind::Dot, 1))
    } else if scanner::char_is_name_start(c) {
        Some((CoordinateTokenKind::Identifier, 1 + scanner::name_chars_from(s, p + 1)))
    } else {
        None
    }
}

/// Lexes all of `input`.
pub fn lex_coordinate(input: &str) -> (items: Vec<CoordinateItem>)
    requires
        encode_utf8(input@).len() <= usize::MAX,
    ensures
        coordinates_lexed(input@, items@),
{
    let chars = token_lexer::chars_of(input);
    let ghost s = input@;
    let ghost all = coordinate_steps(s, 0);
    let mut items: Vec<CoordinateItem> = Vec::new();
    let mut pos: usize = 0;
    let mut bytes: usize = 0;
    proof {
        assert(chars@.take(0) =~= Seq::<char>::empty());
        assert(encode_utf8(Seq::<char>::empty()) =~= Seq::<u8>::empty());
    }
    loop
        invariant
            chars@ == s,
            s == input@,
            pos <= chars.len(),
            encode_utf8(s).len() <= usize::MAX,
            bytes == byte_offset(s, pos as int),
            all == coordinate_steps(s, 0),
            items.len() + coordinate_steps(s, pos as int).len() == all.len(),
            all.skip(items.len() as int) == coordinate_steps(s, pos as int),
            forall|i: int| 0 <= i < items.len() ==> spanned_coordinate(s, #[trigger] all[i].0, all[i].1, items[i]),
        decreases chars.len() - pos,
    {
        let q = scanner::skip_ignored_from(&chars, pos);
        proof {
            tokens::lemma_skip_bounds(s, pos as int);
        }
        if q >= chars.len() {
            proof {
                assert(coordinate_steps(s, pos as int) =~= Seq::<(int, Option<(CoordinateTokenKind, nat)>)>::empty());
            }
            return items;
        }
        let qb = token_lexer::advance_bytes(&chars, pos, bytes, q);
        let found = coordinate_step_at(&chars, q);
        let n: usize = match found {
            Some((_, n)) => n,
            None => 1,
        };
        let end = q + n;
        let eb = token_lexer::advance_bytes(&chars, q, qb, end);
        let item: CoordinateItem = match found {
            Some((kind, _)) => {
                let token = match kind {
                    CoordinateTokenKind::At => Token::At,
                    CoordinateTokenKind::CloseParen => Token::CloseParen,
                    CoordinateTokenKind::Colon => Token::Colon,
                    CoordinateTokenKind::OpenParen => Token::OpenParen,
                    CoordinateTokenKind::Dot => Token::Dot,
                    CoordinateTokenKind::Identifier => Token::Identifier(input.substring_char(q, end).to_owned()),
                };
                Ok((qb, token, eb))
            },
            None => Err(AdditionalErrors::Lexical(LexicalError::InvalidToken)),
        };
        proof {
            let k = items.len() as int;
            assert(all[k] == all.skip(k)[0]);
            assert(all.skip(k + 1) =~= all.skip(k).skip(1));
            assert(coordinate_steps(s, pos as int).skip(1) =~= coordinate_steps(s, end as int));
        }
        items.push(item);
        pos = end;
        bytes = eb;
    }
}

} // verus!

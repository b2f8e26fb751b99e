pub mod scanner;
pub mod token_lexer;
pub mod tokens;

pub use token_lexer::TokenLexer;
pub use tokens::{BlockStringToken, StringToken, Token, TokenExtras, TokenKind};

use vstd::prelude::*;
use vstd::utf8::encode_utf8;

use tokens::Step;

verus! {

/// A token together with the byte offsets where it starts and ends, or an error.
pub type Spanned<Tok, Loc, Error> = Result<(Loc, Tok, Loc), Error>;

#[derive(Debug, Clone, Copy, PartialEq, Eq)]
pub enum LexicalError {
    InvalidToken,
}

/// What lexing hands out for a step at `q` of `s`: the token with its byte
/// span, or an invalid token.
pub open spec fn spanned_step(s: Seq<char>, q: int, step: Step, item: Spanned<Token, usize, LexicalError>) -> bool {
    match step {
        Step::Token(kind, n) => {
            &&& item matches Ok((start, t, end))
            &&& start == token_lexer::byte_offset(s, q)
            &&& end == token_lexer::byte_offset(s, q + n)
            &&& tokens::kind_of(t) == kind
            &&& (t matches Token::Identifier(name) ==> name@ == s.subrange(q, q + n))
        },
        Step::Error(_, _) => item == Err::<(usize, Token, usize), LexicalError>(LexicalError::InvalidToken),
        Step::Unsupported => false,
    }
}

/// `items` are what lexing all of `s` hands out, one per step, in order.
pub open spec fn lexed(s: Seq<char>, items: Seq<Spanned<Token, usize, LexicalError>>) -> bool {
    &&& items.len() == tokens::lex_steps(s, 0).len()
    &&& forall|i: int|
        0 <= i < items.len() ==> spanned_step(
            s,
            #[trigger] tokens::lex_steps(s, 0)[i].0,
            tokens::lex_steps(s, 0)[i].1,
            items[i],
        )
}

/// A lexer that hands out tokens with their byte spans.
pub struct Lexer<'input> {
    token_stream: TokenLexer<'input>,
}

impl<'input> Lexer<'input> {
    pub closed spec fn text(&self) -> Seq<char> {
        self.token_stream.text()
    }

    pub closed spec fn position(&self) -> int {
        self.token_stream.position()
    }

    pub closed spec fn wf(&self) -> bool {
        self.token_stream.wf()
    }

    pub fn new(input: &'input str) -> (lexer: Self)
        requires
            encode_utf8(input@).len() <= usize::MAX,
        ensures
            lexer.wf(),
            lexer.text() == input@,
            lexer.position() == 0,
    {
        Self { token_stream: Token::lexer(input) }
    }

    /// Whether the next step of lexing is defined: it is not a block string
    /// holding a character that no block string token accepts.
    pub fn next_is_lexable(&self) -> (r: bool)
        requires
            self.wf(),
        ensures
            r == match tokens::next_step(self.text(), self.position()) {
                Some((_, step)) => !(step is Unsupported),
                None => true,
            },
    {
        self.token_stream.next_is_lexable()
    }

    /// The next token with its span: `None` at the end of the input.
    pub fn next(&mut self) -> (r: Option<Spanned<Token, usize, LexicalError>>)
        requires
            old(self).wf(),
            match tokens::next_step(old(self).text(), old(self).position()) {
                Some((_, step)) => !(step is Unsupported),
                None => true,
            },
        ensures
            final(self).wf(),
            final(self).text() == old(self).text(),
            match tokens::next_step(old(self).text(), old(self).position()) {
                None => r is None,
                Some((q, step)) => {
                    &&& r matches Some(item)
                    &&& spanned_step(old(self).text(), q, step, item)
                    &&& final(self).position() == q + tokens::step_len(step)
                },
            },
    {
        match self.token_stream.next() {
            None => None,
            Some(Ok(token)) => {
                let span = self.token_stream.span();
                Some(Ok((span.start, token, span.end)))
            },
            Some(Err(_)) => Some(Err(LexicalError::InvalidToken)),
        }
    }
}

/// One step of lexing `s` from `p`, unfolded.
proof fn lemma_lex_steps_unfold(s: Seq<char>, p: int)
    requires
        0 <= p <= s.len(),
        s.len() <= usize::MAX,
    ensures
        match tokens::next_step(s, p) {
            None => tokens::lex_steps(s, p) == Seq::<(int, Step)>::empty(),
            Some((q, step)) => {
                &&& p <= q < s.len()
                &&& !(step is Unsupported) ==> {
                    &&& 0 < tokens::step_len(step)
                    &&& q + tokens::step_len(step) <= s.len()
                    &&& tokens::lex_steps(s, p) == seq![(q, step)] + tokens::lex_steps(s, q + tokens::step_len(step))
                }
                &&& step is Unsupported ==> tokens::lex_steps(s, p) == seq![(q, step)]
            },
        },
{
    tokens::lemma_skip_bounds(s, p);
    let q = tokens::skip_ignored(s, p);
    if q < s.len() {
        tokens::lemma_step_bounds(s, q);
    }
}

/// The steps of lexing from `p` start at or after `p`, each where the one
/// before it ended or later.
pub proof fn lemma_lex_steps_ordered(s: Seq<char>, p: int)
    requires
        0 <= p <= s.len(),
        s.len() <= usize::MAX,
    ensures
        forall|k: int|
            0 <= k < tokens::lex_steps(s, p).len() ==> p <= (#[trigger] tokens::lex_steps(s, p)[k]).0 < s.len(),
        forall|k: int|
            0 <= k && k + 1 < tokens::lex_steps(s, p).len() ==> (#[trigger] tokens::lex_steps(s, p)[k]).0
                + tokens::step_len(tokens::lex_steps(s, p)[k].1) <= tokens::lex_steps(s, p)[k + 1].0,
        forall|k: int|
            0 <= k && k + 1 < tokens::lex_steps(s, p).len() ==> !((#[trigger] tokens::lex_steps(s, p)[k]).1 is Unsupported),
        forall|k: int|
            0 <= k < tokens::lex_steps(s, p).len() ==> (#[trigger] tokens::lex_steps(s, p)[k]).1
                == tokens::step_at(s, tokens::lex_steps(s, p)[k].0),
    decreases s.len() - p,
{
    lemma_lex_steps_unfold(s, p);
    match tokens::next_step(s, p) {
        Some((q, step)) => {
            if !(step is Unsupported) {
                let next = q + tokens::step_len(step);
                lemma_lex_steps_ordered(s, next);
                let all = tokens::lex_steps(s, p);
                let rest = tokens::lex_steps(s, next);
                assert forall|k: int| 0 <= k < all.len() implies p <= (#[trigger] all[k]).0 < s.len() by {
                    if k > 0 {
                        assert(all[k] == rest[k - 1]);
                    }
                }
                assert forall|k: int| 0 <= k && k + 1 < all.len() implies (#[trigger] all[k]).0
                    + tokens::step_len(all[k].1) <= all[k + 1].0 by {
                    assert(all[k + 1] == rest[k]);
                    if k > 0 {
                        assert(all[k] == rest[k - 1]);
                    }
                }
                assert forall|k: int| 0 <= k && k + 1 < all.len() implies !((#[trigger] all[k]).1 is Unsupported) by {
                    if k > 0 {
                        assert(all[k] == rest[k - 1]);
                    }
                }
                assert forall|k: int| 0 <= k < all.len() implies (#[trigger] all[k]).1 == tokens::step_at(s, all[k].0) by {
                    if k > 0 {
                        assert(all[k] == rest[k - 1]);
                    }
                }
            }
        },
        None => {},
    }
}

/// The byte span of a step of lexing `s` that starts at `q`.
pub open spec fn step_span(s: Seq<char>, q: int, step: Step) -> crate::span::Span {
    crate::span::Span {
        start: token_lexer::byte_offset(s, q) as usize,
        end: token_lexer::byte_offset(s, q + tokens::step_len(step)) as usize,
    }
}

/// Tokens never overlap: the span of each step of lexing ends where the
/// span of the next one starts, or before, so that the two do not overlap.
pub proof fn law_token_spans_do_not_overlap(s: Seq<char>, k: int)
    requires
        encode_utf8(s).len() <= usize::MAX,
        0 <= k,
        k + 1 < tokens::lex_steps(s, 0).len(),
    ensures
        ({
            let (qa, a) = tokens::lex_steps(s, 0)[k];
            let (qb, b) = tokens::lex_steps(s, 0)[k + 1];
            &&& step_span(s, qa, a).end <= step_span(s, qb, b).start
            &&& !crate::span::spans_overlap(step_span(s, qa, a), step_span(s, qb, b))
            &&& !crate::span::spans_overlap(step_span(s, qb, b), step_span(s, qa, a))
        }),
{
    token_lexer::lemma_encode_len_at_least(s);
    lemma_lex_steps_ordered(s, 0);
    let (qa, a) = tokens::lex_steps(s, 0)[k];
    let (qb, b) = tokens::lex_steps(s, 0)[k + 1];
    tokens::lemma_step_bounds(s, qa);
    tokens::lemma_step_bounds(s, qb);
    token_lexer::lemma_byte_offset_monotone(s, qa, qa + tokens::step_len(a));
    token_lexer::lemma_byte_offset_monotone(s, qa + tokens::step_len(a), qb);
    token_lexer::lemma_byte_offset_monotone(s, qb, qb + tokens::step_len(b));
    token_lexer::lemma_byte_offset_monotone(s, qb + tokens::step_len(b), s.len() as int);
}

/// Lexing takes at most one step per character.
pub proof fn lemma_lex_steps_len(s: Seq<char>, p: int)
    requires
        0 <= p <= s.len(),
        s.len() <= usize::MAX,
    ensures
        tokens::lex_steps(s, p).len() <= s.len() - p,
    decreases s.len() - p,
{
    lemma_lex_steps_unfold(s, p);
    match tokens::next_step(s, p) {
        Some((q, step)) => {
            if !(step is Unsupported) {
                lemma_lex_steps_len(s, q + tokens::step_len(step));
            }
        },
        None => {},
    }
}

/// Whether lexing all of `input` never meets a block string holding a
/// character that no block string token accepts; see
/// [`tokens::lexes_without_panic`].
pub fn lexes_without_panic_exec(input: &str) -> (r: bool)
    requires
        encode_utf8(input@).len() <= usize::MAX,
    ensures
        r == tokens::lexes_without_panic(input@),
{
    let mut lexer = Lexer::new(input);
    let ghost s = input@;
    let ghost all = tokens::lex_steps(s, 0);
    let ghost mut k: int = 0;
    proof {
        token_lexer::lemma_encode_len_at_least(s);
        assert(all.skip(0) =~= all);
    }
    loop
        invariant
            lexer.wf(),
            lexer.text() == s,
            s == input@,
            s.len() <= usize::MAX,
            0 <= lexer.position() <= s.len(),
            all == tokens::lex_steps(s, 0),
            0 <= k <= all.len(),
            all.skip(k) == tokens::lex_steps(s, lexer.position()),
            forall|i: int| 0 <= i < k ==> !(#[trigger] all[i].1 is Unsupported),
        decreases s.len() - lexer.position(),
    {
        let ghost p = lexer.position();
        proof {
            lemma_lex_steps_unfold(s, p);
        }
        if !lexer.next_is_lexable() {
            proof {
                let (q, step) = tokens::next_step(s, p)->0;
                assert(tokens::lex_steps(s, p) == seq![(q, step)]);
                assert(all.skip(k).len() == 1);
                assert(k < all.len());
                assert(all.skip(k)[0] == (q, step));
                assert(all[k] == all.skip(k)[0]);
                assert(all[k].1 is Unsupported);
            }
            return false;
        }
        match lexer.next() {
            None => {
                proof {
                    assert(all.skip(k).len() == 0);
                }
                return true;
            },
            Some(_) => {
                proof {
                    let (q, step) = tokens::next_step(s, p)->0;
                    assert(all.skip(k).len() >= 1);
                    assert(k < all.len());
                    assert(all.skip(k)[0] == (q, step));
                    assert(all[k] == all.skip(k)[0]);
                    assert(all.skip(k + 1) =~= all.skip(k).skip(1));
                    assert(tokens::lex_steps(s, p).skip(1) =~= tokens::lex_steps(s, lexer.position()));
                    k = k + 1;
                }
            },
        }
    }
}

/// Lexes all of `input`: one item per step of lexing, in order.
pub fn tokenize(input: &str) -> (items: Vec<Spanned<Token, usize, LexicalError>>)
    requires
        encode_utf8(input@).len() <= usize::MAX,
        tokens::lexes_without_panic(input@),
    ensures
        lexed(input@, items@),
{
    let mut lexer = Lexer::new(input);
    let mut items: Vec<Spanned<Token, usize, LexicalError>> = Vec::new();
    let ghost s = input@;
    let ghost all = tokens::lex_steps(s, 0);
    proof {
        token_lexer::lemma_encode_len_at_least(s);
    }
    loop
        invariant
            lexer.wf(),
            lexer.text() == s,
            s == input@,
            s.len() <= usize::MAX,
            0 <= lexer.position() <= s.len(),
            all == tokens::lex_steps(s, 0),
            tokens::lexes_without_panic(s),
            items.len() + tokens::lex_steps(s, lexer.position()).len() == all.len(),
            all.skip(items.len() as int) == tokens::lex_steps(s, lexer.position()),
            forall|i: int|
                0 <= i < items.len() ==> spanned_step(s, #[trigger] all[i].0, all[i].1, items[i]),
        decreases s.len() - lexer.position(),
    {
        let ghost p = lexer.position();
        proof {
            lemma_lex_steps_unfold(s, p);
            match tokens::next_step(s, p) {
                Some((q, step)) => {
                    let k = items.len() as int;
                    assert(all[k] == all.skip(k)[0]);
                    assert(!(all[k].1 is Unsupported));
                },
                None => {},
            }
        }
        match lexer.next() {
            None => {
                return items;
            },
            Some(item) => {
                proof {
                    let k = items.len() as int;
                    let (q, step) = tokens::next_step(s, p)->0;
                    assert(all[k] == all.skip(k)[0]);
                    assert(all.skip(k + 1) =~= all.skip(k).skip(1));
                    assert(tokens::lex_steps(s, p).skip(1) =~= tokens::lex_steps(s, lexer.position()));
                }
                items.push(item);
            },
        }
    }
}

} // verus!

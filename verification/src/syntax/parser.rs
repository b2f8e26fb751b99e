//! The parser of the concrete syntax tree: it walks the tokens of
//! [`super::lexer`] and records the tree as a flat list of events (a node
//! starts, a token, a node finishes).  Every token it passes goes into the
//! tree, so that the tree holds the text it was parsed from.
use vstd::prelude::*;

use super::lexer::{lemma_raw_step_bounds, raw_step, raw_steps, Token};
use super::{token_syntax_kind, SyntaxKind};
use crate::lexer::token_lexer::chars_of;

verus! {

/// One step of building the tree.
#[derive(Clone, Debug, PartialEq, Eq)]
pub enum Event {
    Start(SyntaxKind),
    Token(SyntaxKind, String),
    Finish,
}

/// The text that the token events of `events` hold, in order.
pub open spec fn events_text(events: Seq<Event>) -> Seq<char>
    decreases events.len(),
{
    if events.len() == 0 {
        Seq::empty()
    } else {
        let rest = events_text(events.drop_last());
        match events.last() {
            Event::Token(_, text) => rest + text@,
            _ => rest,
        }
    }
}

/// The depth after `events`, from depth `d`.
pub open spec fn end_depth(events: Seq<Event>, d: int) -> int
    decreases events.len(),
{
    if events.len() == 0 {
        d
    } else {
        let before = end_depth(events.drop_last(), d);
        match events.last() {
            Event::Start(_) => before + 1,
            Event::Finish => before - 1,
            Event::Token(_, _) => before,
        }
    }
}

/// No prefix of `events` closes more nodes than it opens, from depth `d`.
pub open spec fn never_below(events: Seq<Event>, d: int) -> bool
    decreases events.len(),
{
    if events.len() == 0 {
        d >= 0
    } else {
        never_below(events.drop_last(), d) && end_depth(events, d) >= 0
    }
}

/// Every node that `events` start, they finish, and none the other way round.
pub open spec fn balanced(events: Seq<Event>) -> bool {
    never_below(events, 0) && end_depth(events, 0) == 0
}

/// The text of tokens `a..b`.
pub open spec fn tokens_text(tokens: Seq<(Token, Seq<char>)>, a: int, b: int) -> Seq<char>
    decreases b - a,
{
    if b <= a {
        Seq::empty()
    } else {
        tokens_text(tokens, a, b - 1) + tokens[b - 1].1
    }
}

/// Where lexing `s` from `p` first meets text that no token matches, or
/// the end of `s`.
pub open spec fn raw_prefix_end(s: Seq<char>, p: int) -> int
    decreases s.len() - p,
{
    if p < 0 || p >= s.len() {
        s.len() as int
    } else if super::lexer::raw_step(s, p).0 is Err {
        p
    } else {
        proof {
            super::lexer::lemma_raw_step_bounds(s, p);
        }
        raw_prefix_end(s, p + super::lexer::raw_step(s, p).1)
    }
}

/// The text of tokens `a..b` depends only on those tokens.
pub proof fn lemma_tokens_text_prefix(t1: Seq<(Token, Seq<char>)>, t2: Seq<(Token, Seq<char>)>, a: int, b: int)
    requires
        0 <= a,
        b <= t1.len(),
        b <= t2.len(),
        forall|i: int| a <= i < b ==> t1[i] == t2[i],
    ensures
        tokens_text(t1, a, b) == tokens_text(t2, a, b),
    decreases b - a,
{
    if b > a {
        lemma_tokens_text_prefix(t1, t2, a, b - 1);
    }
}

/// The tokens of `s` from `p` on, each with its text, up to the first text
/// that no token matches.
pub open spec fn raw_tokens(s: Seq<char>, p: int) -> Seq<(Token, Seq<char>)>
    decreases s.len() - p,
{
    if 0 <= p < s.len() {
        proof {
            lemma_raw_step_bounds(s, p);
        }
        match raw_step(s, p).0 {
            Ok(t) => seq![(t, s.subrange(p, p + raw_step(s, p).1))] + raw_tokens(
                s,
                p + raw_step(s, p).1,
            ),
            Err(_) => Seq::empty(),
        }
    } else {
        Seq::empty()
    }
}

/// What a parser holds: its tokens with their texts, its position, and
/// the events recorded so far.
pub struct ParserView {
    pub tokens: Seq<(Token, Seq<char>)>,
    pub pos: int,
    pub events: Seq<Event>,
}

/// From `before` to `after` the parser moved forward over some tokens and
/// recorded a balanced run of events that holds exactly their text.
pub open spec fn segment(before: ParserView, after: ParserView) -> bool {
    &&& after.tokens == before.tokens
    &&& 0 <= before.pos <= after.pos <= before.tokens.len()
    &&& before.events.len() <= after.events.len()
    &&& after.events.take(before.events.len() as int) == before.events
    &&& balanced(after.events.skip(before.events.len() as int))
    &&& events_text(after.events.skip(before.events.len() as int)) == tokens_text(
        before.tokens,
        before.pos,
        after.pos,
    )
}

/// The texts of `messages`.
pub open spec fn texts(messages: Seq<String>) -> Seq<Seq<char>> {
    messages.map_values(|m: String| m@)
}

/// `b` holds the messages of `a` and perhaps more after them.
pub open spec fn grows(a: Seq<Seq<char>>, b: Seq<Seq<char>>) -> bool {
    a.len() <= b.len() && forall|i: int| 0 <= i < a.len() ==> #[trigger] b[i] == a[i]
}

/// An event without the text of its token: what kind of node starts, what
/// kind of token is recorded, or that a node finishes.
#[derive(PartialEq, Eq, Structural)]
pub enum EventShape {
    Start(SyntaxKind),
    Token(SyntaxKind),
    Finish,
}

pub open spec fn shape_of(event: Event) -> EventShape {
    match event {
        Event::Start(kind) => EventShape::Start(kind),
        Event::Token(kind, _) => EventShape::Token(kind),
        Event::Finish => EventShape::Finish,
    }
}

/// The shapes of `events`, in order.
pub open spec fn shapes(events: Seq<Event>) -> Seq<EventShape> {
    events.map_values(|e: Event| shape_of(e))
}

/// The shapes of the events recorded from `before` to `after`.
pub open spec fn added_shapes(before: ParserView, after: ParserView) -> Seq<EventShape> {
    shapes(after.events.skip(before.events.len() as int))
}

/// The tokens from `a` up to `b`, each recorded as a token of its own kind.
pub open spec fn bumped(tokens: Seq<(Token, Seq<char>)>, a: int, b: int) -> Seq<EventShape> {
    Seq::new((b - a) as nat, |i: int| EventShape::Token(token_syntax_kind(tokens[a + i].0)))
}

/// Recording the tokens up to `b` and then those up to `c` records the
/// tokens up to `c`.
pub proof fn lemma_bumped_concat(tokens: Seq<(Token, Seq<char>)>, a: int, b: int, c: int)
    requires
        a <= b <= c,
    ensures
        bumped(tokens, a, b) + bumped(tokens, b, c) == bumped(tokens, a, c),
{
    assert(bumped(tokens, a, b) + bumped(tokens, b, c) =~= bumped(tokens, a, c));
}

/// `n` tokens recorded as tokens of `kind`.
pub open spec fn repeated(kind: SyntaxKind, n: int) -> Seq<EventShape> {
    Seq::new(n as nat, |i: int| EventShape::Token(kind))
}

/// The shapes of a concatenation are the shapes of its parts.
pub proof fn lemma_shapes_concat(a: Seq<Event>, b: Seq<Event>)
    ensures
        shapes(a + b) == shapes(a) + shapes(b),
{
    assert(shapes(a + b) =~= shapes(a) + shapes(b));
}

/// The events of `after` are those of `before` and then more.
pub open spec fn extends(before: ParserView, after: ParserView) -> bool {
    &&& before.events.len() <= after.events.len()
    &&& after.events.take(before.events.len() as int) == before.events
}

/// The shapes added over two steps are those of the first step, then those
/// of the second.
pub proof fn lemma_added_shapes_trans(a: ParserView, b: ParserView, c: ParserView)
    requires
        extends(a, b),
        extends(b, c),
    ensures
        added_shapes(a, c) == added_shapes(a, b) + added_shapes(b, c),
        extends(a, c),
{
    let n = a.events.len() as int;
    let m = b.events.len() as int;
    assert(c.events.take(n) =~= b.events.take(n));
    assert(b.events =~= a.events + b.events.skip(n));
    assert(c.events =~= b.events + c.events.skip(m));
    assert(c.events.skip(n) =~= b.events.skip(n) + c.events.skip(m));
    lemma_shapes_concat(b.events.skip(n), c.events.skip(m));
}

/// `events` are one node of `kind`: its start, a balanced run of events
/// inside it, and its finish.
pub open spec fn single_node(events: Seq<Event>, kind: SyntaxKind) -> bool {
    &&& events.len() >= 2
    &&& events[0] == Event::Start(kind)
    &&& events.last() == Event::Finish
    &&& balanced(events.subrange(1, events.len() - 1))
}

/// From `before` to `after` the parser recorded one node of `kind` around
/// everything else it recorded.
pub open spec fn node(before: ParserView, after: ParserView, kind: SyntaxKind) -> bool {
    single_node(after.events.skip(before.events.len() as int), kind)
}

/// A node recorded from `a` to `b` begins with its start and ends with its
/// finish.
pub proof fn lemma_node_shapes(a: ParserView, b: ParserView, kind: SyntaxKind)
    requires
        node(a, b, kind),
    ensures
        added_shapes(a, b).len() >= 2,
        added_shapes(a, b)[0] == EventShape::Start(kind),
        added_shapes(a, b).last() == EventShape::Finish,
{
    let added = b.events.skip(a.events.len() as int);
    assert(shapes(added)[0] == shape_of(added[0]));
    assert(shapes(added)[added.len() - 1] == shape_of(added[added.len() - 1]));
}

pub proof fn lemma_events_text_concat(a: Seq<Event>, b: Seq<Event>)
    ensures
        events_text(a + b) == events_text(a) + events_text(b),
    decreases b.len(),
{
    if b.len() == 0 {
        assert(a + b =~= a);
        assert(events_text(a) + Seq::<char>::empty() =~= events_text(a));
    } else {
        assert((a + b).drop_last() =~= a + b.drop_last());
        assert((a + b).last() == b.last());
        lemma_events_text_concat(a, b.drop_last());
        match b.last() {
            Event::Token(_, text) => {
                assert(events_text(a) + events_text(b.drop_last()) + text@ =~= events_text(a) + (
                events_text(b.drop_last()) + text@));
            },
            _ => {},
        }
    }
}

pub proof fn lemma_depth_concat(a: Seq<Event>, b: Seq<Event>, d: int)
    ensures
        end_depth(a + b, d) == end_depth(b, end_depth(a, d)),
        never_below(a + b, d) == (never_below(a, d) && never_below(b, end_depth(a, d))),
    decreases b.len(),
{
    if b.len() == 0 {
        assert(a + b =~= a);
        lemma_never_below_nonneg(a, d);
    } else {
        assert((a + b).drop_last() =~= a + b.drop_last());
        assert((a + b).last() == b.last());
        lemma_depth_concat(a, b.drop_last(), d);
    }
}

pub proof fn lemma_never_below_nonneg(a: Seq<Event>, d: int)
    ensures
        never_below(a, d) ==> end_depth(a, d) >= 0 && d >= 0,
    decreases a.len(),
{
    if a.len() > 0 {
        lemma_never_below_nonneg(a.drop_last(), d);
    }
}

pub proof fn lemma_depth_shift(a: Seq<Event>, d: int, k: int)
    requires
        k >= 0,
    ensures
        end_depth(a, d + k) == end_depth(a, d) + k,
        never_below(a, d) ==> never_below(a, d + k),
    decreases a.len(),
{
    if a.len() > 0 {
        lemma_depth_shift(a.drop_last(), d, k);
    }
}

pub proof fn lemma_balanced_concat(a: Seq<Event>, b: Seq<Event>)
    requires
        balanced(a),
        balanced(b),
    ensures
        balanced(a + b),
{
    lemma_depth_concat(a, b, 0);
}

/// No events: depth unchanged, no text.
pub proof fn lemma_empty_events()
    ensures
        forall|d: int| #[trigger] end_depth(Seq::<Event>::empty(), d) == d,
        forall|d: int| #[trigger] never_below(Seq::<Event>::empty(), d) == (d >= 0),
        events_text(Seq::<Event>::empty()) == Seq::<char>::empty(),
{
}

/// A balanced run of events inside a node is balanced.
pub proof fn lemma_balanced_wrap(a: Seq<Event>, kind: SyntaxKind)
    requires
        balanced(a),
    ensures
        balanced(seq![Event::Start(kind)] + a + seq![Event::Finish]),
        events_text(seq![Event::Start(kind)] + a + seq![Event::Finish]) == events_text(a),
{
    let s = seq![Event::Start(kind)];
    let f = seq![Event::Finish];
    assert(s.drop_last() =~= Seq::<Event>::empty());
    assert(f.drop_last() =~= Seq::<Event>::empty());
    assert(s.last() == Event::Start(kind));
    assert(f.last() == Event::Finish);
    lemma_empty_events();
    assert(end_depth(s.drop_last(), 0) == 0);
    assert(never_below(s.drop_last(), 0));
    assert(end_depth(f.drop_last(), 1) == 1);
    assert(never_below(f.drop_last(), 1));
    assert(events_text(s.drop_last()) =~= Seq::<char>::empty());
    assert(events_text(f.drop_last()) =~= Seq::<char>::empty());
    assert(end_depth(s, 0) == 1);
    assert(never_below(s, 0));
    assert(end_depth(f, 1) == 0);
    assert(never_below(f, 1));
    assert(events_text(s) =~= Seq::<char>::empty());
    assert(events_text(f) =~= Seq::<char>::empty());
    lemma_depth_concat(s, a, 0);
    lemma_depth_shift(a, 0, 1);
    lemma_depth_concat(s + a, f, 0);
    lemma_events_text_concat(s, a);
    lemma_events_text_concat(s + a, f);
    assert(Seq::<char>::empty() + events_text(a) =~= events_text(a));
    assert(events_text(a) + Seq::<char>::empty() =~= events_text(a));
}

pub proof fn lemma_tokens_text_concat(tokens: Seq<(Token, Seq<char>)>, a: int, b: int, c: int)
    requires
        a <= b <= c,
    ensures
        tokens_text(tokens, a, c) == tokens_text(tokens, a, b) + tokens_text(tokens, b, c),
    decreases c - b,
{
    if c == b {
        assert(tokens_text(tokens, a, b) + Seq::<char>::empty() =~= tokens_text(tokens, a, b));
    } else {
        lemma_tokens_text_concat(tokens, a, b, c - 1);
        assert(tokens_text(tokens, a, b) + tokens_text(tokens, b, c - 1) + tokens[c - 1].1
            =~= tokens_text(tokens, a, b) + (tokens_text(tokens, b, c - 1) + tokens[c - 1].1));
    }
}

/// Segments chain.
pub proof fn lemma_segment_trans(a: ParserView, b: ParserView, c: ParserView)
    requires
        segment(a, b),
        segment(b, c),
    ensures
        segment(a, c),
{
    let n = a.events.len() as int;
    let m = b.events.len() as int;
    let ab = b.events.skip(n);
    let bc = c.events.skip(m);
    assert(c.events.take(n) =~= c.events.take(m).take(n));
    assert(c.events.skip(n) =~= ab + bc) by {
        assert(c.events =~= b.events + bc);
    }
    lemma_balanced_concat(ab, bc);
    lemma_events_text_concat(ab, bc);
    lemma_tokens_text_concat(a.tokens, a.pos, b.pos, c.pos);
}

/// Where a segment sits between the start and the finish of a node, the
/// whole is a segment.
pub proof fn lemma_segment_wrap(a: ParserView, b: ParserView, c: ParserView, d: ParserView, kind: SyntaxKind)
    requires
        b.tokens == a.tokens,
        b.pos == a.pos,
        b.events == a.events.push(Event::Start(kind)),
        segment(b, c),
        d.tokens == c.tokens,
        d.pos == c.pos,
        d.events == c.events.push(Event::Finish),
    ensures
        segment(a, d),
        node(a, d, kind),
        added_shapes(a, d) == seq![EventShape::Start(kind)] + added_shapes(b, c) + seq![EventShape::Finish],
{
    let n = a.events.len() as int;
    let inner = c.events.skip(n + 1);
    assert forall|i: int| 0 <= i < n implies #[trigger] d.events.take(n)[i] == a.events[i] by {
        assert(d.events[i] == c.events[i]);
        assert(c.events.take(n + 1)[i] == c.events[i]);
        assert(b.events[i] == a.events[i]);
    }
    assert(d.events.take(n) =~= a.events);
    assert(d.events.skip(n) =~= seq![Event::Start(kind)] + inner + seq![Event::Finish]) by {
        assert(c.events =~= b.events + inner);
    }
    lemma_balanced_wrap(inner, kind);
    let added = d.events.skip(n);
    assert(added.subrange(1, added.len() - 1) =~= inner);
    assert(shapes(added) =~= seq![EventShape::Start(kind)] + shapes(inner) + seq![EventShape::Finish]);
}

/// Where a node is started at the point `a` after a segment was recorded,
/// and finished after a further segment, the whole is a segment.
pub proof fn lemma_segment_wrap_at(a: ParserView, c: ParserView, d: ParserView, kind: SyntaxKind)
    requires
        segment(a, c),
        d.tokens == c.tokens,
        d.pos == c.pos,
        d.events == c.events.insert(a.events.len() as int, Event::Start(kind)).push(Event::Finish),
    ensures
        segment(a, d),
        node(a, d, kind),
        added_shapes(a, d) == seq![EventShape::Start(kind)] + added_shapes(a, c) + seq![EventShape::Finish],
{
    let n = a.events.len() as int;
    let inner = c.events.skip(n);
    assert(c.events =~= a.events + inner);
    assert(c.events.subrange(0, n) =~= a.events);
    assert(c.events.subrange(n, c.events.len() as int) =~= inner);
    let pre = a.events.push(Event::Start(kind));
    assert(d.events =~= pre + inner + seq![Event::Finish]);
    assert(d.events.len() >= n);
    assert forall|i: int| 0 <= i < n implies #[trigger] d.events.take(n)[i] == a.events[i] by {
        assert(d.events.take(n)[i] == d.events[i]);
        assert((pre + inner + seq![Event::Finish])[i] == (pre + inner)[i]);
        assert((pre + inner)[i] == pre[i]);
        assert(pre[i] == a.events[i]);
    }
    assert(d.events.take(n) =~= a.events);
    assert(d.events.skip(n) =~= seq![Event::Start(kind)] + inner + seq![Event::Finish]);
    lemma_balanced_wrap(inner, kind);
    let added = d.events.skip(n);
    assert(added.subrange(1, added.len() - 1) =~= inner);
    assert(shapes(added) =~= seq![EventShape::Start(kind)] + shapes(inner) + seq![EventShape::Finish]);
}

/// Nothing recorded, nothing passed: a segment.
pub proof fn lemma_segment_refl(a: ParserView)
    requires
        0 <= a.pos <= a.tokens.len(),
    ensures
        segment(a, a),
        added_shapes(a, a) == Seq::<EventShape>::empty(),
{
    assert(a.events.take(a.events.len() as int) =~= a.events);
    assert(a.events.skip(a.events.len() as int) =~= Seq::<Event>::empty());
    assert(shapes(Seq::<Event>::empty()) =~= Seq::<EventShape>::empty());
}

/// A parser over the tokens of a text.
pub struct Parser {
    tokens: Vec<(Token, String)>,
    pos: usize,
    events: Vec<Event>,
    errors: Vec<String>,
}

impl View for Parser {
    type V = ParserView;

    closed spec fn view(&self) -> ParserView {
        ParserView {
            tokens: self.tokens@.map_values(|t: (Token, String)| (t.0, t.1@)),
            pos: self.pos as int,
            events: self.events@,
        }
    }
}

impl Parser {
    pub closed spec fn wf(&self) -> bool {
        self.pos <= self.tokens.len()
    }

    /// The errors recorded so far.
    pub closed spec fn error_messages(&self) -> Seq<String> {
        self.errors@
    }

    /// The texts of the errors recorded so far.
    pub open spec fn messages(&self) -> Seq<Seq<char>> {
        texts(self.error_messages())
    }

    /// A parser over the tokens of `source`, up to the first text that no
    /// token matches.
    pub fn new(source: &str) -> (parser: Self)
        ensures
            parser.wf(),
            parser@.pos == 0,
            parser@.events == Seq::<Event>::empty(),
            parser@.tokens == raw_tokens(source@, 0),
            parser.messages() == Seq::<Seq<char>>::empty(),
            tokens_text(parser@.tokens, 0, parser@.tokens.len() as int) == source@.subrange(
                0,
                raw_prefix_end(source@, 0),
            ),
    {
        let mut lexer = Token::lexer(source);
        let mut tokens: Vec<(Token, String)> = Vec::new();
        let ghost s = source@;
        let ghost mut stop: int = 0;
        proof {
            assert(tokens_text(Seq::<(Token, Seq<char>)>::empty(), 0, 0) =~= s.subrange(0, 0));
            assert(tokens@.map_values(|t: (Token, String)| (t.0, t.1@)) =~= Seq::<(Token, Seq<char>)>::empty());
            assert(raw_tokens(s, 0) =~= Seq::<(Token, Seq<char>)>::empty() + raw_tokens(s, 0));
        }
        loop
            invariant_except_break
                raw_prefix_end(s, 0) == raw_prefix_end(s, lexer.position()),
                raw_tokens(s, 0) == tokens@.map_values(|t: (Token, String)| (t.0, t.1@)) + raw_tokens(
                    s,
                    lexer.position(),
                ),
                tokens_text(tokens@.map_values(|t: (Token, String)| (t.0, t.1@)), 0, tokens.len() as int)
                    == s.subrange(0, lexer.position()),
            invariant
                lexer.wf(),
                lexer.text() == s,
                0 <= lexer.position() <= s.len(),
            ensures
                raw_tokens(s, 0) == tokens@.map_values(|t: (Token, String)| (t.0, t.1@)),
                raw_prefix_end(s, 0) == stop,
                tokens_text(tokens@.map_values(|t: (Token, String)| (t.0, t.1@)), 0, tokens.len() as int)
                    == s.subrange(0, stop),
            decreases lexer.text().len() - lexer.position(),
        {
            let ghost p = lexer.position();
            let ghost before = tokens@.map_values(|t: (Token, String)| (t.0, t.1@));
            let ghost raw_before = tokens@;
            match lexer.next() {
                Some(Ok(token)) => {
                    let text = lexer.slice();
                    tokens.push((token, text));
                    proof {
                        let after = tokens@.map_values(|t: (Token, String)| (t.0, t.1@));
                        let n = before.len() as int;
                        assert forall|i: int| 0 <= i < n implies after[i] == before[i] by {
                            assert(tokens@[i] == raw_before[i]);
                        }
                        lemma_tokens_text_prefix(after, before, 0, n);
                        assert(after[n] == (token, text@));
                        assert(s.subrange(0, lexer.position()) =~= s.subrange(0, p) + s.subrange(p, lexer.position()));
                        assert(after =~= before.push((token, text@)));
                        assert(raw_tokens(s, p) == seq![(token, text@)] + raw_tokens(s, lexer.position()));
                        assert(raw_tokens(s, 0) =~= after + raw_tokens(s, lexer.position()));
                    }
                },
                Some(Err(_)) => {
                    proof {
                        stop = p;
                        assert(raw_tokens(s, p) == Seq::<(Token, Seq<char>)>::empty());
                        assert(raw_tokens(s, 0) =~= before);
                    }
                    break;
                },
                None => {
                    proof {
                        stop = p;
                        assert(raw_tokens(s, 0) =~= before);
                    }
                    break;
                },
            }
        }
        let parser = Parser { tokens, pos: 0, events: Vec::new(), errors: Vec::new() };
        proof {
            assert(parser.messages() =~= Seq::<Seq<char>>::empty());
        }
        parser
    }

    /// The kind of the current token, `None` at the end.
    pub fn current(&self) -> (r: Option<Token>)
        requires
            self.wf(),
        ensures
            r == if self@.pos < self@.tokens.len() {
                Some(self@.tokens[self@.pos].0)
            } else {
                None::<Token>
            },
    {
        if self.pos < self.tokens.len() {
            Some(self.tokens[self.pos].0)
        } else {
            None
        }
    }

    /// Whether the current token is a name that reads `text`.
    pub fn current_is_name(&self, text: &str) -> (r: bool)
        requires
            self.wf(),
        ensures
            r == (self@.pos < self@.tokens.len() && self@.tokens[self@.pos].0 == Token::Name
                && self@.tokens[self@.pos].1 == text@),
    {
        if self.pos < self.tokens.len() {
            let (token, current) = &self.tokens[self.pos];
            let wanted = text.to_owned();
            *token == Token::Name && *current == wanted
        } else {
            false
        }
    }

    /// Adds the current token to the tree as a token of `kind`, and moves on.
    pub fn bump_as(&mut self, kind: SyntaxKind)
        requires
            old(self).wf(),
            old(self)@.pos < old(self)@.tokens.len(),
        ensures
            final(self).wf(),
            final(self)@.tokens == old(self)@.tokens,
            final(self)@.pos == old(self)@.pos + 1,
            segment(old(self)@, final(self)@),
            added_shapes(old(self)@, final(self)@) == seq![EventShape::Token(kind)],
            final(self).error_messages() == old(self).error_messages(),
            grows(old(self).messages(), final(self).messages()),
    {
        let text = self.tokens[self.pos].1.clone();
        self.events.push(Event::Token(kind, text));
        self.pos = self.pos + 1;
        proof {
            let before = old(self)@;
            let after = self@;
            let added = after.events.skip(before.events.len() as int);
            assert(after.events.take(before.events.len() as int) =~= before.events);
            assert(added =~= seq![Event::Token(kind, old(self).tokens@[old(self)@.pos].1)]);
            assert(added.drop_last() =~= Seq::<Event>::empty());
            assert(before.tokens[before.pos].1 == old(self).tokens@[old(self)@.pos].1@);
            assert(tokens_text(before.tokens, before.pos, before.pos) =~= Seq::<char>::empty());
            assert(added.last() == Event::Token(kind, old(self).tokens@[old(self)@.pos].1));
            lemma_empty_events();
            assert(end_depth(added.drop_last(), 0) == 0);
            assert(never_below(added.drop_last(), 0));
            assert(events_text(added.drop_last()) =~= Seq::<char>::empty());
            assert(end_depth(added, 0) == 0);
            assert(never_below(added, 0));
            assert(events_text(added) =~= Seq::<char>::empty() + old(self).tokens@[old(self)@.pos].1@);
            assert(tokens_text(before.tokens, before.pos, before.pos + 1) =~= Seq::<char>::empty()
                + before.tokens[before.pos].1);
            assert(shapes(added) =~= seq![EventShape::Token(kind)]);
        }
    }

    /// Adds the current token to the tree, and moves on.
    pub fn bump(&mut self)
        requires
            old(self).wf(),
            old(self)@.pos < old(self)@.tokens.len(),
        ensures
            final(self).wf(),
            final(self)@.tokens == old(self)@.tokens,
            final(self)@.pos == old(self)@.pos + 1,
            segment(old(self)@, final(self)@),
            added_shapes(old(self)@, final(self)@) == bumped(old(self)@.tokens, old(self)@.pos, old(self)@.pos + 1),
            final(self).error_messages() == old(self).error_messages(),
            grows(old(self).messages(), final(self).messages()),
    {
        let token = self.tokens[self.pos].0;
        self.bump_as(SyntaxKind::from(token));
        proof {
            assert(bumped(old(self)@.tokens, old(self)@.pos, old(self)@.pos + 1) =~= seq![
                EventShape::Token(token_syntax_kind(token)),
            ]);
        }
    }

    /// Starts a node of `kind`.
    pub fn start_node(&mut self, kind: SyntaxKind)
        requires
            old(self).wf(),
        ensures
            final(self).wf(),
            0 <= final(self)@.pos <= final(self)@.tokens.len(),
            final(self)@ == (ParserView { events: old(self)@.events.push(Event::Start(kind)), ..old(self)@ }),
            final(self).error_messages() == old(self).error_messages(),
            grows(old(self).messages(), final(self).messages()),
    {
        self.events.push(Event::Start(kind));
    }

    /// Finishes the node started last.
    pub fn finish_node(&mut self)
        requires
            old(self).wf(),
        ensures
            final(self).wf(),
            final(self)@ == (ParserView { events: old(self)@.events.push(Event::Finish), ..old(self)@ }),
            final(self).error_messages() == old(self).error_messages(),
            grows(old(self).messages(), final(self).messages()),
    {
        self.events.push(Event::Finish);
    }

    /// The point where [`Parser::start_node_at`] can later start a node
    /// around what is recorded from here on.
    pub fn checkpoint(&self) -> (point: usize)
        ensures
            point == self@.events.len(),
    {
        self.events.len()
    }

    /// Starts a node of `kind` at `point`, around what was recorded since.
    pub fn start_node_at(&mut self, point: usize, kind: SyntaxKind)
        requires
            old(self).wf(),
            point <= old(self)@.events.len(),
        ensures
            final(self).wf(),
            final(self)@ == (ParserView { events: old(self)@.events.insert(point as int, Event::Start(kind)), ..old(self)@ }),
            final(self).error_messages() == old(self).error_messages(),
            grows(old(self).messages(), final(self).messages()),
    {
        self.events.insert(point, Event::Start(kind));
    }

    /// Records an error.
    pub fn error(&mut self, message: &str)
        requires
            old(self).wf(),
        ensures
            final(self).wf(),
            final(self)@ == old(self)@,
            final(self).error_messages().len() == old(self).error_messages().len() + 1,
            final(self).error_messages().last()@ == message@,
            final(self).messages() == old(self).messages().push(message@),
            grows(old(self).messages(), final(self).messages()),
    {
        self.errors.push(message.to_owned());
        proof {
            assert(self.messages() =~= old(self).messages().push(message@));
        }
    }

    /// Adds white space, line terminators and commas to the tree.
    pub fn skip_ws(&mut self)
        requires
            old(self).wf(),
        ensures
            final(self).wf(),
            segment(old(self)@, final(self)@),
            first_significant(old(self)@, old(self)@.pos, final(self)@.pos),
            added_shapes(old(self)@, final(self)@) == bumped(old(self)@.tokens, old(self)@.pos, final(self)@.pos),
            final(self).error_messages() == old(self).error_messages(),
            grows(old(self).messages(), final(self).messages()),
    {
        proof {
            lemma_segment_refl(self@);
            assert(added_shapes(old(self)@, self@) =~= bumped(old(self)@.tokens, old(self)@.pos, self@.pos));
        }
        loop
            invariant
                self.wf(),
                segment(old(self)@, self@),
                forall|k: int| old(self)@.pos <= k < self@.pos ==> insignificant(#[trigger] self@.tokens[k].0),
                added_shapes(old(self)@, self@) == bumped(old(self)@.tokens, old(self)@.pos, self@.pos),
                self.error_messages() == old(self).error_messages(),
            ensures
                self@.pos < self@.tokens.len() ==> !insignificant(self@.tokens[self@.pos].0),
            decreases self.tokens.len() - self.pos,
        {
            match self.current() {
                Some(Token::Whitespace) | Some(Token::LineTerminator) | Some(Token::Comma) => {
                    let ghost before = self@;
                    self.bump();
                    proof {
                        lemma_segment_trans(old(self)@, before, self@);
                        lemma_added_shapes_trans(old(self)@, before, self@);
                        assert(bumped(old(self)@.tokens, old(self)@.pos, self@.pos) =~= bumped(
                            old(self)@.tokens,
                            old(self)@.pos,
                            before.pos,
                        ) + bumped(old(self)@.tokens, before.pos, self@.pos));
                    }
                },
                _ => {
                    break;
                },
            }
        }
    }
}


/// White space, a line terminator or a comma: a token that carries no
/// meaning.
pub open spec fn insignificant(token: Token) -> bool {
    token == Token::Whitespace || token == Token::LineTerminator || token == Token::Comma
}

/// `p` is the position of the first significant token of `v` at or after
/// `from`, or the end where there is none.
pub open spec fn first_significant(v: ParserView, from: int, p: int) -> bool {
    &&& from <= p <= v.tokens.len()
    &&& forall|k: int| from <= k < p ==> insignificant(#[trigger] v.tokens[k].0)
    &&& p < v.tokens.len() ==> !insignificant(v.tokens[p].0)
}

/// The position of the first significant token at or after `from`; the end
/// where there is none.
pub open spec fn next_significant_at(tokens: Seq<(Token, Seq<char>)>, from: int) -> int
    decreases tokens.len() - from,
{
    if from < 0 || from >= tokens.len() {
        tokens.len() as int
    } else if !insignificant(tokens[from].0) {
        from
    } else {
        next_significant_at(tokens, from + 1)
    }
}

/// The first significant token is the one [`next_significant_at`] names.
pub proof fn lemma_first_significant(v: ParserView, from: int, p: int)
    requires
        0 <= from,
        first_significant(v, from, p),
    ensures
        p == next_significant_at(v.tokens, from),
    decreases p - from,
{
    if from < p {
        assert(insignificant(v.tokens[from].0));
        lemma_first_significant(v, from + 1, p);
    }
}

/// The first significant token at or after a significant token is itself.
pub proof fn lemma_next_significant_stable(tokens: Seq<(Token, Seq<char>)>, from: int)
    requires
        0 <= from,
    ensures
        next_significant_at(tokens, next_significant_at(tokens, from)) == next_significant_at(
            tokens,
            from,
        ),
    decreases tokens.len() - from,
{
    if 0 <= from < tokens.len() && insignificant(tokens[from].0) {
        lemma_next_significant_stable(tokens, from + 1);
    }
}

/// The tokens left to parse.
pub open spec fn remaining(v: ParserView) -> int {
    v.tokens.len() - v.pos
}

/// The current token is `token`.
pub open spec fn at_token(v: ParserView, token: Token) -> bool {
    0 <= v.pos < v.tokens.len() && v.tokens[v.pos].0 == token
}

/// The current token is a name that reads `text`.
pub open spec fn at_name(v: ParserView, text: Seq<char>) -> bool {
    at_token(v, Token::Name) && v.tokens[v.pos].1 == text
}

impl Parser {
    /// The position of the current token.
    pub fn position(&self) -> (p: usize)
        ensures
            p == self@.pos,
    {
        self.pos
    }

    /// The position of the first token at or after `from` that is not white
    /// space, a line terminator or a comma.
    pub fn next_significant(&self, from: usize) -> (p: usize)
        requires
            self.wf(),
            from <= self@.tokens.len(),
        ensures
            first_significant(self@, from as int, p as int),
    {
        let mut i = from;
        while i < self.tokens.len()
            invariant
                self.wf(),
                from <= i <= self.tokens.len(),
                self@.tokens.len() == self.tokens.len(),
                forall|k: int| from <= k < i ==> insignificant(#[trigger] self@.tokens[k].0),
            decreases self.tokens.len() - i,
        {
            let token = self.tokens[i].0;
            if token == Token::Whitespace || token == Token::LineTerminator || token == Token::Comma {
                i = i + 1;
            } else {
                return i;
            }
        }
        i
    }

    /// The position of the first significant token after the current one.
    pub fn next_significant_after_current(&self) -> (p: usize)
        requires
            self.wf(),
            self@.pos < self@.tokens.len(),
        ensures
            first_significant(self@, self@.pos + 1, p as int),
    {
        self.next_significant(self.pos + 1)
    }

    /// The token at `i`, `None` past the end.
    pub fn token_at(&self, i: usize) -> (r: Option<Token>)
        ensures
            r == if i < self@.tokens.len() {
                Some(self@.tokens[i as int].0)
            } else {
                None::<Token>
            },
    {
        if i < self.tokens.len() {
            Some(self.tokens[i].0)
        } else {
            None
        }
    }

    /// Whether the token at `i` is a name that reads `text`.
    pub fn name_at_is(&self, i: usize, text: &str) -> (r: bool)
        ensures
            r == (i < self@.tokens.len() && self@.tokens[i as int].0 == Token::Name
                && self@.tokens[i as int].1 == text@),
    {
        if i < self.tokens.len() {
            let (token, current) = &self.tokens[i];
            let wanted = text.to_owned();
            *token == Token::Name && *current == wanted
        } else {
            false
        }
    }

    /// The events recorded, and the errors.
    pub fn finish(self) -> (r: (Vec<Event>, Vec<String>))
        ensures
            r.0@ == self@.events,
            r.1@ == self.error_messages(),
    {
        (self.events, self.errors)
    }
}
} // verus!

//! The productions of the concrete syntax tree.  Each one moves the parser
//! forward and records a balanced run of events that holds exactly the text
//! of the tokens it passed; most wrap that run in one node of their own kind.
use vstd::prelude::*;

use super::lexer::Token;
use super::parser::{
    at_name, at_token, balanced, events_text, lemma_segment_refl, node, single_node, lemma_segment_trans,
    lemma_segment_wrap, lemma_segment_wrap_at, raw_prefix_end, remaining, segment, Event, Parser,
    grows, added_shapes, bumped, repeated, EventShape, lemma_added_shapes_trans, lemma_bumped_concat,
    ParserView, insignificant, raw_tokens, texts, next_significant_at, lemma_first_significant, lemma_next_significant_stable, lemma_node_shapes,
};
use super::{token_syntax_kind, SyntaxKind};

verus! {

/// Whether variables may stand where a value is parsed.
#[derive(Clone, Copy, Debug, PartialEq, Eq, Structural)]
pub enum Context {
    Constant,
    NonConstant,
}

/// The token at `i` of `v` is `token`.
pub open spec fn token_is(v: ParserView, i: int, token: Token) -> bool {
    0 <= i < v.tokens.len() && v.tokens[i].0 == token
}

/// The current token and the next one, recorded as themselves inside a
/// node of `kind`, where the next one is a `Name`; the current one alone
/// otherwise.
pub open spec fn variable_end(v: ParserView) -> int {
    if token_is(v, v.pos + 1, Token::Name) {
        v.pos + 2
    } else {
        v.pos + 1
    }
}

/// Where the digits of a number stand: after its sign, where it has one.
pub open spec fn number_digits_at(v: ParserView) -> int {
    if token_is(v, v.pos, Token::NegativeSign) {
        v.pos + 1
    } else {
        v.pos
    }
}

/// Whether the digits of a number are there.
pub open spec fn number_has_digits(v: ParserView) -> bool {
    token_is(v, number_digits_at(v), Token::Number)
}

/// Where what follows the integer part of a number stands.
pub open spec fn number_after_integer(v: ParserView) -> int {
    if number_has_digits(v) {
        number_digits_at(v) + 1
    } else {
        number_digits_at(v)
    }
}

/// A number is a float where a fractional part or an exponent follows its
/// integer part.
pub open spec fn number_is_float(v: ParserView) -> bool {
    token_is(v, number_after_integer(v), Token::FractionalPart) || token_is(
        v,
        number_after_integer(v),
        Token::ExponentPart,
    )
}

/// Where a number ends: after its sign, digits, fractional part and
/// exponent, each where present.
pub open spec fn number_end(v: ParserView) -> int {
    let r = number_after_integer(v);
    let f = if token_is(v, r, Token::FractionalPart) {
        r + 1
    } else {
        r
    };
    if token_is(v, f, Token::ExponentPart) {
        f + 1
    } else {
        f
    }
}

/// Whether `token` ends a string that starts with a block quote (`block`)
/// or a quote.
pub open spec fn closes_string(token: Token, block: bool) -> bool {
    if block {
        token == Token::BlockQuote
    } else {
        token == Token::Quote
    }
}

/// Whether a string stops at `token`: at its closing quote, and at a line
/// terminator where it is in quotes.
pub open spec fn stops_string(token: Token, block: bool) -> bool {
    closes_string(token, block) || (!block && token == Token::LineTerminator)
}

/// The position of the first token at or after `from` where a string
/// stops; the end where there is none.
pub open spec fn string_stop(tokens: Seq<(Token, Seq<char>)>, from: int, block: bool) -> int
    decreases tokens.len() - from,
{
    if from < 0 || from >= tokens.len() {
        tokens.len() as int
    } else if stops_string(tokens[from].0, block) {
        from
    } else {
        string_stop(tokens, from + 1, block)
    }
}

/// The string that starts at the current token of `v` starts with a block
/// quote.
pub open spec fn string_is_block(v: ParserView) -> bool {
    v.tokens[v.pos].0 == Token::BlockQuote
}

/// Where the string that starts at the current token of `v` stops.
pub open spec fn string_stop_of(v: ParserView) -> int {
    string_stop(v.tokens, v.pos + 1, string_is_block(v))
}

/// The string that starts at the current token of `v` has its closing
/// quote.
pub open spec fn string_closed(v: ParserView) -> bool {
    string_stop_of(v) < v.tokens.len() && closes_string(
        v.tokens[string_stop_of(v)].0,
        string_is_block(v),
    )
}

/// Where the string ends: after its closing quote, or where it stops.
pub open spec fn string_end(v: ParserView) -> int {
    if string_closed(v) {
        string_stop_of(v) + 1
    } else {
        string_stop_of(v)
    }
}

/// What a string records inside its node: its opening quote, every token
/// before it stops as string contents, and its closing quote where it has
/// one.
pub open spec fn string_shapes(v: ParserView) -> Seq<EventShape> {
    seq![EventShape::Token(token_syntax_kind(v.tokens[v.pos].0))] + repeated(
        SyntaxKind::STRING_CONTENTS,
        string_stop_of(v) - v.pos - 1,
    ) + if string_closed(v) {
        seq![EventShape::Token(token_syntax_kind(v.tokens[string_stop_of(v)].0))]
    } else {
        Seq::empty()
    }
}

/// The errors after a string: none where it is closed, a missing quote
/// where it stops at a line terminator, the end of the input otherwise.
pub open spec fn string_messages(v: ParserView, messages: Seq<Seq<char>>) -> Seq<Seq<char>> {
    if string_closed(v) {
        messages
    } else if string_stop_of(v) < v.tokens.len() {
        messages.push("missing \""@)
    } else {
        messages.push("unexpected end of input while parsing string"@)
    }
}

/// `Name`, as a named type.
pub fn named_type(parser: &mut Parser)
    requires
        old(parser).wf(),
        at_token(old(parser)@, Token::Name),
    ensures
        final(parser).wf(),
        segment(old(parser)@, final(parser)@),
        node(old(parser)@, final(parser)@, SyntaxKind::NAMED_TYPE),
        final(parser)@.pos > old(parser)@.pos,
        final(parser)@.pos == old(parser)@.pos + 1,
        added_shapes(old(parser)@, final(parser)@) == seq![EventShape::Start(SyntaxKind::NAMED_TYPE)]
            + bumped(old(parser)@.tokens, old(parser)@.pos, old(parser)@.pos + 1) + seq![EventShape::Finish],
        final(parser).messages() == old(parser).messages(),
        grows(old(parser).messages(), final(parser).messages()),
{
    let ghost v0 = parser@;
    parser.start_node(SyntaxKind::NAMED_TYPE);
    let ghost v1 = parser@;
    parser.bump();
    let ghost v2 = parser@;
    parser.finish_node();
    proof {
        lemma_segment_wrap(v0, v1, v2, parser@, SyntaxKind::NAMED_TYPE);
    }
}

/// `$` followed by a name.
#[verifier::spinoff_prover]
pub fn variable(parser: &mut Parser)
    requires
        old(parser).wf(),
        at_token(old(parser)@, Token::Dollar),
    ensures
        final(parser).wf(),
        segment(old(parser)@, final(parser)@),
        node(old(parser)@, final(parser)@, SyntaxKind::VARIABLE),
        final(parser)@.pos > old(parser)@.pos,
        final(parser)@.pos == variable_end(old(parser)@),
        added_shapes(old(parser)@, final(parser)@) == seq![EventShape::Start(SyntaxKind::VARIABLE)]
            + bumped(old(parser)@.tokens, old(parser)@.pos, variable_end(old(parser)@)) + seq![
            EventShape::Finish,
        ],
        final(parser).messages() == if token_is(old(parser)@, old(parser)@.pos + 1, Token::Name) {
            old(parser).messages()
        } else {
            old(parser).messages().push("expected variable name"@)
        },
        grows(old(parser).messages(), final(parser).messages()),
{
    let ghost v0 = parser@;
    parser.start_node(SyntaxKind::VARIABLE);
    let ghost v1 = parser@;
    parser.bump();
    let ghost v2 = parser@;
    if parser.current() == Some(Token::Name) {
        parser.bump();
        proof {
            lemma_segment_trans(v1, v2, parser@);
            lemma_added_shapes_trans(v1, v2, parser@);
            lemma_bumped_concat(v0.tokens, v0.pos, v0.pos + 1, v0.pos + 2);
        }
    } else {
        parser.error("expected variable name");
    }
    let ghost v3 = parser@;
    parser.finish_node();
    proof {
        lemma_segment_wrap(v0, v1, v3, parser@, SyntaxKind::VARIABLE);
    }
}

/// `true` or `false`.
pub fn boolean(parser: &mut Parser)
    requires
        old(parser).wf(),
        at_name(old(parser)@, "true"@) || at_name(old(parser)@, "false"@),
    ensures
        final(parser).wf(),
        segment(old(parser)@, final(parser)@),
        final(parser)@.pos > old(parser)@.pos,
        final(parser)@.pos == old(parser)@.pos + 1,
        added_shapes(old(parser)@, final(parser)@) == seq![
            EventShape::Token(
                if at_name(old(parser)@, "true"@) {
                    SyntaxKind::TRUE
                } else {
                    SyntaxKind::FALSE
                },
            ),
        ],
        final(parser).messages() == old(parser).messages(),
        grows(old(parser).messages(), final(parser).messages()),
{
    if parser.current_is_name("true") {
        parser.bump_as(SyntaxKind::TRUE);
    } else {
        parser.bump_as(SyntaxKind::FALSE);
    }
}

/// `null`.
pub fn null(parser: &mut Parser)
    requires
        old(parser).wf(),
        at_name(old(parser)@, "null"@),
    ensures
        final(parser).wf(),
        segment(old(parser)@, final(parser)@),
        final(parser)@.pos > old(parser)@.pos,
        final(parser)@.pos == old(parser)@.pos + 1,
        added_shapes(old(parser)@, final(parser)@) == seq![EventShape::Token(SyntaxKind::NULL)],
        final(parser).messages() == old(parser).messages(),
        grows(old(parser).messages(), final(parser).messages()),
{
    parser.bump_as(SyntaxKind::NULL);
}

/// A name, as an enum value.
pub fn enum_value(parser: &mut Parser)
    requires
        old(parser).wf(),
        at_token(old(parser)@, Token::Name),
    ensures
        final(parser).wf(),
        segment(old(parser)@, final(parser)@),
        node(old(parser)@, final(parser)@, SyntaxKind::ENUM_VALUE),
        final(parser)@.pos > old(parser)@.pos,
        final(parser)@.pos == old(parser)@.pos + 1,
        added_shapes(old(parser)@, final(parser)@) == seq![EventShape::Start(SyntaxKind::ENUM_VALUE)]
            + bumped(old(parser)@.tokens, old(parser)@.pos, old(parser)@.pos + 1) + seq![EventShape::Finish],
        final(parser).messages() == old(parser).messages(),
        grows(old(parser).messages(), final(parser).messages()),
{
    let ghost v0 = parser@;
    parser.start_node(SyntaxKind::ENUM_VALUE);
    let ghost v1 = parser@;
    parser.bump();
    let ghost v2 = parser@;
    parser.finish_node();
    proof {
        lemma_segment_wrap(v0, v1, v2, parser@, SyntaxKind::ENUM_VALUE);
    }
}

/// An integer or a float: `-`, digits, then a fraction and an exponent,
/// each where present.  With a fraction or an exponent it is a float.
#[verifier::spinoff_prover]
#[verifier::rlimit(30)]
pub fn number(parser: &mut Parser)
    requires
        old(parser).wf(),
        at_token(old(parser)@, Token::Number) || at_token(old(parser)@, Token::NegativeSign),
    ensures
        final(parser).wf(),
        segment(old(parser)@, final(parser)@),
        node(old(parser)@, final(parser)@, SyntaxKind::INTEGER_VALUE) || node(
            old(parser)@,
            final(parser)@,
            SyntaxKind::FLOAT_VALUE,
        ),
        final(parser)@.pos > old(parser)@.pos,
        final(parser)@.pos == number_end(old(parser)@),
        added_shapes(old(parser)@, final(parser)@) == seq![
            EventShape::Start(
                if number_is_float(old(parser)@) {
                    SyntaxKind::FLOAT_VALUE
                } else {
                    SyntaxKind::INTEGER_VALUE
                },
            ),
        ] + bumped(old(parser)@.tokens, old(parser)@.pos, number_end(old(parser)@)) + seq![
            EventShape::Finish,
        ],
        final(parser).messages() == if number_has_digits(old(parser)@) {
            old(parser).messages()
        } else {
            old(parser).messages().push("expected number"@)
        },
        grows(old(parser).messages(), final(parser).messages()),
{
    let ghost v0 = parser@;
    let checkpoint = parser.checkpoint();
    proof {
        lemma_segment_refl(v0);
        assert(bumped(v0.tokens, v0.pos, v0.pos) =~= Seq::<EventShape>::empty());
    }
    if parser.current() == Some(Token::NegativeSign) {
        let ghost before = parser@;
        parser.bump();
        proof {
            lemma_segment_trans(v0, before, parser@);
            lemma_added_shapes_trans(v0, before, parser@);
            lemma_bumped_concat(v0.tokens, v0.pos, before.pos, parser@.pos);
        }
    }
    assert(parser@.pos == number_digits_at(v0));
    if parser.current() == Some(Token::Number) {
        let ghost before = parser@;
        parser.bump();
        proof {
            lemma_segment_trans(v0, before, parser@);
            lemma_added_shapes_trans(v0, before, parser@);
            lemma_bumped_concat(v0.tokens, v0.pos, before.pos, parser@.pos);
        }
    } else {
        parser.error("expected number");
    }
    assert(parser@.pos == number_after_integer(v0));
    let kind = match parser.current() {
        Some(Token::ExponentPart) | Some(Token::FractionalPart) => {
            if parser.current() == Some(Token::FractionalPart) {
                let ghost before = parser@;
                parser.bump();
                proof {
                    lemma_segment_trans(v0, before, parser@);
                    lemma_added_shapes_trans(v0, before, parser@);
                    lemma_bumped_concat(v0.tokens, v0.pos, before.pos, parser@.pos);
                }
            }
            if parser.current() == Some(Token::ExponentPart) {
                let ghost before = parser@;
                parser.bump();
                proof {
                    lemma_segment_trans(v0, before, parser@);
                    lemma_added_shapes_trans(v0, before, parser@);
                    lemma_bumped_concat(v0.tokens, v0.pos, before.pos, parser@.pos);
                }
            }
            SyntaxKind::FLOAT_VALUE
        },
        _ => SyntaxKind::INTEGER_VALUE,
    };
    let ghost v2 = parser@;
    parser.start_node_at(checkpoint, kind);
    parser.finish_node();
    proof {
        lemma_segment_wrap_at(v0, v2, parser@, kind);
    }
}

/// A string: its quotes and everything between them, as string contents.
/// A string in quotes ends at a line terminator.
#[verifier::spinoff_prover]
#[verifier::rlimit(30)]
pub fn string(parser: &mut Parser)
    requires
        old(parser).wf(),
        at_token(old(parser)@, Token::Quote) || at_token(old(parser)@, Token::BlockQuote),
    ensures
        final(parser).wf(),
        segment(old(parser)@, final(parser)@),
        node(old(parser)@, final(parser)@, SyntaxKind::STRING_VALUE),
        final(parser)@.pos > old(parser)@.pos,
        final(parser)@.pos == string_end(old(parser)@),
        added_shapes(old(parser)@, final(parser)@) == seq![EventShape::Start(SyntaxKind::STRING_VALUE)]
            + string_shapes(old(parser)@) + seq![EventShape::Finish],
        final(parser).messages() == string_messages(old(parser)@, old(parser).messages()),
        grows(old(parser).messages(), final(parser).messages()),
{
    let ghost v0 = parser@;
    let ghost m0 = parser.messages();
    parser.start_node(SyntaxKind::STRING_VALUE);
    let ghost v1 = parser@;
    let block = parser.current() == Some(Token::BlockQuote);
    parser.bump();
    let ghost v2 = parser@;
    proof {
        lemma_segment_refl(v1);
        lemma_segment_trans(v1, v1, v2);
        assert(repeated(SyntaxKind::STRING_CONTENTS, 0) =~= Seq::<EventShape>::empty());
        assert(bumped(v0.tokens, v0.pos, v0.pos + 1) =~= seq![
            EventShape::Token(token_syntax_kind(v0.tokens[v0.pos].0)),
        ]);
        assert(added_shapes(v1, v2) =~= seq![EventShape::Token(token_syntax_kind(v0.tokens[v0.pos].0))]
            + repeated(SyntaxKind::STRING_CONTENTS, 0));
    }
    loop
        invariant_except_break
            parser.messages() == m0,
            string_stop_of(v0) == string_stop(v0.tokens, parser@.pos, block),
            added_shapes(v1, parser@) == seq![EventShape::Token(token_syntax_kind(v0.tokens[v0.pos].0))]
                + repeated(SyntaxKind::STRING_CONTENTS, parser@.pos - v2.pos),
        invariant
            grows(old(parser).messages(), parser.messages()),
            parser.wf(),
            segment(v1, parser@),
            parser@.tokens == v0.tokens,
            v1.pos == v0.pos,
            v1.tokens == v0.tokens,
            v2.pos == v0.pos + 1,
            v2.pos <= parser@.pos <= v0.tokens.len(),
            block == string_is_block(v0),
        ensures
            parser.wf(),
            segment(v1, parser@),
            parser@.pos > v1.pos,
            parser@.pos == string_end(v0),
            added_shapes(v1, parser@) == string_shapes(v0),
            parser.messages() == string_messages(v0, m0),
        decreases remaining(parser@),
    {
        let ghost before = parser@;
        match parser.current() {
            None => {
                parser.error("unexpected end of input while parsing string");
                proof {
                    assert(string_stop_of(v0) == before.pos);
                    assert(string_shapes(v0) =~= added_shapes(v1, parser@));
                }
                break;
            },
            Some(Token::Quote) if !block => {
                parser.bump();
                proof {
                    lemma_segment_trans(v1, before, parser@);
                    lemma_added_shapes_trans(v1, before, parser@);
                    assert(string_stop_of(v0) == before.pos);
                    assert(bumped(v0.tokens, before.pos, before.pos + 1) =~= seq![
                        EventShape::Token(token_syntax_kind(v0.tokens[before.pos].0)),
                    ]);
                    assert(string_shapes(v0) =~= added_shapes(v1, parser@));
                }
                break;
            },
            Some(Token::BlockQuote) if block => {
                parser.bump();
                proof {
                    lemma_segment_trans(v1, before, parser@);
                    lemma_added_shapes_trans(v1, before, parser@);
                    assert(string_stop_of(v0) == before.pos);
                    assert(bumped(v0.tokens, before.pos, before.pos + 1) =~= seq![
                        EventShape::Token(token_syntax_kind(v0.tokens[before.pos].0)),
                    ]);
                    assert(string_shapes(v0) =~= added_shapes(v1, parser@));
                }
                break;
            },
            Some(Token::LineTerminator) if !block => {
                parser.error("missing \"");
                proof {
                    assert(string_stop_of(v0) == before.pos);
                    assert(string_shapes(v0) =~= added_shapes(v1, parser@));
                }
                break;
            },
            _ => {
                parser.bump_as(SyntaxKind::STRING_CONTENTS);
                proof {
                    lemma_segment_trans(v1, before, parser@);
                    lemma_added_shapes_trans(v1, before, parser@);
                    assert(!stops_string(v0.tokens[before.pos].0, block));
                    assert(added_shapes(v1, parser@) =~= seq![
                        EventShape::Token(token_syntax_kind(v0.tokens[v0.pos].0)),
                    ] + repeated(SyntaxKind::STRING_CONTENTS, parser@.pos - v2.pos));
                }
            },
        }
    }
    let ghost v3 = parser@;
    parser.finish_node();
    proof {
        lemma_segment_wrap(v0, v1, v3, parser@, SyntaxKind::STRING_VALUE);
    }
}

/// Each of `items` is a node of `kind` that starts at a `token`, right
/// where the one before it ends (at `first` for the first).
pub open spec fn contiguous(
    tokens: Seq<(Token, Seq<char>)>,
    first: int,
    items: Seq<TopItem>,
    token: Token,
    kind: SyntaxKind,
) -> bool
    decreases items.len(),
{
    if items.len() == 0 {
        true
    } else {
        let item = items.last();
        &&& contiguous(tokens, first, items.drop_last(), token, kind)
        &&& item.start == last_end(first, items.drop_last())
        &&& 0 <= item.start < item.end <= tokens.len()
        &&& tokens[item.start].0 == token
        &&& item.shapes.len() >= 2
        &&& item.shapes[0] == EventShape::Start(kind)
        &&& item.shapes.last() == EventShape::Finish
    }
}

/// What `items` record, in order.
pub open spec fn item_shapes(items: Seq<TopItem>) -> Seq<EventShape>
    decreases items.len(),
{
    if items.len() == 0 {
        Seq::empty()
    } else {
        item_shapes(items.drop_last()) + items.last().shapes
    }
}

/// From `before` to `after` a delimited list was parsed into a node of
/// `kind`: its opening token and the tokens that carry no meaning after
/// it, then `items`, each a node of `item_kind` that starts at an
/// `item_token`; then, where the closing token `close` stands, that token
/// (and the tokens that carry no meaning after it, where `trailing`).
/// Where something else stands the list ends before it, with `eof` as the
/// error at the end of the input and `other` as the error elsewhere.
pub open spec fn delimited(
    before: ParserView,
    after: ParserView,
    m0: Seq<Seq<char>>,
    m1: Seq<Seq<char>>,
    items: Seq<TopItem>,
    kind: SyntaxKind,
    item_kind: SyntaxKind,
    item_token: Token,
    close: Token,
    trailing: bool,
    eof: Seq<char>,
    other: Seq<char>,
) -> bool {
    let tokens = before.tokens;
    let first = next_significant_at(tokens, before.pos + 1);
    let e = last_end(first, items);
    &&& after.tokens == tokens
    &&& contiguous(tokens, first, items, item_token, item_kind)
    &&& e <= after.pos
    &&& added_shapes(before, after) == seq![EventShape::Start(kind)] + bumped(tokens, before.pos, first)
        + item_shapes(items) + bumped(tokens, e, after.pos) + seq![EventShape::Finish]
    &&& if e < tokens.len() && tokens[e].0 == close {
        &&& after.pos == if trailing {
            next_significant_at(tokens, e + 1)
        } else {
            e + 1
        }
        &&& m1 == m0 + top_messages(items)
    } else {
        &&& after.pos == e
        &&& m1 == (m0 + top_messages(items)).push(
            if e == tokens.len() {
                eof
            } else {
                other
            },
        )
    }
}

/// The token at `p` of `v` is a name that reads `text`.
pub open spec fn name_is(v: ParserView, p: int, text: Seq<char>) -> bool {
    token_is(v, p, Token::Name) && v.tokens[p].1 == text
}

/// The first significant token at or after the current one of `v`.
pub open spec fn ahead(v: ParserView) -> int {
    next_significant_at(v.tokens, v.pos)
}

/// A fragment name stands first: a name other than `on`.
pub open spec fn fragment_name_ahead(v: ParserView) -> bool {
    token_is(v, ahead(v), Token::Name) && !name_is(v, ahead(v), "on"@)
}

/// Where the named type of a type condition at `v` stands.
pub open spec fn condition_type_at(v: ParserView) -> int {
    next_significant_at(v.tokens, ahead(v) + 1)
}

/// Where the arguments of a directive whose `@` is the current token of `v`
/// would start: after its name, where it has one.
pub open spec fn directive_arguments_at(v: ParserView) -> int {
    let w = next_significant_at(v.tokens, v.pos + 1);
    if token_is(v, w, Token::Name) {
        next_significant_at(v.tokens, w + 1)
    } else {
        w
    }
}

/// The kind of node that a selection starting at `p` records: a field at a
/// name; after `...`, a fragment spread where a name other than `on`
/// follows, an inline fragment otherwise.
pub open spec fn selection_kind(tokens: Seq<(Token, Seq<char>)>, p: int) -> SyntaxKind {
    if tokens[p].0 == Token::Name {
        SyntaxKind::FIELD_SELECTION
    } else {
        let n = next_significant_at(tokens, p + 1);
        if n < tokens.len() && tokens[n].0 == Token::Name && tokens[n].1 != "on"@ {
            SyntaxKind::FRAGMENT_SPREAD
        } else {
            SyntaxKind::INLINE_FRAGMENT
        }
    }
}

/// Each of `items` is a selection, at a name or a `...`, that starts at the
/// first significant token after the one before it (at `first` for the
/// first).
pub open spec fn placed_selections(tokens: Seq<(Token, Seq<char>)>, first: int, items: Seq<TopItem>) -> bool
    decreases items.len(),
{
    if items.len() == 0 {
        true
    } else {
        let item = items.last();
        &&& placed_selections(tokens, first, items.drop_last())
        &&& item.start == next_significant_at(tokens, last_end(first, items.drop_last()))
        &&& 0 <= item.start < item.end <= tokens.len()
        &&& (tokens[item.start].0 == Token::Name || tokens[item.start].0 == Token::Spread)
        &&& item.shapes.len() >= 2
        &&& item.shapes[0] == EventShape::Start(selection_kind(tokens, item.start))
        &&& item.shapes.last() == EventShape::Finish
    }
}

/// From `before` to `after` a selection set was parsed into `items`: its
/// `{`, its selections with the tokens between them, and its `}`.  Where
/// neither a selection nor `}` stands, the set ends there with an error.
pub open spec fn parsed_selection_set(
    before: ParserView,
    after: ParserView,
    m0: Seq<Seq<char>>,
    m1: Seq<Seq<char>>,
    items: Seq<TopItem>,
) -> bool {
    let tokens = before.tokens;
    let first = next_significant_at(tokens, before.pos + 1);
    let e = last_end(first, items);
    let s = next_significant_at(tokens, e);
    &&& after.tokens == tokens
    &&& placed_selections(tokens, first, items)
    &&& e <= after.pos
    &&& added_shapes(before, after) == seq![EventShape::Start(SyntaxKind::SELECTION_SET)] + bumped(
        tokens,
        before.pos,
        first,
    ) + top_shapes(tokens, first, items) + bumped(tokens, e, after.pos) + seq![EventShape::Finish]
    &&& if s < tokens.len() && tokens[s].0 == Token::CloseCurly {
        &&& after.pos == s + 1
        &&& m1 == m0 + top_messages(items)
    } else {
        &&& after.pos == s
        &&& m1 == (m0 + top_messages(items)).push(
            if s == tokens.len() {
                "missing }"@
            } else {
                "expected a selection"@
            },
        )
    }
}

/// Each of `items` is a value node that starts at the first significant
/// token after the one before it (at `first` for the first); every one but
/// the last passes over some tokens.
pub open spec fn placed_values(tokens: Seq<(Token, Seq<char>)>, first: int, items: Seq<TopItem>) -> bool
    decreases items.len(),
{
    if items.len() == 0 {
        true
    } else {
        let item = items.last();
        &&& placed_values(tokens, first, items.drop_last())
        &&& items.drop_last().len() > 0 ==> items.drop_last().last().start < items.drop_last().last().end
        &&& item.start == next_significant_at(tokens, last_end(first, items.drop_last()))
        &&& 0 <= item.start <= item.end <= tokens.len()
        &&& item.shapes.len() >= 2
        &&& item.shapes[0] == EventShape::Start(SyntaxKind::VALUE)
        &&& item.shapes.last() == EventShape::Finish
    }
}

/// From `before` to `after` a list was parsed into `items`: its `[`, its
/// values with the tokens between them, and its `]`.  It ends without its
/// `]` at the end of the input, with an error, or where no value stands,
/// whose empty value node and error are its last item.
pub open spec fn parsed_list(
    before: ParserView,
    after: ParserView,
    m0: Seq<Seq<char>>,
    m1: Seq<Seq<char>>,
    items: Seq<TopItem>,
) -> bool {
    let tokens = before.tokens;
    let first = next_significant_at(tokens, before.pos + 1);
    let e = last_end(first, items);
    let s = next_significant_at(tokens, e);
    &&& after.tokens == tokens
    &&& placed_values(tokens, first, items)
    &&& e <= after.pos
    &&& added_shapes(before, after) == seq![EventShape::Start(SyntaxKind::LIST_VALUE)] + bumped(
        tokens,
        before.pos,
        first,
    ) + top_shapes(tokens, first, items) + bumped(tokens, e, after.pos) + seq![EventShape::Finish]
    &&& if items.len() > 0 && items.last().start == items.last().end {
        &&& after.pos == e
        &&& items.last().shapes == seq![
            EventShape::Start(SyntaxKind::VALUE),
            EventShape::Finish,
        ]
        &&& items.last().messages == seq!["expected a value"@]
        &&& m1 == m0 + top_messages(items)
    } else if s < tokens.len() && tokens[s].0 == Token::CloseSquare {
        &&& after.pos == s + 1
        &&& m1 == m0 + top_messages(items)
    } else {
        &&& s == tokens.len()
        &&& after.pos == s
        &&& m1 == (m0 + top_messages(items)).push("missing ]"@)
    }
}

/// `v` moved to position `p`.
pub open spec fn moved_to(v: ParserView, p: int) -> ParserView {
    ParserView { pos: p, ..v }
}

/// A value whose first token is `{` or `[`: an object or a list.
pub open spec fn value_is_compound(w: ParserView) -> bool {
    token_is(w, w.pos, Token::OpenCurly) || token_is(w, w.pos, Token::OpenSquare)
}

/// What a value records first, by its first token (at `w`): the start of
/// its node, or its token for `true`, `false` and `null`; nothing where no
/// value stands.
pub open spec fn value_head(w: ParserView) -> Option<EventShape> {
    if !(0 <= w.pos < w.tokens.len()) {
        None
    } else {
        let t = w.tokens[w.pos];
        match t.0 {
            Token::Dollar => Some(EventShape::Start(SyntaxKind::VARIABLE)),
            Token::NegativeSign | Token::Number => Some(
                EventShape::Start(
                    if number_is_float(w) {
                        SyntaxKind::FLOAT_VALUE
                    } else {
                        SyntaxKind::INTEGER_VALUE
                    },
                ),
            ),
            Token::Quote | Token::BlockQuote => Some(EventShape::Start(SyntaxKind::STRING_VALUE)),
            Token::Name => Some(
                if t.1 == "true"@ {
                    EventShape::Token(SyntaxKind::TRUE)
                } else if t.1 == "false"@ {
                    EventShape::Token(SyntaxKind::FALSE)
                } else if t.1 == "null"@ {
                    EventShape::Token(SyntaxKind::NULL)
                } else {
                    EventShape::Start(SyntaxKind::ENUM_VALUE)
                },
            ),
            Token::OpenCurly => Some(EventShape::Start(SyntaxKind::OBJECT_VALUE)),
            Token::OpenSquare => Some(EventShape::Start(SyntaxKind::LIST_VALUE)),
            _ => None,
        }
    }
}

/// Where a value that is neither an object nor a list ends, from its first
/// token at `w`.
pub open spec fn simple_value_end(w: ParserView) -> int {
    match value_head(w) {
        None => w.pos,
        Some(EventShape::Start(SyntaxKind::VARIABLE)) => variable_end(w),
        Some(EventShape::Start(SyntaxKind::STRING_VALUE)) => string_end(w),
        Some(EventShape::Start(SyntaxKind::FLOAT_VALUE)) => number_end(w),
        Some(EventShape::Start(SyntaxKind::INTEGER_VALUE)) => number_end(w),
        _ => w.pos + 1,
    }
}

/// What a value that is neither an object nor a list records.
pub open spec fn simple_value_shapes(w: ParserView) -> Seq<EventShape> {
    match value_head(w) {
        None => Seq::empty(),
        Some(EventShape::Start(SyntaxKind::STRING_VALUE)) => seq![
            EventShape::Start(SyntaxKind::STRING_VALUE),
        ] + string_shapes(w) + seq![EventShape::Finish],
        Some(EventShape::Start(kind)) => seq![EventShape::Start(kind)] + bumped(
            w.tokens,
            w.pos,
            simple_value_end(w),
        ) + seq![EventShape::Finish],
        Some(shape) => seq![shape],
    }
}

/// The errors after a value that is neither an object nor a list.
pub open spec fn simple_value_messages(w: ParserView, m: Seq<Seq<char>>, context: Context) -> Seq<Seq<char>> {
    match value_head(w) {
        None => m.push("expected a value"@),
        Some(EventShape::Start(SyntaxKind::VARIABLE)) => {
            let m1 = if context == Context::Constant {
                m.push("variables are not allowed in a constant position"@)
            } else {
                m
            };
            if token_is(w, w.pos + 1, Token::Name) {
                m1
            } else {
                m1.push("expected variable name"@)
            }
        },
        Some(EventShape::Start(SyntaxKind::STRING_VALUE)) => string_messages(w, m),
        Some(EventShape::Start(SyntaxKind::FLOAT_VALUE)) | Some(
            EventShape::Start(SyntaxKind::INTEGER_VALUE),
        ) => if number_has_digits(w) {
            m
        } else {
            m.push("expected number"@)
        },
        _ => m,
    }
}

/// A value: a variable, number, string, boolean, null, enum value, object
/// or list, inside a value node.  Where no value stands, an error is
/// recorded and the node is empty.
#[verifier::spinoff_prover]
#[verifier::rlimit(60)]
pub fn value(parser: &mut Parser, context: Context)
    requires
        old(parser).wf(),
    ensures
        final(parser).wf(),
        segment(old(parser)@, final(parser)@),
        node(old(parser)@, final(parser)@, SyntaxKind::VALUE),
        grows(old(parser).messages(), final(parser).messages()),
        ({
            let w = moved_to(old(parser)@, next_significant_at(old(parser)@.tokens, old(parser)@.pos));
            &&& added_shapes(old(parser)@, final(parser)@).len() > w.pos - old(parser)@.pos + 1
            &&& added_shapes(old(parser)@, final(parser)@).subrange(0, w.pos - old(parser)@.pos + 1)
                == seq![EventShape::Start(SyntaxKind::VALUE)] + bumped(
                old(parser)@.tokens,
                old(parser)@.pos,
                w.pos,
            )
            &&& value_head(w) matches Some(head) ==> added_shapes(old(parser)@, final(parser)@)[w.pos
                - old(parser)@.pos + 1] == head
            &&& value_head(w) is Some ==> final(parser)@.pos > w.pos
            &&& !value_is_compound(w) ==> {
                &&& final(parser)@.pos == next_significant_at(
                    old(parser)@.tokens,
                    simple_value_end(w),
                )
                &&& added_shapes(old(parser)@, final(parser)@) == seq![
                    EventShape::Start(SyntaxKind::VALUE),
                ] + bumped(old(parser)@.tokens, old(parser)@.pos, w.pos) + simple_value_shapes(w)
                    + bumped(old(parser)@.tokens, simple_value_end(w), final(parser)@.pos) + seq![
                    EventShape::Finish,
                ]
                &&& final(parser).messages() == simple_value_messages(
                    w,
                    old(parser).messages(),
                    context,
                )
            }
        }),
    decreases remaining(old(parser)@), 3int,
{
    let ghost v0 = parser@;
    let ghost m0 = parser.messages();
    parser.start_node(SyntaxKind::VALUE);
    let ghost v1 = parser@;
    parser.skip_ws();
    let ghost v2 = parser@;
    proof {
        lemma_first_significant(v1, v1.pos, v2.pos);
        assert(v2.pos == next_significant_at(v0.tokens, v0.pos));
    }
    let ghost w = moved_to(v0, v2.pos);
    proof {
        assert(value_head(v2) == value_head(w));
        assert(value_is_compound(v2) == value_is_compound(w));
        assert(simple_value_end(v2) == simple_value_end(w));
        assert(simple_value_shapes(v2) == simple_value_shapes(w));
        assert(simple_value_messages(v2, m0, context) == simple_value_messages(w, m0, context));
    }
    match parser.current() {
        Some(Token::Dollar) => {
            if context == Context::Constant {
                parser.error("variables are not allowed in a constant position");
            }
            variable(parser);
        },
        Some(Token::NegativeSign) | Some(Token::Number) => number(parser),
        Some(Token::Quote) | Some(Token::BlockQuote) => string(parser),
        Some(Token::Name) => {
            if parser.current_is_name("true") || parser.current_is_name("false") {
                boolean(parser);
            } else if parser.current_is_name("null") {
                null(parser);
            } else {
                enum_value(parser);
            }
        },
        Some(Token::OpenCurly) => {
            object(parser, context);
            proof {
                lemma_node_shapes(v2, parser@, SyntaxKind::OBJECT_VALUE);
            }
        },
        Some(Token::OpenSquare) => {
            list(parser, context);
            proof {
                lemma_node_shapes(v2, parser@, SyntaxKind::LIST_VALUE);
            }
        },
        _ => {
            parser.error("expected a value");
            proof {
                lemma_segment_refl(v2);
            }
        },
    }
    let ghost v3 = parser@;
    proof {
        if !value_is_compound(v2) {
            assert(v3.pos == simple_value_end(v2));
            assert(added_shapes(v2, v3) == simple_value_shapes(v2));
            assert(parser.messages() == simple_value_messages(v2, m0, context));
        }
        if let Some(head) = value_head(v2) {
            assert(added_shapes(v2, v3).len() >= 1 && added_shapes(v2, v3)[0] == head);
        }
    }
    parser.skip_ws();
    let ghost v4 = parser@;
    proof {
        lemma_segment_trans(v1, v2, v3);
        lemma_segment_trans(v1, v3, parser@);
        lemma_added_shapes_trans(v1, v2, v3);
        lemma_added_shapes_trans(v1, v3, v4);
        lemma_first_significant(v3, v3.pos, v4.pos);
    }
    parser.finish_node();
    proof {
        lemma_segment_wrap(v0, v1, v4, parser@, SyntaxKind::VALUE);
        let n = w.pos - v0.pos;
        assert(added_shapes(v0, parser@) =~= seq![EventShape::Start(SyntaxKind::VALUE)] + bumped(
            v0.tokens,
            v0.pos,
            w.pos,
        ) + added_shapes(v2, v3) + added_shapes(v3, v4) + seq![EventShape::Finish]);
        assert(added_shapes(v0, parser@).subrange(0, n + 1) =~= seq![
            EventShape::Start(SyntaxKind::VALUE),
        ] + bumped(v0.tokens, v0.pos, w.pos));
        if let Some(head) = value_head(w) {
            assert(added_shapes(v0, parser@)[n + 1] == added_shapes(v2, v3)[0]);
        }
    }
}

/// `{` fields `}`.  The object ends at the end of the input, or where a
/// field should stand and does not.
#[verifier::spinoff_prover]
#[verifier::rlimit(40)]
pub fn object(parser: &mut Parser, context: Context)
    requires
        old(parser).wf(),
        at_token(old(parser)@, Token::OpenCurly),
    ensures
        final(parser).wf(),
        segment(old(parser)@, final(parser)@),
        node(old(parser)@, final(parser)@, SyntaxKind::OBJECT_VALUE),
        final(parser)@.pos > old(parser)@.pos,
        grows(old(parser).messages(), final(parser).messages()),
        exists|items: Seq<TopItem>|
            #[trigger] delimited(
                old(parser)@,
                final(parser)@,
                old(parser).messages(),
                final(parser).messages(),
                items,
                SyntaxKind::OBJECT_VALUE,
                SyntaxKind::OBJECT_FIELD,
                Token::Name,
                Token::CloseCurly,
                false,
                "missing }"@,
                "expected name"@,
            ),
    decreases remaining(old(parser)@), 2int,
{
    let ghost v0 = parser@;
    let ghost m0 = parser.messages();
    parser.start_node(SyntaxKind::OBJECT_VALUE);
    let ghost v1 = parser@;
    parser.bump();
    let ghost v2 = parser@;
    parser.skip_ws();
    let ghost v3 = parser@;
    let ghost first = v3.pos;
    let ghost mut items: Seq<TopItem> = Seq::empty();
    proof {
        lemma_segment_trans(v1, v2, parser@);
        lemma_added_shapes_trans(v1, v2, v3);
        lemma_first_significant(v2, v2.pos, v3.pos);
        lemma_bumped_concat(v0.tokens, v0.pos, v0.pos + 1, first);
        assert(item_shapes(items) =~= Seq::<EventShape>::empty());
        assert(added_shapes(v1, parser@) =~= bumped(v0.tokens, v0.pos, first) + item_shapes(items));
        assert(parser.messages() =~= m0 + top_messages(items));
    }
    loop
        invariant_except_break
            parser@.pos == last_end(first, items),
            added_shapes(v1, parser@) == bumped(v0.tokens, v0.pos, first) + item_shapes(items),
            parser.messages() == m0 + top_messages(items),
        invariant
            grows(old(parser).messages(), parser.messages()),
            parser.wf(),
            segment(v1, parser@),
            parser@.pos > v1.pos,
            remaining(parser@) < remaining(v0),
            v0 == old(parser)@,
            m0 == old(parser).messages(),
            parser@.tokens == v0.tokens,
            v1.pos == v0.pos,
            first == next_significant_at(v0.tokens, v0.pos + 1),
            contiguous(v0.tokens, first, items, Token::Name, SyntaxKind::OBJECT_FIELD),
        ensures
            parser.wf(),
            segment(v1, parser@),
            parser@.pos > v1.pos,
            grows(old(parser).messages(), parser.messages()),
            contiguous(v0.tokens, first, items, Token::Name, SyntaxKind::OBJECT_FIELD),
            last_end(first, items) <= parser@.pos,
            added_shapes(v1, parser@) == bumped(v0.tokens, v0.pos, first) + item_shapes(items) + bumped(
                v0.tokens,
                last_end(first, items),
                parser@.pos,
            ),
            if last_end(first, items) < v0.tokens.len() && v0.tokens[last_end(first, items)].0
                == Token::CloseCurly {
                &&& parser@.pos == last_end(first, items) + 1
                &&& parser.messages() == m0 + top_messages(items)
            } else {
                &&& parser@.pos == last_end(first, items)
                &&& parser.messages() == (m0 + top_messages(items)).push(
                    if last_end(first, items) == v0.tokens.len() {
                        "missing }"@
                    } else {
                        "expected name"@
                    },
                )
            },
        decreases remaining(parser@),
    {
        let ghost before = parser@;
        let ghost mb = parser.messages();
        proof {
            assert(bumped(v0.tokens, before.pos, before.pos) =~= Seq::<EventShape>::empty());
        }
        match parser.current() {
            None => {
                parser.error("missing }");
                proof {
                    assert(added_shapes(v1, parser@) =~= bumped(v0.tokens, v0.pos, first) + item_shapes(items)
                        + bumped(v0.tokens, before.pos, before.pos));
                }
                break;
            },
            Some(Token::CloseCurly) => {
                parser.bump();
                proof {
                    lemma_segment_trans(v1, before, parser@);
                    lemma_added_shapes_trans(v1, before, parser@);
                }
                break;
            },
            Some(Token::Name) => {
                object_field(parser, context);
                proof {
                    lemma_segment_trans(v1, before, parser@);
                    lemma_added_shapes_trans(v1, before, parser@);
                    lemma_node_shapes(before, parser@, SyntaxKind::OBJECT_FIELD);
                    let item = TopItem {
                        start: before.pos,
                        end: parser@.pos,
                        shapes: added_shapes(before, parser@),
                        messages: parser.messages().skip(mb.len() as int),
                    };
                    let old_items = items;
                    items = items.push(item);
                    assert(items.drop_last() =~= old_items);
                    assert(parser.messages() =~= mb + item.messages);
                    assert(parser.messages() =~= m0 + top_messages(items));
                }
            },
            _ => {
                parser.error("expected name");
                proof {
                    assert(added_shapes(v1, parser@) =~= bumped(v0.tokens, v0.pos, first) + item_shapes(items)
                        + bumped(v0.tokens, before.pos, before.pos));
                }
                break;
            },
        }
    }
    let ghost v4 = parser@;
    parser.finish_node();
    proof {
        lemma_segment_wrap(v0, v1, v4, parser@, SyntaxKind::OBJECT_VALUE);
        assert(added_shapes(v0, parser@) =~= seq![EventShape::Start(SyntaxKind::OBJECT_VALUE)] + bumped(
            v0.tokens,
            v0.pos,
            first,
        ) + item_shapes(items) + bumped(v0.tokens, last_end(first, items), parser@.pos) + seq![
            EventShape::Finish,
        ]);
        assert(delimited(
            v0,
            parser@,
            m0,
            parser.messages(),
            items,
            SyntaxKind::OBJECT_VALUE,
            SyntaxKind::OBJECT_FIELD,
            Token::Name,
            Token::CloseCurly,
            false,
            "missing }"@,
            "expected name"@,
        ));
    }
}

/// Where the value of a field or an argument whose name is the current
/// token of `v` starts: after the colon, where there is one.
pub open spec fn value_after_colon(v: ParserView) -> int {
    let c = next_significant_at(v.tokens, v.pos + 1);
    if token_is(v, c, Token::Colon) {
        c + 1
    } else {
        c
    }
}

/// What a field or an argument at `v` records before its value: the start
/// of its node of `kind`, its name, and the tokens up to its value, the
/// colon among them; then the start of its value's node.  Where the colon
/// is missing, the error says so.
pub open spec fn named_value(
    v: ParserView,
    after: ParserView,
    m0: Seq<Seq<char>>,
    m1: Seq<Seq<char>>,
    kind: SyntaxKind,
) -> bool {
    let s = value_after_colon(v);
    let n = s - v.pos;
    &&& added_shapes(v, after).len() > n + 1
    &&& added_shapes(v, after).subrange(0, n + 1) == seq![EventShape::Start(kind)] + bumped(
        v.tokens,
        v.pos,
        s,
    )
    &&& added_shapes(v, after)[n + 1] == EventShape::Start(SyntaxKind::VALUE)
    &&& grows(
        if token_is(v, next_significant_at(v.tokens, v.pos + 1), Token::Colon) {
            m0
        } else {
            m0.push("expected colon"@)
        },
        m1,
    )
}

/// `Name : Value`.
#[verifier::spinoff_prover]
#[verifier::rlimit(40)]
pub fn object_field(parser: &mut Parser, context: Context)
    requires
        old(parser).wf(),
        at_token(old(parser)@, Token::Name),
    ensures
        final(parser).wf(),
        segment(old(parser)@, final(parser)@),
        node(old(parser)@, final(parser)@, SyntaxKind::OBJECT_FIELD),
        final(parser)@.pos > old(parser)@.pos,
        grows(old(parser).messages(), final(parser).messages()),
        named_value(old(parser)@, final(parser)@, old(parser).messages(), final(parser).messages(), SyntaxKind::OBJECT_FIELD),
    decreases remaining(old(parser)@), 1int,
{
    let ghost v0 = parser@;
    let ghost m0 = parser.messages();
    parser.start_node(SyntaxKind::OBJECT_FIELD);
    let ghost v1 = parser@;
    parser.bump();
    let ghost v2 = parser@;
    parser.skip_ws();
    proof {
        lemma_segment_trans(v1, v2, parser@);
        lemma_added_shapes_trans(v1, v2, parser@);
        lemma_first_significant(v2, v2.pos, parser@.pos);
        lemma_bumped_concat(v0.tokens, v0.pos, v0.pos + 1, parser@.pos);
    }
    let ghost v3 = parser@;
    if parser.current() == Some(Token::Colon) {
        parser.bump();
        proof {
            lemma_segment_trans(v1, v3, parser@);
            lemma_added_shapes_trans(v1, v3, parser@);
            lemma_bumped_concat(v0.tokens, v0.pos, v3.pos, parser@.pos);
        }
    } else {
        parser.error("expected colon");
    }
    let ghost v4 = parser@;
    let ghost m4 = parser.messages();
    proof {
        assert(v4.pos == value_after_colon(v0));
        assert(added_shapes(v1, v4) == bumped(v0.tokens, v0.pos, v4.pos));
    }
    value(parser, context);
    proof {
        lemma_segment_trans(v1, v4, parser@);
        lemma_added_shapes_trans(v1, v4, parser@);
        lemma_node_shapes(v4, parser@, SyntaxKind::VALUE);
    }
    let ghost v5 = parser@;
    parser.finish_node();
    proof {
        let n = v4.pos - v0.pos;
        lemma_segment_wrap(v0, v1, v5, parser@, SyntaxKind::OBJECT_FIELD);
        assert(added_shapes(v0, parser@)[n + 1] == EventShape::Start(SyntaxKind::VALUE));
        assert(added_shapes(v0, parser@).subrange(0, n + 1) =~= seq![EventShape::Start(SyntaxKind::OBJECT_FIELD)] + bumped(v0.tokens, v0.pos, v4.pos));
    }
}

/// `[` values `]`.  The list ends at the end of the input, or where a value
/// should stand and none does.
#[verifier::spinoff_prover]
#[verifier::rlimit(60)]
pub fn list(parser: &mut Parser, context: Context)
    requires
        old(parser).wf(),
        at_token(old(parser)@, Token::OpenSquare),
    ensures
        final(parser).wf(),
        segment(old(parser)@, final(parser)@),
        node(old(parser)@, final(parser)@, SyntaxKind::LIST_VALUE),
        final(parser)@.pos > old(parser)@.pos,
        grows(old(parser).messages(), final(parser).messages()),
        exists|items: Seq<TopItem>|
            #[trigger] parsed_list(
                old(parser)@,
                final(parser)@,
                old(parser).messages(),
                final(parser).messages(),
                items,
            ),
    decreases remaining(old(parser)@), 2int,
{
    let ghost v0 = parser@;
    let ghost m0 = parser.messages();
    parser.start_node(SyntaxKind::LIST_VALUE);
    let ghost v1 = parser@;
    parser.bump();
    let ghost v2 = parser@;
    parser.skip_ws();
    let ghost v3 = parser@;
    let ghost first = v3.pos;
    let ghost mut items: Seq<TopItem> = Seq::empty();
    proof {
        lemma_segment_trans(v1, v2, parser@);
        lemma_added_shapes_trans(v1, v2, v3);
        lemma_first_significant(v2, v2.pos, v3.pos);
        lemma_bumped_concat(v0.tokens, v0.pos, v0.pos + 1, first);
        assert(bumped(v0.tokens, first, first) =~= Seq::<EventShape>::empty());
        assert(added_shapes(v1, parser@) =~= bumped(v0.tokens, v0.pos, first) + top_shapes(
            v0.tokens,
            first,
            items,
        ) + bumped(v0.tokens, last_end(first, items), parser@.pos));
        assert(parser.messages() =~= m0 + top_messages(items));
    }
    loop
        invariant_except_break
            parser@.pos == next_significant_at(v0.tokens, last_end(first, items)),
            parser.messages() == m0 + top_messages(items),
            items.len() > 0 ==> items.last().start < items.last().end,
        invariant
            grows(old(parser).messages(), parser.messages()),
            parser.wf(),
            segment(v1, parser@),
            parser@.pos > v1.pos,
            remaining(parser@) < remaining(v0),
            v0 == old(parser)@,
            m0 == old(parser).messages(),
            parser@.tokens == v0.tokens,
            v1.pos == v0.pos,
            first == next_significant_at(v0.tokens, v0.pos + 1),
            placed_values(v0.tokens, first, items),
            last_end(first, items) <= parser@.pos,
            added_shapes(v1, parser@) == bumped(v0.tokens, v0.pos, first) + top_shapes(
                v0.tokens,
                first,
                items,
            ) + bumped(v0.tokens, last_end(first, items), parser@.pos),
        ensures
            parser.wf(),
            segment(v1, parser@),
            parser@.pos > v1.pos,
            grows(old(parser).messages(), parser.messages()),
            placed_values(v0.tokens, first, items),
            last_end(first, items) <= parser@.pos,
            added_shapes(v1, parser@) == bumped(v0.tokens, v0.pos, first) + top_shapes(
                v0.tokens,
                first,
                items,
            ) + bumped(v0.tokens, last_end(first, items), parser@.pos),
            ({
                let e = last_end(first, items);
                let s = next_significant_at(v0.tokens, e);
                if items.len() > 0 && items.last().start == items.last().end {
                    &&& parser@.pos == e
                    &&& items.last().shapes == seq![
                        EventShape::Start(SyntaxKind::VALUE),
                        EventShape::Finish,
                    ]
                    &&& items.last().messages == seq!["expected a value"@]
                    &&& parser.messages() == m0 + top_messages(items)
                } else if s < v0.tokens.len() && v0.tokens[s].0 == Token::CloseSquare {
                    &&& parser@.pos == s + 1
                    &&& parser.messages() == m0 + top_messages(items)
                } else {
                    &&& s == v0.tokens.len()
                    &&& parser@.pos == s
                    &&& parser.messages() == (m0 + top_messages(items)).push("missing ]"@)
                }
            }),
        decreases remaining(parser@),
    {
        let ghost before = parser@;
        let ghost mb = parser.messages();
        match parser.current() {
            None => {
                parser.error("missing ]");
                break;
            },
            Some(Token::CloseSquare) => {
                parser.bump();
                proof {
                    lemma_segment_trans(v1, before, parser@);
                    lemma_added_shapes_trans(v1, before, parser@);
                    lemma_bumped_concat(v0.tokens, last_end(first, items), before.pos, parser@.pos);
                }
                break;
            },
            _ => {},
        }
        let start = parser.position();
        value(parser, context);
        let ghost after = parser@;
        proof {
            lemma_segment_trans(v1, before, parser@);
            lemma_added_shapes_trans(v1, before, parser@);
            lemma_node_shapes(before, parser@, SyntaxKind::VALUE);
            lemma_next_significant_stable(v0.tokens, last_end(first, items));
            let item = TopItem {
                start: before.pos,
                end: after.pos,
                shapes: added_shapes(before, after),
                messages: parser.messages().skip(mb.len() as int),
            };
            let old_items = items;
            items = items.push(item);
            assert(items.drop_last() =~= old_items);
            assert(parser.messages() =~= mb + item.messages);
            assert(parser.messages() =~= m0 + top_messages(items));
            assert(bumped(v0.tokens, after.pos, after.pos) =~= Seq::<EventShape>::empty());
            assert(added_shapes(v1, after) =~= bumped(v0.tokens, v0.pos, first) + top_shapes(
                v0.tokens,
                first,
                items,
            ) + bumped(v0.tokens, last_end(first, items), after.pos));
            if after.pos == before.pos {
                let w = moved_to(before, next_significant_at(v0.tokens, before.pos));
                assert(w == before);
                assert(value_head(w) is None);
                assert(item.shapes =~= seq![
                    EventShape::Start(SyntaxKind::VALUE),
                    EventShape::Finish,
                ]);
                assert(item.messages =~= seq!["expected a value"@]);
            }
        }
        if parser.position() == start {
            break;
        }
        parser.skip_ws();
        proof {
            lemma_segment_trans(v1, after, parser@);
            lemma_added_shapes_trans(v1, after, parser@);
            lemma_first_significant(after, after.pos, parser@.pos);
            lemma_bumped_concat(v0.tokens, after.pos, after.pos, parser@.pos);
        }
    }
    let ghost v4 = parser@;
    parser.finish_node();
    proof {
        lemma_segment_wrap(v0, v1, v4, parser@, SyntaxKind::LIST_VALUE);
        assert(added_shapes(v0, parser@) =~= seq![EventShape::Start(SyntaxKind::LIST_VALUE)]
            + bumped(v0.tokens, v0.pos, first) + top_shapes(v0.tokens, first, items) + bumped(
            v0.tokens,
            last_end(first, items),
            parser@.pos,
        ) + seq![EventShape::Finish]);
        assert(parsed_list(v0, parser@, m0, parser.messages(), items));
    }
}

/// `(` arguments `)`.
#[verifier::spinoff_prover]
#[verifier::rlimit(40)]
pub fn arguments(parser: &mut Parser, context: Context)
    requires
        old(parser).wf(),
        at_token(old(parser)@, Token::OpenParen),
    ensures
        final(parser).wf(),
        segment(old(parser)@, final(parser)@),
        node(old(parser)@, final(parser)@, SyntaxKind::ARGUMENTS),
        final(parser)@.pos > old(parser)@.pos,
        grows(old(parser).messages(), final(parser).messages()),
        exists|items: Seq<TopItem>|
            #[trigger] delimited(
                old(parser)@,
                final(parser)@,
                old(parser).messages(),
                final(parser).messages(),
                items,
                SyntaxKind::ARGUMENTS,
                SyntaxKind::ARGUMENT,
                Token::Name,
                Token::CloseParen,
                true,
                "expected arguments"@,
                "expected a name or )"@,
            ),
{
    let ghost v0 = parser@;
    let ghost m0 = parser.messages();
    parser.start_node(SyntaxKind::ARGUMENTS);
    let ghost v1 = parser@;
    parser.bump();
    let ghost v2 = parser@;
    parser.skip_ws();
    let ghost v3 = parser@;
    let ghost first = v3.pos;
    let ghost mut items: Seq<TopItem> = Seq::empty();
    proof {
        lemma_segment_trans(v1, v2, parser@);
        lemma_added_shapes_trans(v1, v2, v3);
        lemma_first_significant(v2, v2.pos, v3.pos);
        lemma_bumped_concat(v0.tokens, v0.pos, v0.pos + 1, first);
        assert(item_shapes(items) =~= Seq::<EventShape>::empty());
        assert(added_shapes(v1, parser@) =~= bumped(v0.tokens, v0.pos, first) + item_shapes(items));
        assert(parser.messages() =~= m0 + top_messages(items));
    }
    loop
        invariant_except_break
            parser@.pos == last_end(first, items),
            added_shapes(v1, parser@) == bumped(v0.tokens, v0.pos, first) + item_shapes(items),
            parser.messages() == m0 + top_messages(items),
        invariant
            grows(old(parser).messages(), parser.messages()),
            parser.wf(),
            segment(v1, parser@),
            parser@.pos > v1.pos,
            remaining(parser@) < remaining(v0),
            v0 == old(parser)@,
            m0 == old(parser).messages(),
            parser@.tokens == v0.tokens,
            v1.pos == v0.pos,
            first == next_significant_at(v0.tokens, v0.pos + 1),
            contiguous(v0.tokens, first, items, Token::Name, SyntaxKind::ARGUMENT),
        ensures
            parser.wf(),
            segment(v1, parser@),
            parser@.pos > v1.pos,
            grows(old(parser).messages(), parser.messages()),
            contiguous(v0.tokens, first, items, Token::Name, SyntaxKind::ARGUMENT),
            last_end(first, items) <= parser@.pos,
            added_shapes(v1, parser@) == bumped(v0.tokens, v0.pos, first) + item_shapes(items) + bumped(
                v0.tokens,
                last_end(first, items),
                parser@.pos,
            ),
            if last_end(first, items) < v0.tokens.len() && v0.tokens[last_end(first, items)].0
                == Token::CloseParen {
                &&& parser@.pos == next_significant_at(v0.tokens, last_end(first, items) + 1)
                &&& parser.messages() == m0 + top_messages(items)
            } else {
                &&& parser@.pos == last_end(first, items)
                &&& parser.messages() == (m0 + top_messages(items)).push(
                    if last_end(first, items) == v0.tokens.len() {
                        "expected arguments"@
                    } else {
                        "expected a name or )"@
                    },
                )
            },
        decreases remaining(parser@),
    {
        let ghost before = parser@;
        let ghost mb = parser.messages();
        proof {
            assert(bumped(v0.tokens, before.pos, before.pos) =~= Seq::<EventShape>::empty());
        }
        match parser.current() {
            None => {
                parser.error("expected arguments");
                proof {
                    assert(added_shapes(v1, parser@) =~= bumped(v0.tokens, v0.pos, first) + item_shapes(items)
                        + bumped(v0.tokens, before.pos, before.pos));
                }
                break;
            },
            Some(Token::CloseParen) => {
                parser.bump();
                let ghost after_close = parser@;
                parser.skip_ws();
                proof {
                    lemma_segment_trans(v1, before, after_close);
                    lemma_segment_trans(v1, after_close, parser@);
                    lemma_added_shapes_trans(v1, before, after_close);
                    lemma_added_shapes_trans(v1, after_close, parser@);
                    lemma_first_significant(after_close, after_close.pos, parser@.pos);
                    lemma_bumped_concat(v0.tokens, before.pos, before.pos + 1, parser@.pos);
                }
                break;
            },
            Some(Token::Name) => {
                argument(parser, context);
                proof {
                    lemma_segment_trans(v1, before, parser@);
                    lemma_added_shapes_trans(v1, before, parser@);
                    lemma_node_shapes(before, parser@, SyntaxKind::ARGUMENT);
                    let item = TopItem {
                        start: before.pos,
                        end: parser@.pos,
                        shapes: added_shapes(before, parser@),
                        messages: parser.messages().skip(mb.len() as int),
                    };
                    let old_items = items;
                    items = items.push(item);
                    assert(items.drop_last() =~= old_items);
                    assert(parser.messages() =~= mb + item.messages);
                    assert(parser.messages() =~= m0 + top_messages(items));
                }
            },
            _ => {
                parser.error("expected a name or )");
                proof {
                    assert(added_shapes(v1, parser@) =~= bumped(v0.tokens, v0.pos, first) + item_shapes(items)
                        + bumped(v0.tokens, before.pos, before.pos));
                }
                break;
            },
        }
    }
    let ghost v4 = parser@;
    parser.finish_node();
    proof {
        lemma_segment_wrap(v0, v1, v4, parser@, SyntaxKind::ARGUMENTS);
        assert(added_shapes(v0, parser@) =~= seq![EventShape::Start(SyntaxKind::ARGUMENTS)] + bumped(
            v0.tokens,
            v0.pos,
            first,
        ) + item_shapes(items) + bumped(v0.tokens, last_end(first, items), parser@.pos) + seq![
            EventShape::Finish,
        ]);
        assert(delimited(
            v0,
            parser@,
            m0,
            parser.messages(),
            items,
            SyntaxKind::ARGUMENTS,
            SyntaxKind::ARGUMENT,
            Token::Name,
            Token::CloseParen,
            true,
            "expected arguments"@,
            "expected a name or )"@,
        ));
    }
}

/// `Name : Value`.
#[verifier::spinoff_prover]
#[verifier::rlimit(40)]
pub fn argument(parser: &mut Parser, context: Context)
    requires
        old(parser).wf(),
        at_token(old(parser)@, Token::Name),
    ensures
        final(parser).wf(),
        segment(old(parser)@, final(parser)@),
        node(old(parser)@, final(parser)@, SyntaxKind::ARGUMENT),
        final(parser)@.pos > old(parser)@.pos,
        grows(old(parser).messages(), final(parser).messages()),
        named_value(old(parser)@, final(parser)@, old(parser).messages(), final(parser).messages(), SyntaxKind::ARGUMENT),
{
    let ghost v0 = parser@;
    let ghost m0 = parser.messages();
    parser.start_node(SyntaxKind::ARGUMENT);
    let ghost v1 = parser@;
    parser.bump();
    let ghost v2 = parser@;
    parser.skip_ws();
    proof {
        lemma_segment_trans(v1, v2, parser@);
        lemma_added_shapes_trans(v1, v2, parser@);
        lemma_first_significant(v2, v2.pos, parser@.pos);
        lemma_bumped_concat(v0.tokens, v0.pos, v0.pos + 1, parser@.pos);
    }
    let ghost v3 = parser@;
    if parser.current() == Some(Token::Colon) {
        parser.bump();
        proof {
            lemma_segment_trans(v1, v3, parser@);
            lemma_added_shapes_trans(v1, v3, parser@);
            lemma_bumped_concat(v0.tokens, v0.pos, v3.pos, parser@.pos);
        }
    } else {
        parser.error("expected colon");
    }
    let ghost v4 = parser@;
    let ghost m4 = parser.messages();
    proof {
        assert(v4.pos == value_after_colon(v0));
        assert(added_shapes(v1, v4) == bumped(v0.tokens, v0.pos, v4.pos));
    }
    value(parser, context);
    proof {
        lemma_segment_trans(v1, v4, parser@);
        lemma_added_shapes_trans(v1, v4, parser@);
        lemma_node_shapes(v4, parser@, SyntaxKind::VALUE);
    }
    let ghost v5 = parser@;
    parser.skip_ws();
    proof {
        lemma_segment_trans(v1, v5, parser@);
        lemma_added_shapes_trans(v1, v5, parser@);
    }
    let ghost v6 = parser@;
    parser.finish_node();
    proof {
        let n = v4.pos - v0.pos;
        lemma_segment_wrap(v0, v1, v6, parser@, SyntaxKind::ARGUMENT);
        assert(added_shapes(v0, parser@)[n + 1] == EventShape::Start(SyntaxKind::VALUE));
        assert(added_shapes(v0, parser@).subrange(0, n + 1) =~= seq![EventShape::Start(SyntaxKind::ARGUMENT)] + bumped(v0.tokens, v0.pos, v4.pos));
    }
}

/// Directives, where any stand: a directives node that holds one directive
/// for each `@` in a row.
#[verifier::spinoff_prover]
#[verifier::rlimit(40)]
pub fn maybe_directives(parser: &mut Parser, context: Context)
    requires
        old(parser).wf(),
    ensures
        final(parser).wf(),
        segment(old(parser)@, final(parser)@),
        grows(old(parser).messages(), final(parser).messages()),
        ({
            let a = ahead(old(parser)@);
            let n = a - old(parser)@.pos;
            if token_is(old(parser)@, a, Token::At) {
                &&& final(parser)@.pos > a
                &&& added_shapes(old(parser)@, final(parser)@).len() > n + 2
                &&& added_shapes(old(parser)@, final(parser)@).subrange(0, n + 2) == bumped(
                    old(parser)@.tokens,
                    old(parser)@.pos,
                    a,
                ) + seq![
                    EventShape::Start(SyntaxKind::DIRECTIVES),
                    EventShape::Start(SyntaxKind::DIRECTIVE),
                ]
                &&& added_shapes(old(parser)@, final(parser)@).last() == EventShape::Finish
                &&& ahead(final(parser)@) == final(parser)@.pos
                &&& !token_is(final(parser)@, final(parser)@.pos, Token::At)
            } else {
                &&& final(parser)@.pos == a
                &&& added_shapes(old(parser)@, final(parser)@) == bumped(
                    old(parser)@.tokens,
                    old(parser)@.pos,
                    a,
                )
                &&& final(parser).messages() == old(parser).messages()
            }
        }),
{
    let ghost v0 = parser@;
    parser.skip_ws();
    proof {
        lemma_first_significant(v0, v0.pos, parser@.pos);
    }
    if parser.current() != Some(Token::At) {
        return;
    }
    let ghost v1 = parser@;
    parser.start_node(SyntaxKind::DIRECTIVES);
    let ghost v2 = parser@;
    proof {
        lemma_segment_refl(v2);
        lemma_next_significant_stable(v0.tokens, v0.pos);
        assert(added_shapes(v2, v2) =~= Seq::<EventShape>::empty());
    }
    while parser.current() == Some(Token::At)
        invariant
            grows(old(parser).messages(), parser.messages()),
            parser.wf(),
            segment(v2, parser@),
            v2.pos == ahead(v0),
            v2.tokens == v0.tokens,
            token_is(v0, v2.pos, Token::At),
            ahead(parser@) == parser@.pos,
            parser@.pos == v2.pos ==> added_shapes(v2, parser@) == Seq::<EventShape>::empty(),
            parser@.pos > v2.pos ==> added_shapes(v2, parser@).len() >= 1 && added_shapes(
                v2,
                parser@,
            )[0] == EventShape::Start(SyntaxKind::DIRECTIVE),
        decreases remaining(parser@),
    {
        let ghost before = parser@;
        directive(parser, context);
        let ghost after = parser@;
        parser.skip_ws();
        proof {
            lemma_segment_trans(v2, before, after);
            lemma_segment_trans(v2, after, parser@);
            lemma_segment_trans(before, after, parser@);
            lemma_added_shapes_trans(v2, before, parser@);
            lemma_node_shapes(before, after, SyntaxKind::DIRECTIVE);
            lemma_added_shapes_trans(before, after, parser@);
            if before.pos == v2.pos {
                assert(added_shapes(v2, parser@) =~= added_shapes(before, parser@));
            }
            lemma_first_significant(after, after.pos, parser@.pos);
            lemma_next_significant_stable(v0.tokens, after.pos);
        }
    }
    let ghost v3 = parser@;
    parser.finish_node();
    proof {
        lemma_segment_wrap(v1, v2, v3, parser@, SyntaxKind::DIRECTIVES);
        lemma_segment_trans(v0, v1, parser@);
        assert(v2.events.take(v1.events.len() as int) =~= v1.events);
        assert(parser@.events.take(v3.events.len() as int) =~= v3.events);
        lemma_added_shapes_trans(v0, v1, v2);
        lemma_added_shapes_trans(v0, v2, v3);
        lemma_added_shapes_trans(v0, v3, parser@);
        assert(added_shapes(v1, v2) =~= seq![EventShape::Start(SyntaxKind::DIRECTIVES)]);
        assert(added_shapes(v3, parser@) =~= seq![EventShape::Finish]);
        let n = v1.pos - v0.pos;
        assert(added_shapes(v0, parser@).subrange(0, n + 2) =~= bumped(v0.tokens, v0.pos, v1.pos)
            + seq![
            EventShape::Start(SyntaxKind::DIRECTIVES),
            EventShape::Start(SyntaxKind::DIRECTIVE),
        ]);
    }
}

/// `@` Name arguments, where they stand.
#[verifier::spinoff_prover]
#[verifier::rlimit(40)]
pub fn directive(parser: &mut Parser, context: Context)
    requires
        old(parser).wf(),
        at_token(old(parser)@, Token::At),
    ensures
        final(parser).wf(),
        segment(old(parser)@, final(parser)@),
        node(old(parser)@, final(parser)@, SyntaxKind::DIRECTIVE),
        final(parser)@.pos > old(parser)@.pos,
        grows(old(parser).messages(), final(parser).messages()),
        ({
            let d = directive_arguments_at(old(parser)@);
            let n = d - old(parser)@.pos;
            let named = token_is(old(parser)@, next_significant_at(old(parser)@.tokens, old(parser)@.pos + 1), Token::Name);
            let m = if named {
                old(parser).messages()
            } else {
                old(parser).messages().push("expected name"@)
            };
            &&& added_shapes(old(parser)@, final(parser)@).len() > n + 1
            &&& added_shapes(old(parser)@, final(parser)@).subrange(0, n + 1) == seq![
                EventShape::Start(SyntaxKind::DIRECTIVE),
            ] + bumped(old(parser)@.tokens, old(parser)@.pos, d)
            &&& if token_is(old(parser)@, d, Token::OpenParen) {
                &&& added_shapes(old(parser)@, final(parser)@)[n + 1] == EventShape::Start(
                    SyntaxKind::ARGUMENTS,
                )
                &&& grows(m, final(parser).messages())
            } else {
                &&& final(parser)@.pos == d
                &&& added_shapes(old(parser)@, final(parser)@) == seq![
                    EventShape::Start(SyntaxKind::DIRECTIVE),
                ] + bumped(old(parser)@.tokens, old(parser)@.pos, d) + seq![EventShape::Finish]
                &&& final(parser).messages() == m
            }
        }),
{
    let ghost v0 = parser@;
    let ghost m0 = parser.messages();
    parser.start_node(SyntaxKind::DIRECTIVE);
    let ghost v1 = parser@;
    parser.bump();
    let ghost v2 = parser@;
    parser.skip_ws();
    proof {
        lemma_segment_trans(v1, v2, parser@);
        lemma_added_shapes_trans(v1, v2, parser@);
        lemma_first_significant(v2, v2.pos, parser@.pos);
        lemma_bumped_concat(v0.tokens, v0.pos, v0.pos + 1, parser@.pos);
    }
    let ghost v3 = parser@;
    if parser.current() == Some(Token::Name) {
        parser.bump();
        let ghost v4 = parser@;
        parser.skip_ws();
        proof {
            lemma_segment_trans(v1, v3, v4);
            lemma_segment_trans(v1, v4, parser@);
            lemma_added_shapes_trans(v1, v3, v4);
            lemma_added_shapes_trans(v1, v4, parser@);
            lemma_first_significant(v4, v4.pos, parser@.pos);
            lemma_bumped_concat(v0.tokens, v0.pos, v3.pos, v4.pos);
            lemma_bumped_concat(v0.tokens, v0.pos, v4.pos, parser@.pos);
        }
    } else {
        parser.error("expected name");
    }
    let ghost v5 = parser@;
    proof {
        assert(v5.pos == directive_arguments_at(v0));
        assert(added_shapes(v1, v5) == bumped(v0.tokens, v0.pos, v5.pos));
        lemma_segment_refl(v5);
    }
    if parser.current() == Some(Token::OpenParen) {
        arguments(parser, context);
        proof {
            lemma_segment_trans(v1, v5, parser@);
            lemma_node_shapes(v5, parser@, SyntaxKind::ARGUMENTS);
        }
    }
    proof {
        lemma_added_shapes_trans(v1, v5, parser@);
    }
    let ghost v6 = parser@;
    parser.finish_node();
    proof {
        lemma_segment_wrap(v0, v1, v6, parser@, SyntaxKind::DIRECTIVE);
        let n = v5.pos - v0.pos;
        assert(added_shapes(v0, parser@).subrange(0, n + 1) =~= seq![
            EventShape::Start(SyntaxKind::DIRECTIVE),
        ] + bumped(v0.tokens, v0.pos, v5.pos));
        if token_is(v0, v5.pos, Token::OpenParen) {
            assert(added_shapes(v0, parser@)[n + 1] == EventShape::Start(SyntaxKind::ARGUMENTS));
        } else {
            assert(added_shapes(v5, v6) =~= Seq::<EventShape>::empty());
        }
    }
}

/// `on` NamedType.
#[verifier::spinoff_prover]
#[verifier::rlimit(30)]
pub fn type_condition(parser: &mut Parser)
    requires
        old(parser).wf(),
    ensures
        final(parser).wf(),
        segment(old(parser)@, final(parser)@),
        grows(old(parser).messages(), final(parser).messages()),
        if name_is(old(parser)@, ahead(old(parser)@), "on"@) {
            let t = condition_type_at(old(parser)@);
            let named = token_is(old(parser)@, t, Token::Name);
            &&& final(parser)@.pos == if named {
                t + 1
            } else {
                t
            }
            &&& added_shapes(old(parser)@, final(parser)@) == bumped(
                old(parser)@.tokens,
                old(parser)@.pos,
                ahead(old(parser)@),
            ) + seq![
                EventShape::Start(SyntaxKind::TYPE_CONDITION),
                EventShape::Token(SyntaxKind::ON),
            ] + bumped(old(parser)@.tokens, ahead(old(parser)@) + 1, t) + (if named {
                seq![EventShape::Start(SyntaxKind::NAMED_TYPE)] + bumped(
                    old(parser)@.tokens,
                    t,
                    t + 1,
                ) + seq![EventShape::Finish]
            } else {
                Seq::empty()
            }) + seq![EventShape::Finish]
            &&& final(parser).messages() == if named {
                old(parser).messages()
            } else {
                old(parser).messages().push("expected named type"@)
            }
        } else {
            &&& final(parser)@.pos == ahead(old(parser)@)
            &&& added_shapes(old(parser)@, final(parser)@) == bumped(
                old(parser)@.tokens,
                old(parser)@.pos,
                ahead(old(parser)@),
            )
            &&& final(parser).messages() == old(parser).messages().push(
                "expected a type condition"@,
            )
        },
{
    let ghost v0 = parser@;
    parser.skip_ws();
    let ghost v1 = parser@;
    proof {
        lemma_first_significant(v0, v0.pos, v1.pos);
        lemma_segment_refl(v1);
    }
    if parser.current_is_name("on") {
        parser.start_node(SyntaxKind::TYPE_CONDITION);
        let ghost v2 = parser@;
        parser.bump_as(SyntaxKind::ON);
        let ghost v3 = parser@;
        parser.skip_ws();
        proof {
            lemma_segment_trans(v2, v3, parser@);
            lemma_added_shapes_trans(v2, v3, parser@);
            lemma_first_significant(v3, v3.pos, parser@.pos);
        }
        let ghost v4 = parser@;
        if parser.current() == Some(Token::Name) {
            named_type(parser);
            proof {
                lemma_segment_trans(v2, v4, parser@);
                lemma_added_shapes_trans(v2, v4, parser@);
            }
        } else {
            parser.error("expected named type");
        }
        let ghost v5 = parser@;
        parser.finish_node();
        proof {
            lemma_segment_wrap(v1, v2, v5, parser@, SyntaxKind::TYPE_CONDITION);
            lemma_segment_trans(v0, v1, parser@);
            lemma_added_shapes_trans(v0, v1, parser@);
            assert(added_shapes(v2, v3) =~= seq![EventShape::Token(SyntaxKind::ON)]);
        }
    } else {
        parser.error("expected a type condition");
    }
}

/// A fragment's name: any name but `on`.
#[verifier::spinoff_prover]
#[verifier::rlimit(30)]
pub fn fragment_name(parser: &mut Parser)
    requires
        old(parser).wf(),
    ensures
        final(parser).wf(),
        segment(old(parser)@, final(parser)@),
        grows(old(parser).messages(), final(parser).messages()),
        if fragment_name_ahead(old(parser)@) {
            &&& final(parser)@.pos == ahead(old(parser)@) + 1
            &&& added_shapes(old(parser)@, final(parser)@) == bumped(
                old(parser)@.tokens,
                old(parser)@.pos,
                ahead(old(parser)@),
            ) + seq![EventShape::Start(SyntaxKind::FRAGMENT_NAME)] + bumped(
                old(parser)@.tokens,
                ahead(old(parser)@),
                ahead(old(parser)@) + 1,
            ) + seq![EventShape::Finish]
            &&& final(parser).messages() == old(parser).messages()
        } else {
            &&& final(parser)@.pos == ahead(old(parser)@)
            &&& added_shapes(old(parser)@, final(parser)@) == bumped(
                old(parser)@.tokens,
                old(parser)@.pos,
                ahead(old(parser)@),
            )
            &&& final(parser).messages() == old(parser).messages().push("expected fragment name"@)
        },
{
    let ghost v0 = parser@;
    parser.skip_ws();
    let ghost v1 = parser@;
    proof {
        lemma_first_significant(v0, v0.pos, v1.pos);
        lemma_segment_refl(v1);
    }
    match parser.current() {
        None => parser.error("expected fragment name"),
        Some(Token::Name) => {
            if parser.current_is_name("on") {
                parser.error("expected fragment name");
            } else {
                parser.start_node(SyntaxKind::FRAGMENT_NAME);
                let ghost v2 = parser@;
                parser.bump();
                let ghost v3 = parser@;
                parser.finish_node();
                proof {
                    lemma_segment_wrap(v1, v2, v3, parser@, SyntaxKind::FRAGMENT_NAME);
                    lemma_segment_trans(v0, v1, parser@);
                    lemma_added_shapes_trans(v0, v1, parser@);
                }
            }
        },
        _ => parser.error("expected fragment name"),
    }
}

/// `{` selections `}`.
#[verifier::spinoff_prover]
#[verifier::rlimit(40)]
pub fn selection_set(parser: &mut Parser)
    requires
        old(parser).wf(),
        at_token(old(parser)@, Token::OpenCurly),
    ensures
        final(parser).wf(),
        segment(old(parser)@, final(parser)@),
        node(old(parser)@, final(parser)@, SyntaxKind::SELECTION_SET),
        final(parser)@.pos > old(parser)@.pos,
        grows(old(parser).messages(), final(parser).messages()),
        exists|items: Seq<TopItem>|
            #[trigger] parsed_selection_set(
                old(parser)@,
                final(parser)@,
                old(parser).messages(),
                final(parser).messages(),
                items,
            ),
    decreases remaining(old(parser)@),
{
    let ghost v0 = parser@;
    let ghost m0 = parser.messages();
    parser.start_node(SyntaxKind::SELECTION_SET);
    let ghost v1 = parser@;
    parser.bump();
    let ghost v2 = parser@;
    parser.skip_ws();
    let ghost v3 = parser@;
    let ghost first = v3.pos;
    let ghost mut items: Seq<TopItem> = Seq::empty();
    proof {
        lemma_segment_trans(v1, v2, parser@);
        lemma_added_shapes_trans(v1, v2, v3);
        lemma_first_significant(v2, v2.pos, v3.pos);
        lemma_bumped_concat(v0.tokens, v0.pos, v0.pos + 1, first);
        assert(bumped(v0.tokens, first, first) =~= Seq::<EventShape>::empty());
        assert(added_shapes(v1, parser@) =~= bumped(v0.tokens, v0.pos, first) + top_shapes(
            v0.tokens,
            first,
            items,
        ) + bumped(v0.tokens, last_end(first, items), parser@.pos));
        assert(parser.messages() =~= m0 + top_messages(items));
    }
    loop
        invariant_except_break
            parser@.pos == next_significant_at(v0.tokens, last_end(first, items)),
            parser.messages() == m0 + top_messages(items),
        invariant
            grows(old(parser).messages(), parser.messages()),
            parser.wf(),
            segment(v1, parser@),
            parser@.pos > v1.pos,
            remaining(parser@) < remaining(v0),
            v0 == old(parser)@,
            m0 == old(parser).messages(),
            parser@.tokens == v0.tokens,
            v1.pos == v0.pos,
            first == next_significant_at(v0.tokens, v0.pos + 1),
            placed_selections(v0.tokens, first, items),
            last_end(first, items) <= parser@.pos,
            added_shapes(v1, parser@) == bumped(v0.tokens, v0.pos, first) + top_shapes(
                v0.tokens,
                first,
                items,
            ) + bumped(v0.tokens, last_end(first, items), parser@.pos),
        ensures
            parser.wf(),
            segment(v1, parser@),
            parser@.pos > v1.pos,
            grows(old(parser).messages(), parser.messages()),
            placed_selections(v0.tokens, first, items),
            last_end(first, items) <= parser@.pos,
            added_shapes(v1, parser@) == bumped(v0.tokens, v0.pos, first) + top_shapes(
                v0.tokens,
                first,
                items,
            ) + bumped(v0.tokens, last_end(first, items), parser@.pos),
            ({
                let s = next_significant_at(v0.tokens, last_end(first, items));
                if s < v0.tokens.len() && v0.tokens[s].0 == Token::CloseCurly {
                    &&& parser@.pos == s + 1
                    &&& parser.messages() == m0 + top_messages(items)
                } else {
                    &&& parser@.pos == s
                    &&& parser.messages() == (m0 + top_messages(items)).push(
                        if s == v0.tokens.len() {
                            "missing }"@
                        } else {
                            "expected a selection"@
                        },
                    )
                }
            }),
        decreases remaining(parser@),
    {
        let ghost before = parser@;
        let ghost mb = parser.messages();
        match parser.current() {
            None => {
                parser.error("missing }");
                break;
            },
            Some(Token::CloseCurly) => {
                parser.bump();
                proof {
                    lemma_segment_trans(v1, before, parser@);
                    lemma_added_shapes_trans(v1, before, parser@);
                    lemma_bumped_concat(v0.tokens, last_end(first, items), before.pos, parser@.pos);
                }
                break;
            },
            Some(Token::Name) => {
                field_selection(parser);
                proof {
                    lemma_segment_trans(v1, before, parser@);
                    lemma_added_shapes_trans(v1, before, parser@);
                    lemma_node_shapes(before, parser@, SyntaxKind::FIELD_SELECTION);
                }
            },
            Some(Token::Spread) => {
                let next = parser.next_significant_after_current();
                proof {
                    lemma_first_significant(before, before.pos + 1, next as int);
                }
                if parser.token_at(next) == Some(Token::Name) && !parser.name_at_is(next, "on") {
                    fragment_spread(parser);
                    proof {
                        lemma_node_shapes(before, parser@, SyntaxKind::FRAGMENT_SPREAD);
                    }
                } else {
                    inline_fragment(parser);
                    proof {
                        lemma_node_shapes(before, parser@, SyntaxKind::INLINE_FRAGMENT);
                    }
                }
                proof {
                    lemma_segment_trans(v1, before, parser@);
                    lemma_added_shapes_trans(v1, before, parser@);
                }
            },
            _ => {
                parser.error("expected a selection");
                break;
            },
        }
        let ghost after = parser@;
        proof {
            let item = TopItem {
                start: before.pos,
                end: after.pos,
                shapes: added_shapes(before, after),
                messages: parser.messages().skip(mb.len() as int),
            };
            assert(item.shapes[0] == EventShape::Start(selection_kind(v0.tokens, item.start)));
            let old_items = items;
            items = items.push(item);
            assert(items.drop_last() =~= old_items);
            assert(parser.messages() =~= mb + item.messages);
            assert(parser.messages() =~= m0 + top_messages(items));
            assert(bumped(v0.tokens, after.pos, after.pos) =~= Seq::<EventShape>::empty());
            assert(added_shapes(v1, after) =~= bumped(v0.tokens, v0.pos, first) + top_shapes(
                v0.tokens,
                first,
                items,
            ) + bumped(v0.tokens, last_end(first, items), after.pos));
        }
        parser.skip_ws();
        proof {
            lemma_segment_trans(v1, after, parser@);
            lemma_added_shapes_trans(v1, after, parser@);
            lemma_first_significant(after, after.pos, parser@.pos);
            lemma_bumped_concat(v0.tokens, after.pos, after.pos, parser@.pos);
            assert(added_shapes(v1, parser@) =~= bumped(v0.tokens, v0.pos, first) + top_shapes(
                v0.tokens,
                first,
                items,
            ) + bumped(v0.tokens, last_end(first, items), parser@.pos));
        }
    }
    let ghost v4 = parser@;
    parser.finish_node();
    proof {
        lemma_segment_wrap(v0, v1, v4, parser@, SyntaxKind::SELECTION_SET);
        assert(added_shapes(v0, parser@) =~= seq![EventShape::Start(SyntaxKind::SELECTION_SET)]
            + bumped(v0.tokens, v0.pos, first) + top_shapes(v0.tokens, first, items) + bumped(
            v0.tokens,
            last_end(first, items),
            parser@.pos,
        ) + seq![EventShape::Finish]);
        assert(parsed_selection_set(v0, parser@, m0, parser.messages(), items));
    }
}

/// Where the colon of an alias would stand, for a field whose first name is
/// the current token of `v`.
pub open spec fn alias_colon_at(v: ParserView) -> int {
    next_significant_at(v.tokens, v.pos + 1)
}

/// A field: an alias where one stands, its name, arguments, directives and
/// selection set, each where it stands.
#[verifier::spinoff_prover]
#[verifier::rlimit(60)]
pub fn field_selection(parser: &mut Parser)
    requires
        old(parser).wf(),
        at_token(old(parser)@, Token::Name),
    ensures
        final(parser).wf(),
        segment(old(parser)@, final(parser)@),
        node(old(parser)@, final(parser)@, SyntaxKind::FIELD_SELECTION),
        final(parser)@.pos > old(parser)@.pos,
        grows(old(parser).messages(), final(parser).messages()),
        ({
            let c = alias_colon_at(old(parser)@);
            &&& added_shapes(old(parser)@, final(parser)@).len() >= 3
            &&& added_shapes(old(parser)@, final(parser)@)[1] == if token_is(
                old(parser)@,
                c,
                Token::Colon,
            ) {
                EventShape::Start(SyntaxKind::ALIAS)
            } else {
                EventShape::Token(token_syntax_kind(Token::Name))
            }
            &&& token_is(old(parser)@, c, Token::Colon) && !token_is(
                old(parser)@,
                next_significant_at(old(parser)@.tokens, c + 1),
                Token::Name,
            ) ==> final(parser).messages().len() > old(parser).messages().len()
                && final(parser).messages()[old(parser).messages().len() as int]
                == "expected field name"@
        }),
        exists|mid: ParserView, md: Seq<Seq<char>>|
            #[trigger] selection_set_tail(
                mid,
                final(parser)@,
                md,
                final(parser).messages(),
                false,
                seq![EventShape::Finish],
            ) && old(parser)@.pos < mid.pos && grows(old(parser).messages(), md),
    decreases remaining(old(parser)@),
{
    let ghost v0 = parser@;
    let ghost m0 = parser.messages();
    parser.start_node(SyntaxKind::FIELD_SELECTION);
    let ghost v1 = parser@;
    let checkpoint = parser.checkpoint();
    parser.bump();
    let ghost v2 = parser@;
    parser.skip_ws();
    let ghost v2b = parser@;
    proof {
        lemma_segment_trans(v1, v2, parser@);
        lemma_first_significant(v2, v2.pos, v2b.pos);
        lemma_added_shapes_trans(v1, v2, v2b);
    }
    if parser.current() == Some(Token::Colon) {
        let ghost v3 = parser@;
        parser.bump();
        let ghost v4 = parser@;
        parser.start_node_at(checkpoint, SyntaxKind::ALIAS);
        parser.finish_node();
        proof {
            lemma_segment_trans(v1, v3, v4);
            lemma_segment_wrap_at(v1, v4, parser@, SyntaxKind::ALIAS);
        }
        let ghost v5 = parser@;
        parser.skip_ws();
        proof {
            lemma_segment_trans(v1, v5, parser@);
            lemma_first_significant(v5, v5.pos, parser@.pos);
            lemma_added_shapes_trans(v1, v5, parser@);
        }
        let ghost v6 = parser@;
        if parser.current() == Some(Token::Name) {
            parser.bump();
            proof {
                lemma_segment_trans(v1, v6, parser@);
                lemma_added_shapes_trans(v1, v6, parser@);
            }
        } else {
            parser.error("expected field name");
        }
    }
    let ghost v7 = parser@;
    proof {
        assert(added_shapes(v1, v7).len() >= 1);
        assert(added_shapes(v1, v7)[0] == if token_is(v0, alias_colon_at(v0), Token::Colon) {
            EventShape::Start(SyntaxKind::ALIAS)
        } else {
            EventShape::Token(token_syntax_kind(Token::Name))
        });
    }
    parser.skip_ws();
    proof {
        lemma_segment_trans(v1, v7, parser@);
        lemma_added_shapes_trans(v1, v7, parser@);
    }
    let ghost v8 = parser@;
    if parser.current() == Some(Token::OpenParen) {
        arguments(parser, Context::NonConstant);
        proof {
            lemma_segment_trans(v1, v8, parser@);
            lemma_added_shapes_trans(v1, v8, parser@);
        }
    }
    let ghost v9 = parser@;
    maybe_directives(parser, Context::NonConstant);
    let ghost v10 = parser@;
    let ghost m10 = parser.messages();
    proof {
        lemma_segment_trans(v1, v9, parser@);
        lemma_added_shapes_trans(v1, v9, parser@);
        lemma_next_significant_stable(v0.tokens, v9.pos);
    }
    if parser.current() == Some(Token::OpenCurly) {
        selection_set(parser);
        proof {
            lemma_segment_trans(v1, v10, parser@);
            lemma_added_shapes_trans(v1, v10, parser@);
            lemma_node_shapes(v10, parser@, SyntaxKind::SELECTION_SET);
        }
    }
    let ghost v11 = parser@;
    parser.finish_node();
    proof {
        lemma_segment_wrap(v0, v1, v11, parser@, SyntaxKind::FIELD_SELECTION);
        assert(v1.events.take(v0.events.len() as int) =~= v0.events);
        assert(parser@.events.take(v11.events.len() as int) =~= v11.events);
        if v11 == v10 {
            lemma_segment_refl(v10);
        }
        lemma_added_shapes_trans(v10, v11, parser@);
        lemma_added_shapes_trans(v1, v11, parser@);
        lemma_added_shapes_trans(v0, v1, parser@);
        assert(added_shapes(v0, v1) =~= seq![EventShape::Start(SyntaxKind::FIELD_SELECTION)]);
        assert(added_shapes(v11, parser@) =~= seq![EventShape::Finish]);
        if v11.pos == v10.pos {
            assert(added_shapes(v10, v11) =~= Seq::<EventShape>::empty());
        }
        assert(selection_set_tail(v10, parser@, m10, parser.messages(), false, seq![EventShape::Finish]));
    }
}

/// The end of a node from `mid`, a significant token, to `after`: a
/// selection set where `{` stands at `mid`; elsewhere nothing but `tail`,
/// after the error `expected selection set` where one is `required`.
pub open spec fn selection_set_tail(
    mid: ParserView,
    after: ParserView,
    md: Seq<Seq<char>>,
    m1: Seq<Seq<char>>,
    required: bool,
    tail: Seq<EventShape>,
) -> bool {
    &&& after.tokens == mid.tokens
    &&& next_significant_at(mid.tokens, mid.pos) == mid.pos
    &&& if token_is(mid, mid.pos, Token::OpenCurly) {
        &&& after.pos > mid.pos
        &&& added_shapes(mid, after).len() >= 2
        &&& added_shapes(mid, after)[0] == EventShape::Start(SyntaxKind::SELECTION_SET)
        &&& grows(md, m1)
    } else {
        &&& after.pos == mid.pos
        &&& added_shapes(mid, after) == tail
        &&& m1 == if required {
            md.push("expected selection set"@)
        } else {
            md
        }
    }
}

/// What a node of `kind` that begins with `...` records first: its start,
/// the `...` and the tokens up to the next significant one.
pub open spec fn spread_head(before: ParserView, after: ParserView, kind: SyntaxKind) -> bool {
    let a = next_significant_at(before.tokens, before.pos + 1);
    &&& added_shapes(before, after).len() > a - before.pos + 1
    &&& added_shapes(before, after).subrange(0, a - before.pos + 1) == seq![
        EventShape::Start(kind),
    ] + bumped(before.tokens, before.pos, a)
}

/// `...` FragmentName Directives, and a selection set where one follows.
#[verifier::spinoff_prover]
#[verifier::rlimit(40)]
pub fn fragment_spread(parser: &mut Parser)
    requires
        old(parser).wf(),
        at_token(old(parser)@, Token::Spread),
    ensures
        final(parser).wf(),
        segment(old(parser)@, final(parser)@),
        node(old(parser)@, final(parser)@, SyntaxKind::FRAGMENT_SPREAD),
        final(parser)@.pos > old(parser)@.pos,
        grows(old(parser).messages(), final(parser).messages()),
        spread_head(old(parser)@, final(parser)@, SyntaxKind::FRAGMENT_SPREAD),
        ({
            let a = next_significant_at(old(parser)@.tokens, old(parser)@.pos + 1);
            token_is(old(parser)@, a, Token::Name) && !name_is(old(parser)@, a, "on"@)
                ==> added_shapes(old(parser)@, final(parser)@)[a - old(parser)@.pos + 1]
                == EventShape::Start(SyntaxKind::FRAGMENT_NAME)
        }),
        exists|mid: ParserView, md: Seq<Seq<char>>|
            #[trigger] selection_set_tail(
                mid,
                final(parser)@,
                md,
                final(parser).messages(),
                false,
                seq![EventShape::Finish],
            ) && old(parser)@.pos < mid.pos && grows(old(parser).messages(), md),
    decreases remaining(old(parser)@),
{
    let ghost v0 = parser@;
    let ghost m0 = parser.messages();
    parser.start_node(SyntaxKind::FRAGMENT_SPREAD);
    let ghost v1 = parser@;
    parser.bump();
    let ghost v2 = parser@;
    parser.skip_ws();
    let ghost v3 = parser@;
    proof {
        lemma_segment_trans(v1, v2, parser@);
        lemma_first_significant(v2, v2.pos, v3.pos);
        lemma_next_significant_stable(v0.tokens, v0.pos + 1);
        assert(v1.events.take(v0.events.len() as int) =~= v0.events);
        lemma_added_shapes_trans(v0, v1, v2);
        lemma_added_shapes_trans(v0, v2, v3);
        lemma_bumped_concat(v0.tokens, v0.pos, v0.pos + 1, v3.pos);
        assert(added_shapes(v0, v1) =~= seq![EventShape::Start(SyntaxKind::FRAGMENT_SPREAD)]);
        assert(added_shapes(v0, v3) =~= seq![EventShape::Start(SyntaxKind::FRAGMENT_SPREAD)]
            + bumped(v0.tokens, v0.pos, v3.pos));
    }
    if parser.current() == Some(Token::Name) {
        fragment_name(parser);
        proof {
            lemma_segment_trans(v1, v3, parser@);
            assert(bumped(v0.tokens, v3.pos, v3.pos) =~= Seq::<EventShape>::empty());
        }
    } else {
        proof {
            lemma_segment_refl(v3);
        }
    }
    let ghost v4 = parser@;
    maybe_directives(parser, Context::NonConstant);
    let ghost v5 = parser@;
    parser.skip_ws();
    let ghost v6 = parser@;
    let ghost m6 = parser.messages();
    proof {
        lemma_segment_trans(v3, v4, v5);
        lemma_segment_trans(v3, v5, v6);
        lemma_segment_trans(v1, v4, v5);
        lemma_segment_trans(v1, v5, parser@);
        lemma_added_shapes_trans(v3, v4, v5);
        lemma_added_shapes_trans(v3, v5, v6);
        lemma_first_significant(v5, v5.pos, v6.pos);
        lemma_next_significant_stable(v0.tokens, v5.pos);
    }
    if parser.current() == Some(Token::OpenCurly) {
        selection_set(parser);
        proof {
            lemma_segment_trans(v1, v6, parser@);
            lemma_node_shapes(v6, parser@, SyntaxKind::SELECTION_SET);
        }
    }
    let ghost v7 = parser@;
    parser.finish_node();
    proof {
        lemma_segment_wrap(v0, v1, v7, parser@, SyntaxKind::FRAGMENT_SPREAD);
        assert(parser@.events.take(v7.events.len() as int) =~= v7.events);
        if v7 == v6 {
            lemma_segment_refl(v6);
        }
        lemma_added_shapes_trans(v6, v7, parser@);
        lemma_added_shapes_trans(v3, v6, parser@);
        lemma_added_shapes_trans(v0, v3, parser@);
        assert(added_shapes(v7, parser@) =~= seq![EventShape::Finish]);
        if v7.pos == v6.pos {
            assert(added_shapes(v6, v7) =~= Seq::<EventShape>::empty());
        }
        assert(added_shapes(v0, parser@).subrange(0, v3.pos - v0.pos + 1) =~= added_shapes(v0, v3));
        assert(selection_set_tail(v6, parser@, m6, parser.messages(), false, seq![EventShape::Finish]));
    }
}

/// `...` TypeCondition? Directives SelectionSet.
#[verifier::spinoff_prover]
#[verifier::rlimit(40)]
pub fn inline_fragment(parser: &mut Parser)
    requires
        old(parser).wf(),
        at_token(old(parser)@, Token::Spread),
    ensures
        final(parser).wf(),
        segment(old(parser)@, final(parser)@),
        node(old(parser)@, final(parser)@, SyntaxKind::INLINE_FRAGMENT),
        final(parser)@.pos > old(parser)@.pos,
        grows(old(parser).messages(), final(parser).messages()),
        spread_head(old(parser)@, final(parser)@, SyntaxKind::INLINE_FRAGMENT),
        ({
            let a = next_significant_at(old(parser)@.tokens, old(parser)@.pos + 1);
            name_is(old(parser)@, a, "on"@) ==> added_shapes(old(parser)@, final(parser)@)[a
                - old(parser)@.pos + 1] == EventShape::Start(SyntaxKind::TYPE_CONDITION)
        }),
        exists|mid: ParserView, md: Seq<Seq<char>>|
            #[trigger] selection_set_tail(
                mid,
                final(parser)@,
                md,
                final(parser).messages(),
                true,
                seq![EventShape::Finish],
            ) && old(parser)@.pos < mid.pos && grows(old(parser).messages(), md),
    decreases remaining(old(parser)@),
{
    let ghost v0 = parser@;
    let ghost m0 = parser.messages();
    parser.start_node(SyntaxKind::INLINE_FRAGMENT);
    let ghost v1 = parser@;
    parser.bump();
    let ghost v2 = parser@;
    parser.skip_ws();
    let ghost v3 = parser@;
    proof {
        lemma_segment_trans(v1, v2, parser@);
        lemma_first_significant(v2, v2.pos, v3.pos);
        lemma_next_significant_stable(v0.tokens, v0.pos + 1);
        assert(v1.events.take(v0.events.len() as int) =~= v0.events);
        lemma_added_shapes_trans(v0, v1, v2);
        lemma_added_shapes_trans(v0, v2, v3);
        lemma_bumped_concat(v0.tokens, v0.pos, v0.pos + 1, v3.pos);
        assert(added_shapes(v0, v1) =~= seq![EventShape::Start(SyntaxKind::INLINE_FRAGMENT)]);
        assert(added_shapes(v0, v3) =~= seq![EventShape::Start(SyntaxKind::INLINE_FRAGMENT)]
            + bumped(v0.tokens, v0.pos, v3.pos));
    }
    if parser.current_is_name("on") {
        type_condition(parser);
        proof {
            lemma_segment_trans(v1, v3, parser@);
            assert(bumped(v0.tokens, v3.pos, v3.pos) =~= Seq::<EventShape>::empty());
            assert(added_shapes(v3, parser@)[0] == EventShape::Start(SyntaxKind::TYPE_CONDITION));
        }
    } else {
        proof {
            lemma_segment_refl(v3);
        }
    }
    let ghost v4 = parser@;
    maybe_directives(parser, Context::NonConstant);
    let ghost v5 = parser@;
    parser.skip_ws();
    let ghost v6 = parser@;
    let ghost m6 = parser.messages();
    proof {
        lemma_segment_trans(v3, v4, v5);
        lemma_segment_trans(v3, v5, v6);
        lemma_segment_trans(v1, v4, v5);
        lemma_segment_trans(v1, v5, parser@);
        lemma_added_shapes_trans(v3, v4, v5);
        lemma_added_shapes_trans(v3, v5, v6);
        lemma_first_significant(v5, v5.pos, v6.pos);
        lemma_next_significant_stable(v0.tokens, v5.pos);
    }
    if parser.current() == Some(Token::OpenCurly) {
        selection_set(parser);
        proof {
            lemma_segment_trans(v1, v6, parser@);
            lemma_node_shapes(v6, parser@, SyntaxKind::SELECTION_SET);
        }
    } else {
        parser.error("expected selection set");
    }
    let ghost v7 = parser@;
    parser.finish_node();
    proof {
        lemma_segment_wrap(v0, v1, v7, parser@, SyntaxKind::INLINE_FRAGMENT);
        assert(parser@.events.take(v7.events.len() as int) =~= v7.events);
        if v7 == v6 {
            lemma_segment_refl(v6);
        }
        lemma_added_shapes_trans(v6, v7, parser@);
        lemma_added_shapes_trans(v3, v6, parser@);
        lemma_added_shapes_trans(v0, v3, parser@);
        assert(added_shapes(v7, parser@) =~= seq![EventShape::Finish]);
        if v7.pos == v6.pos {
            assert(added_shapes(v6, v7) =~= Seq::<EventShape>::empty());
        }
        assert(added_shapes(v0, parser@).subrange(0, v3.pos - v0.pos + 1) =~= added_shapes(v0, v3));
        assert(selection_set_tail(v6, parser@, m6, parser.messages(), true, seq![EventShape::Finish]));
    }
}

/// What follows `fragment`: FragmentName TypeCondition Directives SelectionSet.
#[verifier::spinoff_prover]
#[verifier::rlimit(40)]
pub fn fragment(parser: &mut Parser)
    requires
        old(parser).wf(),
    ensures
        final(parser).wf(),
        segment(old(parser)@, final(parser)@),
        grows(old(parser).messages(), final(parser).messages()),
        if fragment_name_ahead(old(parser)@) {
            &&& added_shapes(old(parser)@, final(parser)@).len() > ahead(old(parser)@) - old(parser)@.pos
            &&& added_shapes(old(parser)@, final(parser)@)[ahead(old(parser)@) - old(parser)@.pos]
                == EventShape::Start(SyntaxKind::FRAGMENT_NAME)
        } else {
            &&& final(parser).messages().len() > old(parser).messages().len()
            &&& final(parser).messages()[old(parser).messages().len() as int]
                == "expected fragment name"@
        },
        exists|mid: ParserView, md: Seq<Seq<char>>|
            #[trigger] selection_set_tail(
                mid,
                final(parser)@,
                md,
                final(parser).messages(),
                true,
                Seq::empty(),
            ) && old(parser)@.pos <= mid.pos && grows(old(parser).messages(), md),
{
    let ghost v0 = parser@;
    let ghost m0 = parser.messages();
    fragment_name(parser);
    let ghost v1 = parser@;
    let ghost m1 = parser.messages();
    type_condition(parser);
    let ghost v2 = parser@;
    maybe_directives(parser, Context::NonConstant);
    let ghost v3 = parser@;
    parser.skip_ws();
    let ghost v4 = parser@;
    let ghost m4 = parser.messages();
    proof {
        lemma_segment_trans(v0, v1, v2);
        lemma_segment_trans(v0, v2, v3);
        lemma_segment_trans(v0, v3, parser@);
        lemma_segment_trans(v1, v2, v3);
        lemma_segment_trans(v1, v3, v4);
        lemma_added_shapes_trans(v0, v1, v4);
        lemma_first_significant(v3, v3.pos, v4.pos);
        lemma_next_significant_stable(v0.tokens, v3.pos);
    }
    if parser.current() == Some(Token::OpenCurly) {
        selection_set(parser);
        proof {
            lemma_segment_trans(v0, v4, parser@);
            lemma_node_shapes(v4, parser@, SyntaxKind::SELECTION_SET);
        }
    } else {
        parser.error("expected selection set");
        proof {
            lemma_segment_refl(v4);
            assert(added_shapes(v4, parser@) =~= Seq::<EventShape>::empty());
        }
    }
    proof {
        lemma_added_shapes_trans(v0, v4, parser@);
        assert(grows(m1, parser.messages()));
        assert(selection_set_tail(v4, parser@, m4, parser.messages(), true, Seq::empty()));
    }
}

/// A type: a named type or a list type, and `!` where it follows.
#[verifier::spinoff_prover]
#[verifier::rlimit(60)]
pub fn ty(parser: &mut Parser)
    requires
        old(parser).wf(),
        at_token(old(parser)@, Token::Name) || at_token(old(parser)@, Token::OpenSquare),
    ensures
        final(parser).wf(),
        segment(old(parser)@, final(parser)@),
        node(old(parser)@, final(parser)@, SyntaxKind::TYPE),
        final(parser)@.pos > old(parser)@.pos,
        grows(old(parser).messages(), final(parser).messages()),
        added_shapes(old(parser)@, final(parser)@).len() >= 3,
        added_shapes(old(parser)@, final(parser)@)[1] == if at_token(old(parser)@, Token::Name) {
            EventShape::Start(SyntaxKind::NAMED_TYPE)
        } else {
            EventShape::Token(token_syntax_kind(Token::OpenSquare))
        },
        ({
            let i = next_significant_at(old(parser)@.tokens, old(parser)@.pos + 1);
            at_token(old(parser)@, Token::OpenSquare) && !(token_is(old(parser)@, i, Token::Name)
                || token_is(old(parser)@, i, Token::OpenSquare)) ==> final(parser).messages().len()
                > old(parser).messages().len() && final(parser).messages()[old(
                parser,
            ).messages().len() as int] == "expected a type"@
        }),
    decreases remaining(old(parser)@),
{
    let ghost v0 = parser@;
    let ghost m0 = parser.messages();
    parser.start_node(SyntaxKind::TYPE);
    let ghost v1 = parser@;
    proof {
        lemma_segment_refl(v1);
    }
    if parser.current() == Some(Token::Name) {
        named_type(parser);
        proof {
            lemma_node_shapes(v1, parser@, SyntaxKind::NAMED_TYPE);
        }
    } else {
        parser.bump();
        let ghost v2 = parser@;
        parser.skip_ws();
        proof {
            lemma_segment_trans(v1, v2, parser@);
            lemma_added_shapes_trans(v1, v2, parser@);
            lemma_first_significant(v2, v2.pos, parser@.pos);
        }
        let ghost v3 = parser@;
        match parser.current() {
            Some(Token::Name) | Some(Token::OpenSquare) => {
                ty(parser);
                proof {
                    lemma_segment_trans(v1, v3, parser@);
                    lemma_added_shapes_trans(v1, v3, parser@);
                }
            },
            _ => parser.error("expected a type"),
        }
        let ghost v4 = parser@;
        parser.skip_ws();
        proof {
            lemma_segment_trans(v1, v4, parser@);
            lemma_added_shapes_trans(v1, v4, parser@);
        }
        let ghost v5 = parser@;
        if parser.current() == Some(Token::CloseSquare) {
            parser.bump();
            proof {
                lemma_segment_trans(v1, v5, parser@);
                lemma_added_shapes_trans(v1, v5, parser@);
            }
        } else {
            parser.error("missing ]");
        }
    }
    let ghost v6 = parser@;
    proof {
        assert(added_shapes(v1, v6).len() >= 1);
    }
    if parser.current() == Some(Token::Bang) {
        parser.bump();
        proof {
            lemma_segment_trans(v1, v6, parser@);
            lemma_added_shapes_trans(v1, v6, parser@);
        }
    }
    let ghost v7 = parser@;
    parser.finish_node();
    proof {
        lemma_segment_wrap(v0, v1, v7, parser@, SyntaxKind::TYPE);
        assert(v1.events.take(v0.events.len() as int) =~= v0.events);
        assert(parser@.events.take(v7.events.len() as int) =~= v7.events);
        lemma_added_shapes_trans(v1, v7, parser@);
        lemma_added_shapes_trans(v0, v1, parser@);
        assert(added_shapes(v0, v1) =~= seq![EventShape::Start(SyntaxKind::TYPE)]);
    }
}

/// Where the colon of a variable definition whose `$` is the current token
/// of `v` should stand.
pub open spec fn definition_colon_at(v: ParserView) -> int {
    next_significant_at(v.tokens, variable_end(v))
}

/// Where the type of that variable definition should stand.
pub open spec fn definition_type_at(v: ParserView) -> int {
    let c = definition_colon_at(v);
    next_significant_at(
        v.tokens,
        if token_is(v, c, Token::Colon) {
            c + 1
        } else {
            c
        },
    )
}

/// The errors after the variable and the colon of that variable definition.
pub open spec fn definition_colon_messages(v: ParserView, m: Seq<Seq<char>>) -> Seq<Seq<char>> {
    let mv = if token_is(v, v.pos + 1, Token::Name) {
        m
    } else {
        m.push("expected variable name"@)
    };
    if token_is(v, definition_colon_at(v), Token::Colon) {
        mv
    } else {
        mv.push("expected colon"@)
    }
}

/// `$name : Type`, a default value after `=` where one stands, and directives.
#[verifier::spinoff_prover]
#[verifier::rlimit(60)]
pub fn variable_definition(parser: &mut Parser)
    requires
        old(parser).wf(),
        at_token(old(parser)@, Token::Dollar),
    ensures
        final(parser).wf(),
        segment(old(parser)@, final(parser)@),
        node(old(parser)@, final(parser)@, SyntaxKind::VARIABLE_DEF),
        final(parser)@.pos > old(parser)@.pos,
        grows(old(parser).messages(), final(parser).messages()),
        added_shapes(old(parser)@, final(parser)@).len() >= 3,
        added_shapes(old(parser)@, final(parser)@)[1] == EventShape::Start(SyntaxKind::VARIABLE),
        ({
            let mc = definition_colon_messages(old(parser)@, old(parser).messages());
            let t = definition_type_at(old(parser)@);
            &&& grows(mc, final(parser).messages())
            &&& !(token_is(old(parser)@, t, Token::Name) || token_is(
                old(parser)@,
                t,
                Token::OpenSquare,
            )) ==> final(parser).messages().len() > mc.len() && final(parser).messages()[mc.len()
                as int] == "expected a type"@
        }),
{
    let ghost v0 = parser@;
    let ghost m0 = parser.messages();
    parser.start_node(SyntaxKind::VARIABLE_DEF);
    let ghost v1 = parser@;
    variable(parser);
    let ghost v2 = parser@;
    parser.skip_ws();
    let ghost v3 = parser@;
    proof {
        lemma_segment_trans(v1, v2, parser@);
        lemma_first_significant(v2, v2.pos, v3.pos);
    }
    if parser.current() == Some(Token::Colon) {
        parser.bump();
        proof {
            lemma_segment_trans(v1, v3, parser@);
            lemma_segment_trans(v2, v3, parser@);
        }
    } else {
        parser.error("expected colon");
    }
    let ghost v4 = parser@;
    let ghost mc = parser.messages();
    parser.skip_ws();
    let ghost v5 = parser@;
    proof {
        lemma_segment_trans(v1, v4, parser@);
        lemma_segment_trans(v2, v4, parser@);
        lemma_first_significant(v4, v4.pos, v5.pos);
        assert(mc == definition_colon_messages(v0, m0));
    }
    match parser.current() {
        Some(Token::Name) | Some(Token::OpenSquare) => {
            ty(parser);
            proof {
                lemma_segment_trans(v1, v5, parser@);
                lemma_segment_trans(v2, v5, parser@);
            }
        },
        _ => parser.error("expected a type"),
    }
    let ghost v6 = parser@;
    parser.skip_ws();
    proof {
        lemma_segment_trans(v1, v6, parser@);
        lemma_segment_trans(v2, v6, parser@);
    }
    if parser.current() == Some(Token::Equals) {
        let ghost v7 = parser@;
        parser.start_node(SyntaxKind::DEFAULT_VALUE);
        let ghost v8 = parser@;
        parser.bump();
        let ghost v9 = parser@;
        value(parser, Context::Constant);
        proof {
            lemma_segment_trans(v8, v9, parser@);
        }
        let ghost v10 = parser@;
        parser.finish_node();
        proof {
            lemma_segment_wrap(v7, v8, v10, parser@, SyntaxKind::DEFAULT_VALUE);
            lemma_segment_trans(v1, v7, parser@);
            lemma_segment_trans(v2, v7, parser@);
        }
    }
    let ghost v11 = parser@;
    maybe_directives(parser, Context::Constant);
    proof {
        lemma_segment_trans(v1, v11, parser@);
        lemma_segment_trans(v2, v11, parser@);
    }
    let ghost v12 = parser@;
    parser.finish_node();
    proof {
        lemma_segment_wrap(v0, v1, v12, parser@, SyntaxKind::VARIABLE_DEF);
        assert(v1.events.take(v0.events.len() as int) =~= v0.events);
        assert(parser@.events.take(v12.events.len() as int) =~= v12.events);
        lemma_added_shapes_trans(v2, v12, parser@);
        lemma_added_shapes_trans(v1, v2, parser@);
        lemma_added_shapes_trans(v0, v1, parser@);
        assert(added_shapes(v0, v1) =~= seq![EventShape::Start(SyntaxKind::VARIABLE_DEF)]);
    }
}

/// How variable definitions stop at `after`: just after their `)`, or at a
/// significant token that is neither `$` nor `)`, with an error.
pub open spec fn definitions_stop(after: ParserView, m0: Seq<Seq<char>>, m1: Seq<Seq<char>>) -> bool {
    ||| token_is(after, after.pos - 1, Token::CloseParen)
    ||| {
        &&& ahead(after) == after.pos
        &&& !token_is(after, after.pos, Token::Dollar)
        &&& !token_is(after, after.pos, Token::CloseParen)
        &&& m1.len() > m0.len()
        &&& m1.last() == "expected a variable definition or )"@
    }
}

/// `(` variable definitions `)`.
#[verifier::spinoff_prover]
#[verifier::rlimit(60)]
pub fn variable_definitions(parser: &mut Parser)
    requires
        old(parser).wf(),
        at_token(old(parser)@, Token::OpenParen),
    ensures
        final(parser).wf(),
        segment(old(parser)@, final(parser)@),
        node(old(parser)@, final(parser)@, SyntaxKind::VARIABLE_DEFS),
        final(parser)@.pos > old(parser)@.pos,
        grows(old(parser).messages(), final(parser).messages()),
        added_shapes(old(parser)@, final(parser)@).len() >= 3,
        added_shapes(old(parser)@, final(parser)@)[1] == EventShape::Token(
            token_syntax_kind(Token::OpenParen),
        ),
        definitions_stop(final(parser)@, old(parser).messages(), final(parser).messages()),
{
    let ghost v0 = parser@;
    let ghost m0 = parser.messages();
    parser.start_node(SyntaxKind::VARIABLE_DEFS);
    let ghost v1 = parser@;
    parser.bump();
    let ghost v2 = parser@;
    parser.skip_ws();
    proof {
        lemma_segment_trans(v1, v2, parser@);
        lemma_added_shapes_trans(v1, v2, parser@);
        lemma_first_significant(v2, v2.pos, parser@.pos);
        lemma_next_significant_stable(v0.tokens, v2.pos);
    }
    loop
        invariant_except_break
            ahead(parser@) == parser@.pos,
        invariant
            grows(old(parser).messages(), parser.messages()),
            parser.wf(),
            segment(v1, parser@),
            parser@.pos > v1.pos,
            parser@.tokens == v0.tokens,
            m0 == old(parser).messages(),
            added_shapes(v1, parser@).len() >= 1,
            added_shapes(v1, parser@)[0] == EventShape::Token(token_syntax_kind(Token::OpenParen)),
        ensures
            grows(old(parser).messages(), parser.messages()),
            parser.wf(),
            segment(v1, parser@),
            parser@.pos > v1.pos,
            added_shapes(v1, parser@).len() >= 1,
            added_shapes(v1, parser@)[0] == EventShape::Token(token_syntax_kind(Token::OpenParen)),
            definitions_stop(parser@, m0, parser.messages()),
        decreases remaining(parser@),
    {
        let ghost before = parser@;
        match parser.current() {
            Some(Token::Dollar) => {
                variable_definition(parser);
                let ghost after = parser@;
                parser.skip_ws();
                proof {
                    lemma_segment_trans(v1, before, after);
                    lemma_segment_trans(v1, after, parser@);
                    lemma_added_shapes_trans(v1, before, after);
                    lemma_added_shapes_trans(v1, after, parser@);
                    lemma_first_significant(after, after.pos, parser@.pos);
                    lemma_next_significant_stable(v0.tokens, after.pos);
                }
            },
            Some(Token::CloseParen) => {
                parser.bump();
                proof {
                    lemma_segment_trans(v1, before, parser@);
                    lemma_added_shapes_trans(v1, before, parser@);
                }
                break;
            },
            _ => {
                parser.error("expected a variable definition or )");
                break;
            },
        }
    }
    let ghost v3 = parser@;
    parser.finish_node();
    proof {
        lemma_segment_wrap(v0, v1, v3, parser@, SyntaxKind::VARIABLE_DEFS);
        assert(v1.events.take(v0.events.len() as int) =~= v0.events);
        assert(parser@.events.take(v3.events.len() as int) =~= v3.events);
        lemma_added_shapes_trans(v1, v3, parser@);
        lemma_added_shapes_trans(v0, v1, parser@);
        assert(added_shapes(v0, v1) =~= seq![EventShape::Start(SyntaxKind::VARIABLE_DEFS)]);
    }
}

/// An operation after its keyword, which is added as `keyword`: a name,
/// variable definitions and directives where they stand, then a selection set.
#[verifier::spinoff_prover]
#[verifier::rlimit(100)]
pub fn operation_definition(parser: &mut Parser, keyword: SyntaxKind)
    requires
        old(parser).wf(),
        at_token(old(parser)@, Token::Name),
    ensures
        final(parser).wf(),
        segment(old(parser)@, final(parser)@),
        node(old(parser)@, final(parser)@, SyntaxKind::OPERATION_DEF),
        final(parser)@.pos > old(parser)@.pos,
        grows(old(parser).messages(), final(parser).messages()),
        added_shapes(old(parser)@, final(parser)@).len() >= 3,
        added_shapes(old(parser)@, final(parser)@)[1] == EventShape::Token(keyword),
        exists|mid: ParserView, md: Seq<Seq<char>>|
            #[trigger] selection_set_tail(
                mid,
                final(parser)@,
                md,
                final(parser).messages(),
                true,
                seq![EventShape::Finish],
            ) && old(parser)@.pos < mid.pos && grows(old(parser).messages(), md),
{
    let ghost v0 = parser@;
    parser.start_node(SyntaxKind::OPERATION_DEF);
    let ghost v1 = parser@;
    parser.bump_as(keyword);
    let ghost v2 = parser@;
    parser.skip_ws();
    proof {
        lemma_segment_trans(v1, v2, parser@);
    }
    let ghost v3 = parser@;
    if parser.current() == Some(Token::Name) {
        parser.bump();
        let ghost v4 = parser@;
        parser.skip_ws();
        proof {
            lemma_segment_trans(v1, v3, v4);
            lemma_segment_trans(v1, v4, parser@);
            lemma_segment_trans(v2, v3, v4);
            lemma_segment_trans(v2, v4, parser@);
        }
    }
    let ghost v5 = parser@;
    if parser.current() == Some(Token::OpenParen) {
        variable_definitions(parser);
        proof {
            lemma_segment_trans(v1, v5, parser@);
            lemma_segment_trans(v2, v5, parser@);
        }
    }
    let ghost v6 = parser@;
    maybe_directives(parser, Context::NonConstant);
    let ghost v7 = parser@;
    parser.skip_ws();
    let ghost v8 = parser@;
    let ghost m8 = parser.messages();
    proof {
        lemma_segment_trans(v1, v6, v7);
        lemma_segment_trans(v1, v7, parser@);
        lemma_segment_trans(v2, v6, v7);
        lemma_segment_trans(v2, v7, parser@);
        lemma_first_significant(v7, v7.pos, v8.pos);
        lemma_next_significant_stable(v0.tokens, v7.pos);
    }
    if parser.current() == Some(Token::OpenCurly) {
        selection_set(parser);
        proof {
            lemma_segment_trans(v1, v8, parser@);
            lemma_node_shapes(v8, parser@, SyntaxKind::SELECTION_SET);
        }
    } else {
        parser.error("expected selection set");
    }
    let ghost v9 = parser@;
    parser.finish_node();
    proof {
        lemma_segment_wrap(v0, v1, v9, parser@, SyntaxKind::OPERATION_DEF);
        assert(v1.events.take(v0.events.len() as int) =~= v0.events);
        assert(parser@.events.take(v9.events.len() as int) =~= v9.events);
        if v9 == v8 {
            lemma_segment_refl(v8);
        }
        lemma_added_shapes_trans(v8, v9, parser@);
        lemma_added_shapes_trans(v2, v8, parser@);
        lemma_added_shapes_trans(v1, v2, parser@);
        lemma_added_shapes_trans(v0, v1, parser@);
        assert(added_shapes(v0, v1) =~= seq![EventShape::Start(SyntaxKind::OPERATION_DEF)]);
        assert(added_shapes(v9, parser@) =~= seq![EventShape::Finish]);
        if v9.pos == v8.pos {
            assert(added_shapes(v8, v9) =~= Seq::<EventShape>::empty());
        }
        assert(selection_set_tail(v8, parser@, m8, parser.messages(), true, seq![EventShape::Finish]));
    }
}

/// One thing at the top level of a document: where it starts and ends,
/// what it records, and the errors it records.
pub struct TopItem {
    pub start: int,
    pub end: int,
    pub shapes: Seq<EventShape>,
    pub messages: Seq<Seq<char>>,
}

/// What `item` is, by the token it starts at: `{` starts an operation
/// whose first part is a selection set; the name `fragment` a fragment
/// definition that opens with its keyword; `query`, `mutation` and
/// `subscription` an operation definition that opens with that keyword;
/// anything else is one error
/// token, with the error that a definition was expected.
pub open spec fn definition_item(tokens: Seq<(Token, Seq<char>)>, item: TopItem) -> bool {
    &&& 0 <= item.start < item.end <= tokens.len()
    &&& !insignificant(tokens[item.start].0)
    &&& if tokens[item.start].0 == Token::OpenCurly {
        &&& item.shapes.len() >= 3
        &&& item.shapes[0] == EventShape::Start(SyntaxKind::OPERATION_DEF)
        &&& item.shapes[1] == EventShape::Start(SyntaxKind::SELECTION_SET)
        &&& item.shapes.last() == EventShape::Finish
    } else if tokens[item.start].0 == Token::Name && tokens[item.start].1 == "fragment"@ {
        &&& item.shapes.len() >= 3
        &&& item.shapes[0] == EventShape::Start(SyntaxKind::FRAGMENT_DEF)
        &&& item.shapes[1] == EventShape::Token(SyntaxKind::FRAGMENT_KEYWORD)
        &&& item.shapes.last() == EventShape::Finish
    } else if tokens[item.start].0 == Token::Name && (tokens[item.start].1 == "query"@
        || tokens[item.start].1 == "mutation"@ || tokens[item.start].1 == "subscription"@) {
        &&& item.shapes.len() >= 3
        &&& item.shapes[0] == EventShape::Start(SyntaxKind::OPERATION_DEF)
        &&& item.shapes[1] == EventShape::Token(
            if tokens[item.start].1 == "query"@ {
                SyntaxKind::QUERY_KEYWORD
            } else if tokens[item.start].1 == "mutation"@ {
                SyntaxKind::MUTATION_KEYWORD
            } else {
                SyntaxKind::SUBSCRIPTION_KEYWORD
            },
        )
        &&& item.shapes.last() == EventShape::Finish
    } else {
        &&& item.end == item.start + 1
        &&& item.shapes == seq![EventShape::Token(SyntaxKind::ERROR)]
        &&& item.messages == seq!["expected a definition"@]
    }
}

/// Where the last of `items` ends; `from` where there are none.
pub open spec fn last_end(from: int, items: Seq<TopItem>) -> int {
    if items.len() == 0 {
        from
    } else {
        items.last().end
    }
}

/// Each of `items` is a definition item that starts at the first
/// significant token after the one before it (after `from` for the first).
pub open spec fn well_placed(tokens: Seq<(Token, Seq<char>)>, from: int, items: Seq<TopItem>) -> bool
    decreases items.len(),
{
    if items.len() == 0 {
        true
    } else {
        &&& well_placed(tokens, from, items.drop_last())
        &&& items.last().start == next_significant_at(tokens, last_end(from, items.drop_last()))
        &&& definition_item(tokens, items.last())
    }
}

/// What `items` record, each after the tokens that come before it.
pub open spec fn top_shapes(tokens: Seq<(Token, Seq<char>)>, from: int, items: Seq<TopItem>) -> Seq<
    EventShape,
>
    decreases items.len(),
{
    if items.len() == 0 {
        Seq::empty()
    } else {
        top_shapes(tokens, from, items.drop_last()) + bumped(
            tokens,
            last_end(from, items.drop_last()),
            items.last().start,
        ) + items.last().shapes
    }
}

/// The errors that `items` record, in order.
pub open spec fn top_messages(items: Seq<TopItem>) -> Seq<Seq<char>>
    decreases items.len(),
{
    if items.len() == 0 {
        Seq::empty()
    } else {
        top_messages(items.drop_last()) + items.last().messages
    }
}

/// From `before` to `after` a document was parsed into `items`: a root node
/// holding, in order, the items with the tokens between them, up to the end
/// of the input; and the errors of the items, in order.
pub open spec fn parsed_document(
    before: ParserView,
    after: ParserView,
    m0: Seq<Seq<char>>,
    m1: Seq<Seq<char>>,
    items: Seq<TopItem>,
) -> bool {
    &&& after.pos == after.tokens.len()
    &&& after.tokens == before.tokens
    &&& well_placed(before.tokens, before.pos, items)
    &&& next_significant_at(before.tokens, last_end(before.pos, items)) == before.tokens.len()
    &&& added_shapes(before, after) == seq![EventShape::Start(SyntaxKind::ROOT)] + top_shapes(
        before.tokens,
        before.pos,
        items,
    ) + bumped(before.tokens, last_end(before.pos, items), before.tokens.len() as int) + seq![
        EventShape::Finish,
    ]
    &&& m1 == m0 + top_messages(items)
}

/// A whole document, inside a root node: operations, fragments and
/// selection sets.  A token where no definition can start is added as an
/// error token.
#[verifier::spinoff_prover]
#[verifier::rlimit(40)]
pub fn document(parser: &mut Parser)
    requires
        old(parser).wf(),
    ensures
        final(parser).wf(),
        segment(old(parser)@, final(parser)@),
        node(old(parser)@, final(parser)@, SyntaxKind::ROOT),
        final(parser)@.pos == final(parser)@.tokens.len(),
        grows(old(parser).messages(), final(parser).messages()),
        exists|items: Seq<TopItem>|
            parsed_document(
                old(parser)@,
                final(parser)@,
                old(parser).messages(),
                final(parser).messages(),
                items,
            ),
{
    let ghost v0 = parser@;
    let ghost m0 = parser.messages();
    parser.start_node(SyntaxKind::ROOT);
    let ghost v1 = parser@;
    let ghost mut items: Seq<TopItem> = Seq::empty();
    proof {
        lemma_segment_refl(v1);
    }
    loop
        invariant_except_break
            parser@.pos == last_end(v1.pos, items),
            added_shapes(v1, parser@) == top_shapes(v1.tokens, v1.pos, items),
            parser.messages() == m0 + top_messages(items),
        invariant
            grows(old(parser).messages(), parser.messages()),
            parser.wf(),
            segment(v1, parser@),
            v1.pos == v0.pos,
            v1.tokens == v0.tokens,
            parser@.tokens == v1.tokens,
            0 <= v1.pos,
            well_placed(v1.tokens, v1.pos, items),
        ensures
            parser.wf(),
            segment(v1, parser@),
            parser@.pos == parser@.tokens.len(),
            grows(old(parser).messages(), parser.messages()),
            well_placed(v1.tokens, v1.pos, items),
            next_significant_at(v1.tokens, last_end(v1.pos, items)) == v1.tokens.len(),
            added_shapes(v1, parser@) == top_shapes(v1.tokens, v1.pos, items) + bumped(
                v1.tokens,
                last_end(v1.pos, items),
                v1.tokens.len() as int,
            ),
            parser.messages() == m0 + top_messages(items),
        decreases remaining(parser@),
    {
        let ghost before = parser@;
        parser.skip_ws();
        let ghost ws = parser@;
        let ghost mws = parser.messages();
        proof {
            lemma_segment_trans(v1, before, ws);
            lemma_added_shapes_trans(v1, before, ws);
            lemma_first_significant(before, before.pos, ws.pos);
        }
        match parser.current() {
            None => {
                break;
            },
            Some(Token::OpenCurly) => {
                parser.start_node(SyntaxKind::OPERATION_DEF);
                let ghost inner = parser@;
                selection_set(parser);
                let ghost done = parser@;
                parser.finish_node();
                proof {
                    lemma_segment_wrap(ws, inner, done, parser@, SyntaxKind::OPERATION_DEF);
                    lemma_segment_trans(v1, ws, parser@);
                    lemma_node_shapes(inner, done, SyntaxKind::SELECTION_SET);
                    lemma_node_shapes(ws, parser@, SyntaxKind::OPERATION_DEF);
                    assert(added_shapes(ws, parser@)[1] == EventShape::Start(SyntaxKind::SELECTION_SET));
                }
            },
            Some(Token::Name) => {
                if parser.current_is_name("fragment") {
                    parser.start_node(SyntaxKind::FRAGMENT_DEF);
                    let ghost inner = parser@;
                    parser.bump_as(SyntaxKind::FRAGMENT_KEYWORD);
                    let ghost keyword = parser@;
                    fragment(parser);
                    let ghost done = parser@;
                    parser.finish_node();
                    proof {
                        lemma_segment_trans(inner, keyword, done);
                        lemma_added_shapes_trans(inner, keyword, done);
                        lemma_segment_wrap(ws, inner, done, parser@, SyntaxKind::FRAGMENT_DEF);
                        lemma_segment_trans(v1, ws, parser@);
                        lemma_node_shapes(ws, parser@, SyntaxKind::FRAGMENT_DEF);
                        assert(added_shapes(ws, parser@)[1] == EventShape::Token(
                            SyntaxKind::FRAGMENT_KEYWORD,
                        ));
                    }
                } else if parser.current_is_name("query") {
                    operation_definition(parser, SyntaxKind::QUERY_KEYWORD);
                    proof {
                        lemma_segment_trans(v1, ws, parser@);
                        lemma_node_shapes(ws, parser@, SyntaxKind::OPERATION_DEF);
                    }
                } else if parser.current_is_name("mutation") {
                    operation_definition(parser, SyntaxKind::MUTATION_KEYWORD);
                    proof {
                        lemma_segment_trans(v1, ws, parser@);
                        lemma_node_shapes(ws, parser@, SyntaxKind::OPERATION_DEF);
                    }
                } else if parser.current_is_name("subscription") {
                    operation_definition(parser, SyntaxKind::SUBSCRIPTION_KEYWORD);
                    proof {
                        lemma_segment_trans(v1, ws, parser@);
                        lemma_node_shapes(ws, parser@, SyntaxKind::OPERATION_DEF);
                    }
                } else {
                    parser.error("expected a definition");
                    parser.bump_as(SyntaxKind::ERROR);
                    proof {
                        lemma_segment_trans(v1, ws, parser@);
                        assert(parser.messages().skip(mws.len() as int) =~= seq!["expected a definition"@]);
                    }
                }
            },
            Some(_) => {
                parser.error("expected a definition");
                parser.bump_as(SyntaxKind::ERROR);
                proof {
                    lemma_segment_trans(v1, ws, parser@);
                    assert(parser.messages().skip(mws.len() as int) =~= seq!["expected a definition"@]);
                }
            },
        }
        proof {
            let after = parser@;
            let item = TopItem {
                start: ws.pos,
                end: after.pos,
                shapes: added_shapes(ws, after),
                messages: parser.messages().skip(mws.len() as int),
            };
            lemma_added_shapes_trans(v1, ws, after);
            assert(ws.events.len() <= after.events.len());
            assert(definition_item(v1.tokens, item));
            let old_items = items;
            items = items.push(item);
            assert(items.drop_last() =~= old_items);
            assert(parser.messages() =~= mws + item.messages);
            assert(parser.messages() =~= m0 + top_messages(items));
        }
    }
    let ghost v2 = parser@;
    parser.finish_node();
    proof {
        lemma_segment_wrap(v0, v1, v2, parser@, SyntaxKind::ROOT);
        assert(added_shapes(v0, parser@) =~= seq![EventShape::Start(SyntaxKind::ROOT)] + top_shapes(
            v0.tokens,
            v0.pos,
            items,
        ) + bumped(v0.tokens, last_end(v0.pos, items), v0.tokens.len() as int) + seq![
            EventShape::Finish,
        ]);
        assert(parsed_document(v0, parser@, m0, parser.messages(), items));
    }
}

/// Parses `source` into the events of its concrete syntax tree, with the
/// errors met on the way.  The tree is lossless: its tokens hold the text of
/// `source`, in order, up to the first character that no token matches (all
/// of it where there is none), every node it starts, it finishes, and the
/// whole is one root node.
pub fn parse(source: &str) -> (r: (Vec<Event>, Vec<String>))
    ensures
        balanced(r.0@),
        single_node(r.0@, SyntaxKind::ROOT),
        events_text(r.0@) == source@.subrange(0, raw_prefix_end(source@, 0)),
        exists|items: Seq<TopItem>|
            #[trigger] parsed_document(
                ParserView { tokens: raw_tokens(source@, 0), pos: 0, events: Seq::empty() },
                ParserView {
                    tokens: raw_tokens(source@, 0),
                    pos: raw_tokens(source@, 0).len() as int,
                    events: r.0@,
                },
                Seq::empty(),
                texts(r.1@),
                items,
            ),
{
    let mut parser = Parser::new(source);
    let ghost v0 = parser@;
    let ghost m0 = parser.messages();
    document(&mut parser);
    proof {
        assert(parser@.events.skip(0) =~= parser@.events);
        assert(v0.events.len() == 0);
    }
    let ghost v1 = parser@;
    let ghost m1 = parser.messages();
    let r = parser.finish();
    proof {
        let items = choose|items: Seq<TopItem>| parsed_document(v0, v1, m0, m1, items);
        assert(v0 == ParserView { tokens: raw_tokens(source@, 0), pos: 0, events: Seq::<Event>::empty() });
        assert(v1 == ParserView {
            tokens: raw_tokens(source@, 0),
            pos: raw_tokens(source@, 0).len() as int,
            events: r.0@,
        });
        assert(m1 == texts(r.1@));
        assert(parsed_document(
            ParserView { tokens: raw_tokens(source@, 0), pos: 0, events: Seq::empty() },
            ParserView {
                tokens: raw_tokens(source@, 0),
                pos: raw_tokens(source@, 0).len() as int,
                events: r.0@,
            },
            Seq::empty(),
            texts(r.1@),
            items,
        ));
    }
    r
}

} // verus!

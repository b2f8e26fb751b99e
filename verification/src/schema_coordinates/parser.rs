//! The parser of schema coordinates:
//!
//! ```text
//! SchemaCoordinate =
//!     Name                          (a type)
//!   | Name "." Name                 (a field, input field or enum value)
//!   | Name "." Name "(" Name ":" ")" (an argument)
//!   | "@" Name                      (a directive)
//!   | "@" Name "(" Name ":" ")"      (a directive argument)
//! ```
use vstd::prelude::*;
use vstd::utf8::encode_utf8;

use super::coordinates::{
    ArgumentCoordinate, DirectiveArgumentCoordinate, DirectiveCoordinate, MemberCoordinate, Name,
    SchemaCoordinate, TypeCoordinate,
};
use super::lexer::{self, kind_of, CoordinateItem, CoordinateTokenKind, Token};
use crate::errors::{additional_reported, Error};
use crate::lexer::LexicalError;
use crate::span::Span;

verus! {

/// What the tokens read so far form: each variant holds the positions of
/// the tokens that it needs later.
#[derive(Clone, Copy, Debug, PartialEq, Eq, Structural)]
pub enum CoordinateState {
    Start,
    TypeName(usize),
    Dot(usize),
    Member(usize, usize),
    At(usize),
    Directive(usize, usize),
    /// `(` after a member (`false`) or a directive (`true`), with its two positions.
    Open(bool, usize, usize),
    ArgumentName(bool, usize, usize, usize),
    Colon(bool, usize, usize, usize),
    Close(bool, usize, usize, usize, usize),
}

/// The state after a token of `kind` at position `i`, `None` where that
/// token may not come.
pub open spec fn next_state(state: CoordinateState, kind: CoordinateTokenKind, i: usize) -> Option<CoordinateState> {
    match (state, kind) {
        (CoordinateState::Start, CoordinateTokenKind::Identifier) => Some(CoordinateState::TypeName(i)),
        (CoordinateState::Start, CoordinateTokenKind::At) => Some(CoordinateState::At(i)),
        (CoordinateState::TypeName(t), CoordinateTokenKind::Dot) => Some(CoordinateState::Dot(t)),
        (CoordinateState::Dot(t), CoordinateTokenKind::Identifier) => Some(CoordinateState::Member(t, i)),
        (CoordinateState::Member(t, f), CoordinateTokenKind::OpenParen) => Some(CoordinateState::Open(false, t, f)),
        (CoordinateState::At(a), CoordinateTokenKind::Identifier) => Some(CoordinateState::Directive(a, i)),
        (CoordinateState::Directive(a, d), CoordinateTokenKind::OpenParen) => Some(CoordinateState::Open(true, a, d)),
        (CoordinateState::Open(dir, x, y), CoordinateTokenKind::Identifier) => Some(CoordinateState::ArgumentName(dir, x, y, i)),
        (CoordinateState::ArgumentName(dir, x, y, n), CoordinateTokenKind::Colon) => Some(CoordinateState::Colon(dir, x, y, n)),
        (CoordinateState::Colon(dir, x, y, n), CoordinateTokenKind::CloseParen) => Some(CoordinateState::Close(dir, x, y, n, i)),
        _ => None,
    }
}

/// The states in which the input may end.
pub open spec fn accepting(state: CoordinateState) -> bool {
    match state {
        CoordinateState::TypeName(_) => true,
        CoordinateState::Member(_, _) => true,
        CoordinateState::Directive(_, _) => true,
        CoordinateState::Close(_, _, _, _, _) => true,
        _ => false,
    }
}

/// The terminals that may come next in `state`.
pub open spec fn expected_in(state: CoordinateState) -> Seq<Seq<char>> {
    match state {
        CoordinateState::Start => seq!["\"@\""@, "Identifier"@],
        CoordinateState::TypeName(_) => seq!["\".\""@],
        CoordinateState::Dot(_) => seq!["Identifier"@],
        CoordinateState::Member(_, _) => seq!["\"(\""@],
        CoordinateState::At(_) => seq!["Identifier"@],
        CoordinateState::Directive(_, _) => seq!["\"(\""@],
        CoordinateState::Open(_, _, _) => seq!["Identifier"@],
        CoordinateState::ArgumentName(_, _, _, _) => seq!["\":\""@],
        CoordinateState::Colon(_, _, _, _) => seq!["\")\""@],
        CoordinateState::Close(_, _, _, _, _) => Seq::empty(),
    }
}

fn expected_names(state: CoordinateState) -> (names: Vec<String>)
    ensures
        names@.map_values(|s: String| s@) == expected_in(state),
{
    let mut names: Vec<String> = Vec::new();
    match state {
        CoordinateState::Start => {
            names.push("\"@\"".to_owned());
            names.push("Identifier".to_owned());
        },
        CoordinateState::TypeName(_) => names.push("\".\"".to_owned()),
        CoordinateState::Dot(_) => names.push("Identifier".to_owned()),
        CoordinateState::Member(_, _) => names.push("\"(\"".to_owned()),
        CoordinateState::At(_) => names.push("Identifier".to_owned()),
        CoordinateState::Directive(_, _) => names.push("\"(\"".to_owned()),
        CoordinateState::Open(_, _, _) => names.push("Identifier".to_owned()),
        CoordinateState::ArgumentName(_, _, _, _) => names.push("\":\"".to_owned()),
        CoordinateState::Colon(_, _, _, _) => names.push("\")\"".to_owned()),
        CoordinateState::Close(_, _, _, _, _) => {},
    }
    proof {
        assert(names@.map_values(|s: String| s@) =~= expected_in(state));
    }
    names
}

/// Where parsing fails.
pub enum CoordinateFailure {
    Lexical { index: int },
    Token { index: int, state: CoordinateState },
    Eof { state: CoordinateState },
}

/// Runs the grammar over `items` from position `i` in `state`: the state in
/// which the input ends, or where it fails.
pub open spec fn run(items: Seq<CoordinateItem>, i: int, state: CoordinateState) -> Result<CoordinateState, CoordinateFailure>
    decreases items.len() - i,
{
    if i < 0 || i >= items.len() {
        if accepting(state) {
            Ok(state)
        } else {
            Err(CoordinateFailure::Eof { state })
        }
    } else {
        match items[i] {
            Err(_) => Err(CoordinateFailure::Lexical { index: i }),
            Ok((_, token, _)) => match next_state(state, kind_of(token), i as usize) {
                Some(next) => run(items, i + 1, next),
                None => Err(CoordinateFailure::Token { index: i, state }),
            },
        }
    }
}

/// The name that the identifier at position `k` stands for.
pub open spec fn name_at(items: Seq<CoordinateItem>, k: usize) -> Name {
    match items[k as int] {
        Ok((start, Token::Identifier(value), end)) => Name { span: Span { start, end }, value },
        _ => Name { span: Span { start: 0, end: 0 }, value: arbitrary() },
    }
}

/// The start of the token at position `k`.
pub open spec fn start_at(items: Seq<CoordinateItem>, k: usize) -> usize {
    match items[k as int] {
        Ok((start, _, _)) => start,
        _ => 0,
    }
}

/// The end of the token at position `k`.
pub open spec fn end_at(items: Seq<CoordinateItem>, k: usize) -> usize {
    match items[k as int] {
        Ok((_, _, end)) => end,
        _ => 0,
    }
}

/// The coordinate that an accepting state stands for.
pub open spec fn coordinate_of(items: Seq<CoordinateItem>, state: CoordinateState) -> SchemaCoordinate {
    match state {
        CoordinateState::TypeName(t) => SchemaCoordinate::Type(TypeCoordinate { name: name_at(items, t) }),
        CoordinateState::Member(t, f) => SchemaCoordinate::Member(
            MemberCoordinate { ty: TypeCoordinate { name: name_at(items, t) }, name: name_at(items, f) },
        ),
        CoordinateState::Directive(a, d) => SchemaCoordinate::Directive(
            DirectiveCoordinate { name: name_at(items, d), span: Span { start: start_at(items, a), end: end_at(items, d) } },
        ),
        CoordinateState::Close(false, t, f, n, _) => SchemaCoordinate::Argument(
            ArgumentCoordinate {
                member: MemberCoordinate { ty: TypeCoordinate { name: name_at(items, t) }, name: name_at(items, f) },
                name: name_at(items, n),
            },
        ),
        CoordinateState::Close(true, a, d, n, _) => SchemaCoordinate::DirectiveArgument(
            DirectiveArgumentCoordinate {
                directive: DirectiveCoordinate { name: name_at(items, d), span: Span { start: start_at(items, a), end: end_at(items, d) } },
                name: name_at(items, n),
            },
        ),
        _ => arbitrary(),
    }
}

/// The end of the last item, 0 where there is none.
pub open spec fn last_end(items: Seq<CoordinateItem>) -> usize {
    if items.len() == 0 {
        0
    } else {
        match items.last() {
            Ok((_, _, end)) => end,
            Err(_) => 0,
        }
    }
}

/// How a failure is reported.
pub open spec fn reports(items: Seq<CoordinateItem>, failure: CoordinateFailure, error: Error) -> bool {
    match failure {
        CoordinateFailure::Lexical { index } => items[index] matches Err(e) && additional_reported(
            e,
            error,
        ),
        CoordinateFailure::Token { index, state } => {
            &&& error matches Error::UnrecognizedToken { token: (l, message, r), expected }
            &&& items[index] matches Ok((start, token, end))
            &&& l == start && r == end
            &&& message@ == lexer::token_message(kind_of(token))
            &&& expected@.map_values(|s: String| s@) == expected_in(state)
        },
        CoordinateFailure::Eof { state } => {
            &&& error matches Error::UnrecognizedEof { location, expected }
            &&& location == last_end(items)
            &&& expected@.map_values(|s: String| s@) == expected_in(state)
        },
    }
}

fn name_of(items: &Vec<CoordinateItem>, k: usize) -> (name: Name)
    requires
        k < items.len(),
        token_kind_at(items@, k) == Some(CoordinateTokenKind::Identifier),
    ensures
        name == name_at(items@, k),
{
    match &items[k] {
        Ok((start, Token::Identifier(value), end)) => Name { span: Span { start: *start, end: *end }, value: value.clone() },
        _ => Name { span: Span { start: 0, end: 0 }, value: String::new() },
    }
}

fn span_of(items: &Vec<CoordinateItem>, a: usize, d: usize) -> (span: Span)
    requires
        a < items.len(),
        d < items.len(),
        items[a as int] is Ok,
        items[d as int] is Ok,
    ensures
        span == (Span { start: start_at(items@, a), end: end_at(items@, d) }),
{
    let start = match &items[a] {
        Ok((start, _, _)) => *start,
        Err(_) => 0,
    };
    let end = match &items[d] {
        Ok((_, _, end)) => *end,
        Err(_) => 0,
    };
    Span { start, end }
}

/// Whether every character of `s` is white space, as `char::is_whitespace`
/// decides it (the Unicode `White_Space` property).
pub open spec fn is_white_space(c: char) -> bool {
    ||| ('\u{9}' <= c && c <= '\u{D}')
    ||| c == ' '
    ||| c == '\u{85}'
    ||| c == '\u{A0}'
    ||| c == '\u{1680}'
    ||| ('\u{2000}' <= c && c <= '\u{200A}')
    ||| c == '\u{2028}'
    ||| c == '\u{2029}'
    ||| c == '\u{202F}'
    ||| c == '\u{205F}'
    ||| c == '\u{3000}'
}

pub fn blank(input: &str) -> (r: bool)
    ensures
        r == forall|i: int| 0 <= i < input@.len() ==> is_white_space(#[trigger] input@[i]),
{
    let mut all_white = true;
    for c in it: input.chars()
        invariant
            it.seq() == input@,
            all_white == forall|i: int| 0 <= i < it.index() ==> is_white_space(#[trigger] input@[i]),
    {
        let white = ('\u{9}' <= c && c <= '\u{D}') || c == ' ' || c == '\u{85}' || c == '\u{A0}'
            || c == '\u{1680}' || ('\u{2000}' <= c && c <= '\u{200A}') || c == '\u{2028}' || c
            == '\u{2029}' || c == '\u{202F}' || c == '\u{205F}' || c == '\u{3000}';
        proof {
            assert(input@[it.index() as int] == c);
        }
        all_white = all_white && white;
    }
    all_white
}

/// Parses a schema coordinate: text that is blank is refused as empty;
/// otherwise the tokens must follow the grammar.
pub fn parse_schema_coordinate(input: &str) -> (r: Result<SchemaCoordinate, Error>)
    requires
        encode_utf8(input@).len() <= usize::MAX,
    ensures
        (forall|i: int| 0 <= i < input@.len() ==> is_white_space(#[trigger] input@[i])) ==> r
            == Err::<SchemaCoordinate, Error>(Error::EmptySchemaCoordinate),
        !(forall|i: int| 0 <= i < input@.len() ==> is_white_space(#[trigger] input@[i])) ==> exists|
            items: Seq<CoordinateItem>,
        |
            #[trigger] lexer::coordinates_lexed(input@, items) && match run(items, 0, CoordinateState::Start) {
                Ok(state) => r == Ok::<SchemaCoordinate, Error>(coordinate_of(items, state)),
                Err(failure) => (r matches Err(error) && reports(items, failure, error)),
            },
{
    if blank(input) {
        return Err(Error::EmptySchemaCoordinate);
    }
    let items = lexer::lex_coordinate(input);
    let ghost seq_items = items@;
    let r = parse_items(&items);
    proof {
        assert(lexer::coordinates_lexed(input@, seq_items));
    }
    r
}

/// Parses the tokens of a schema coordinate.
pub fn parse_items(items: &Vec<CoordinateItem>) -> (r: Result<SchemaCoordinate, Error>)
    ensures
        match run(items@, 0, CoordinateState::Start) {
            Ok(state) => r == Ok::<SchemaCoordinate, Error>(coordinate_of(items@, state)),
            Err(failure) => (r matches Err(error) && reports(items@, failure, error)),
        },
{
    let mut state = CoordinateState::Start;
    let mut i: usize = 0;
    while i < items.len()
        invariant
            i <= items.len(),
            run(items@, 0, CoordinateState::Start) == run(items@, i as int, state),
            forall|k: int| 0 <= k < i ==> (#[trigger] items@[k]) is Ok,
            state_refers_to(items@, i, state),
        decreases items.len() - i,
    {
        match &items[i] {
            Err(error) => {
                return Err(Error::from_additional(error));
            },
            Ok((start, token, end)) => {
                let kind = token.kind();
                let next = match (state, kind) {
                    (CoordinateState::Start, CoordinateTokenKind::Identifier) => Some(CoordinateState::TypeName(i)),
                    (CoordinateState::Start, CoordinateTokenKind::At) => Some(CoordinateState::At(i)),
                    (CoordinateState::TypeName(t), CoordinateTokenKind::Dot) => Some(CoordinateState::Dot(t)),
                    (CoordinateState::Dot(t), CoordinateTokenKind::Identifier) => Some(CoordinateState::Member(t, i)),
                    (CoordinateState::Member(t, f), CoordinateTokenKind::OpenParen) => Some(CoordinateState::Open(false, t, f)),
                    (CoordinateState::At(a), CoordinateTokenKind::Identifier) => Some(CoordinateState::Directive(a, i)),
                    (CoordinateState::Directive(a, d), CoordinateTokenKind::OpenParen) => Some(CoordinateState::Open(true, a, d)),
                    (CoordinateState::Open(dir, x, y), CoordinateTokenKind::Identifier) => Some(CoordinateState::ArgumentName(dir, x, y, i)),
                    (CoordinateState::ArgumentName(dir, x, y, n), CoordinateTokenKind::Colon) => Some(CoordinateState::Colon(dir, x, y, n)),
                    (CoordinateState::Colon(dir, x, y, n), CoordinateTokenKind::CloseParen) => Some(CoordinateState::Close(dir, x, y, n, i)),
                    _ => None,
                };
                match next {
                    Some(next) => {
                        state = next;
                    },
                    None => {
                        let expected = expected_names(state);
                        return Err(Error::UnrecognizedToken { token: (*start, token.to_string(), *end), expected });
                    },
                }
            },
        }
        i = i + 1;
    }
    if !is_accepting(state) {
        let location = if items.len() == 0 {
            0
        } else {
            match &items[items.len() - 1] {
                Ok((_, _, end)) => *end,
                Err(_) => 0,
            }
        };
        let expected = expected_names(state);
        return Err(Error::UnrecognizedEof { location, expected });
    }
    Ok(build(items, state))
}

/// The kind of the token at position `k`, `None` for an error.
pub open spec fn token_kind_at(items: Seq<CoordinateItem>, k: usize) -> Option<CoordinateTokenKind> {
    match items[k as int] {
        Ok((_, t, _)) => Some(kind_of(t)),
        Err(_) => None,
    }
}

/// The positions that `state` holds are before `i` and hold tokens of the
/// kinds that the grammar put there.
pub open spec fn state_refers_to(items: Seq<CoordinateItem>, i: usize, state: CoordinateState) -> bool {
    let ident = |k: usize| k < i && token_kind_at(items, k) == Some(CoordinateTokenKind::Identifier);
    let at = |k: usize| k < i && token_kind_at(items, k) == Some(CoordinateTokenKind::At);
    match state {
        CoordinateState::Start => true,
        CoordinateState::TypeName(t) => ident(t),
        CoordinateState::Dot(t) => ident(t),
        CoordinateState::Member(t, f) => ident(t) && ident(f),
        CoordinateState::At(a) => at(a),
        CoordinateState::Directive(a, d) => at(a) && ident(d),
        CoordinateState::Open(dir, x, y) => (if dir { at(x) } else { ident(x) }) && ident(y),
        CoordinateState::ArgumentName(dir, x, y, n) => (if dir { at(x) } else { ident(x) }) && ident(y) && ident(n),
        CoordinateState::Colon(dir, x, y, n) => (if dir { at(x) } else { ident(x) }) && ident(y) && ident(n),
        CoordinateState::Close(dir, x, y, n, _) => (if dir { at(x) } else { ident(x) }) && ident(y) && ident(n),
    }
}

fn is_accepting(state: CoordinateState) -> (r: bool)
    ensures
        r == accepting(state),
{
    match state {
        CoordinateState::TypeName(_) => true,
        CoordinateState::Member(_, _) => true,
        CoordinateState::Directive(_, _) => true,
        CoordinateState::Close(_, _, _, _, _) => true,
        _ => false,
    }
}

fn build(items: &Vec<CoordinateItem>, state: CoordinateState) -> (coordinate: SchemaCoordinate)
    requires
        accepting(state),
        state_refers_to(items@, items.len() as usize, state),
    ensures
        coordinate == coordinate_of(items@, state),
{
    match state {
        CoordinateState::TypeName(t) => SchemaCoordinate::Type(TypeCoordinate { name: name_of(items, t) }),
        CoordinateState::Member(t, f) => SchemaCoordinate::Member(
            MemberCoordinate { ty: TypeCoordinate { name: name_of(items, t) }, name: name_of(items, f) },
        ),
        CoordinateState::Directive(a, d) => SchemaCoordinate::Directive(
            DirectiveCoordinate { name: name_of(items, d), span: span_of(items, a, d) },
        ),
        CoordinateState::Close(dir, x, y, n, _) => {
            if dir {
                SchemaCoordinate::DirectiveArgument(
                    DirectiveArgumentCoordinate {
                        directive: DirectiveCoordinate { name: name_of(items, y), span: span_of(items, x, y) },
                        name: name_of(items, n),
                    },
                )
            } else {
                SchemaCoordinate::Argument(
                    ArgumentCoordinate {
                        member: MemberCoordinate { ty: TypeCoordinate { name: name_of(items, x) }, name: name_of(items, y) },
                        name: name_of(items, n),
                    },
                )
            }
        },
        _ => SchemaCoordinate::Type(TypeCoordinate { name: Name { span: Span { start: 0, end: 0 }, value: String::new() } }),
    }
}

} // verus!

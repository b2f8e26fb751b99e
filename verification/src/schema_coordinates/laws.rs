//! Printing a coordinate and parsing the text back gives the same coordinate.
use vstd::prelude::*;

use super::coordinates::{coordinate_text, SchemaCoordinate};
use super::lexer::{coordinate_step, coordinate_steps, coordinates_lexed, spanned_coordinate, CoordinateItem, CoordinateTokenKind, Token, kind_of};
use super::parser::{coordinate_of, run, CoordinateState, name_at};
use crate::lexer::tokens;

verus! {

/// `n` is a GraphQL name: `[_A-Za-z][_0-9A-Za-z]*`.
pub open spec fn is_graphql_name(n: Seq<char>) -> bool {
    &&& n.len() > 0
    &&& tokens::is_name_start(n[0])
    &&& forall|i: int| 0 <= i < n.len() ==> tokens::is_name_continue(#[trigger] n[i])
}

/// Every name of the coordinate is a GraphQL name.
pub open spec fn names_valid(c: SchemaCoordinate) -> bool {
    match c {
        SchemaCoordinate::Type(t) => is_graphql_name(t.name.value@),
        SchemaCoordinate::Member(m) => is_graphql_name(m.ty.name.value@) && is_graphql_name(m.name.value@),
        SchemaCoordinate::Argument(a) => is_graphql_name(a.member.ty.name.value@) && is_graphql_name(
            a.member.name.value@,
        ) && is_graphql_name(a.name.value@),
        SchemaCoordinate::Directive(d) => is_graphql_name(d.name.value@),
        SchemaCoordinate::DirectiveArgument(d) => is_graphql_name(d.directive.name.value@)
            && is_graphql_name(d.name.value@),
    }
}

/// Two coordinates of the same kind with the same names (their spans aside).
pub open spec fn same_coordinate(a: SchemaCoordinate, b: SchemaCoordinate) -> bool {
    match (a, b) {
        (SchemaCoordinate::Type(x), SchemaCoordinate::Type(y)) => x.name.value@ == y.name.value@,
        (SchemaCoordinate::Member(x), SchemaCoordinate::Member(y)) => x.ty.name.value@
            == y.ty.name.value@ && x.name.value@ == y.name.value@,
        (SchemaCoordinate::Argument(x), SchemaCoordinate::Argument(y)) => x.member.ty.name.value@
            == y.member.ty.name.value@ && x.member.name.value@ == y.member.name.value@
            && x.name.value@ == y.name.value@,
        (SchemaCoordinate::Directive(x), SchemaCoordinate::Directive(y)) => x.name.value@
            == y.name.value@,
        (SchemaCoordinate::DirectiveArgument(x), SchemaCoordinate::DirectiveArgument(y)) => x.directive.name.value@
            == y.directive.name.value@ && x.name.value@ == y.name.value@,
        _ => false,
    }
}

/// A run of name characters that ends where `s` ends or a character that
/// may not continue a name stands.
proof fn lemma_name_run(s: Seq<char>, p: int, k: int)
    requires
        0 <= p <= p + k <= s.len(),
        forall|i: int| p <= i < p + k ==> tokens::is_name_continue(#[trigger] s[i]),
        p + k == s.len() || !tokens::is_name_continue(s[p + k]),
    ensures
        tokens::name_continue_run(s, p) == k,
    decreases k,
{
    if k > 0 {
        lemma_name_run(s, p + 1, k - 1);
    }
}

/// One step of lexing at a position that holds no ignored character.
proof fn lemma_steps_unfold(s: Seq<char>, p: int)
    requires
        0 <= p < s.len(),
        !tokens::is_ignored_char(s[p]),
        s[p] != '#',
    ensures
        coordinate_steps(s, p) == seq![(p, coordinate_step(s, p))] + coordinate_steps(
            s,
            p + match coordinate_step(s, p) {
                Some((_, n)) => n as int,
                None => 1,
            },
        ),
{
}

/// A name at `p` lexes as an identifier of its length.
proof fn lemma_name_step(s: Seq<char>, p: int, n: Seq<char>)
    requires
        0 <= p,
        p + n.len() <= s.len(),
        s.subrange(p, p + n.len()) == n,
        is_graphql_name(n),
        p + n.len() == s.len() || !tokens::is_name_continue(s[p + n.len()]),
    ensures
        !tokens::is_ignored_char(s[p]),
        s[p] != '#',
        coordinate_step(s, p) == Some((CoordinateTokenKind::Identifier, n.len())),
{
    assert(s[p] == n[0]);
    assert forall|i: int| p + 1 <= i < p + n.len() implies tokens::is_name_continue(#[trigger] s[i]) by {
        assert(s[i] == n[i - p]);
    }
    lemma_name_run(s, p + 1, n.len() - 1);
}

/// The end of the input: no more steps.
proof fn lemma_steps_end(s: Seq<char>)
    ensures
        coordinate_steps(s, s.len() as int) == Seq::<(int, Option<(CoordinateTokenKind, nat)>)>::empty(),
{
}

/// The item at position `k` is an identifier whose text is `n`.
pub open spec fn identifier_item(items: Seq<CoordinateItem>, k: int, n: Seq<char>) -> bool {
    &&& items[k] matches Ok((_, token, _))
    &&& token matches Token::Identifier(value)
    &&& value@ == n
}

/// What lexing hands out at a step that found an identifier of `n`.
proof fn lemma_identifier_item(s: Seq<char>, items: Seq<CoordinateItem>, k: int, q: int, n: Seq<char>)
    requires
        coordinates_lexed(s, items),
        0 <= k < items.len(),
        coordinate_steps(s, 0)[k] == (q, Some((CoordinateTokenKind::Identifier, n.len()))),
        s.subrange(q, q + n.len()) == n,
    ensures
        identifier_item(items, k, n),
{
    assert(spanned_coordinate(s, coordinate_steps(s, 0)[k].0, coordinate_steps(s, 0)[k].1, items[k]));
}

/// What lexing hands out at a step that found a token of `kind`.
proof fn lemma_kind_item(s: Seq<char>, items: Seq<CoordinateItem>, k: int, q: int, kind: CoordinateTokenKind)
    requires
        coordinates_lexed(s, items),
        0 <= k < items.len(),
        coordinate_steps(s, 0)[k] == (q, Some((kind, 1nat))),
    ensures
        items[k] matches Ok((_, token, _)) && kind_of(token) == kind,
{
    assert(spanned_coordinate(s, coordinate_steps(s, 0)[k].0, coordinate_steps(s, 0)[k].1, items[k]));
}

/// The text of a type coordinate parses back to it.
proof fn lemma_type_round_trip(n: Seq<char>, items: Seq<CoordinateItem>)
    requires
        is_graphql_name(n),
        coordinates_lexed(n, items),
    ensures
        run(items, 0, CoordinateState::Start) == Ok::<CoordinateState, super::parser::CoordinateFailure>(CoordinateState::TypeName(0)),
        name_at(items, 0).value@ == n,
{
    let s = n;
    assert(s.subrange(0, n.len() as int) =~= n);
    lemma_name_step(s, 0, n);
    lemma_steps_unfold(s, 0);
    lemma_steps_end(s);
    let steps = coordinate_steps(s, 0);
    assert(steps =~= seq![(0int, Some((CoordinateTokenKind::Identifier, n.len())))]);
    lemma_identifier_item(s, items, 0, 0, n);
    assert(run(items, 1, CoordinateState::TypeName(0)) == Ok::<CoordinateState, super::parser::CoordinateFailure>(CoordinateState::TypeName(0)));
}

/// The text of a directive coordinate parses back to it.
proof fn lemma_directive_round_trip(n: Seq<char>, items: Seq<CoordinateItem>)
    requires
        is_graphql_name(n),
        coordinates_lexed("@"@ + n, items),
    ensures
        run(items, 0, CoordinateState::Start) == Ok::<CoordinateState, super::parser::CoordinateFailure>(CoordinateState::Directive(0, 1)),
        name_at(items, 1).value@ == n,
{
    reveal_strlit("@");
    let s = "@"@ + n;
    assert(s[0] == '@');
    assert(s.subrange(1, 1 + n.len() as int) =~= n);
    lemma_name_step(s, 1, n);
    lemma_steps_unfold(s, 0);
    lemma_steps_unfold(s, 1);
    lemma_steps_end(s);
    let steps = coordinate_steps(s, 0);
    assert(steps =~= seq![(0int, Some((CoordinateTokenKind::At, 1nat))), (1int, Some((CoordinateTokenKind::Identifier, n.len())))]);
    lemma_kind_item(s, items, 0, 0, CoordinateTokenKind::At);
    lemma_identifier_item(s, items, 1, 1, n);
    assert(items.len() == 2);
    assert(run(items, 2, CoordinateState::Directive(0, 1)) == Ok::<CoordinateState, super::parser::CoordinateFailure>(CoordinateState::Directive(0, 1)));
    assert(run(items, 1, CoordinateState::At(0)) == run(items, 2, CoordinateState::Directive(0, 1)));
    assert(run(items, 0, CoordinateState::Start) == run(items, 1, CoordinateState::At(0)));
}

/// The text of a member coordinate parses back to it.
proof fn lemma_member_round_trip(t: Seq<char>, f: Seq<char>, items: Seq<CoordinateItem>)
    requires
        is_graphql_name(t),
        is_graphql_name(f),
        coordinates_lexed(t + "."@ + f, items),
    ensures
        run(items, 0, CoordinateState::Start) == Ok::<CoordinateState, super::parser::CoordinateFailure>(CoordinateState::Member(0, 2)),
        name_at(items, 0).value@ == t,
        name_at(items, 2).value@ == f,
{
    reveal_strlit(".");
    let s = t + "."@ + f;
    let d = t.len() as int;
    assert(s[d] == '.');
    assert(s.subrange(0, d) =~= t);
    assert(s.subrange(d + 1, d + 1 + f.len() as int) =~= f);
    lemma_name_step(s, 0, t);
    lemma_name_step(s, d + 1, f);
    lemma_steps_unfold(s, 0);
    lemma_steps_unfold(s, d);
    lemma_steps_unfold(s, d + 1);
    lemma_steps_end(s);
    let steps = coordinate_steps(s, 0);
    assert(steps =~= seq![
        (0int, Some((CoordinateTokenKind::Identifier, t.len()))),
        (d, Some((CoordinateTokenKind::Dot, 1nat))),
        (d + 1, Some((CoordinateTokenKind::Identifier, f.len()))),
    ]);
    lemma_identifier_item(s, items, 0, 0, t);
    lemma_kind_item(s, items, 1, d, CoordinateTokenKind::Dot);
    lemma_identifier_item(s, items, 2, d + 1, f);
    assert(items.len() == 3);
    assert(run(items, 3, CoordinateState::Member(0, 2)) == Ok::<CoordinateState, super::parser::CoordinateFailure>(CoordinateState::Member(0, 2)));
    assert(run(items, 2, CoordinateState::Dot(0)) == run(items, 3, CoordinateState::Member(0, 2)));
    assert(run(items, 1, CoordinateState::TypeName(0)) == run(items, 2, CoordinateState::Dot(0)));
    assert(run(items, 0, CoordinateState::Start) == run(items, 1, CoordinateState::TypeName(0)));
}

/// The text of an argument coordinate parses back to it.
proof fn lemma_argument_round_trip(t: Seq<char>, f: Seq<char>, a: Seq<char>, items: Seq<CoordinateItem>)
    requires
        is_graphql_name(t),
        is_graphql_name(f),
        is_graphql_name(a),
        coordinates_lexed(t + "."@ + f + "("@ + a + ":)"@, items),
    ensures
        run(items, 0, CoordinateState::Start) == Ok::<CoordinateState, super::parser::CoordinateFailure>(
            CoordinateState::Close(false, 0, 2, 4, 6),
        ),
        name_at(items, 0).value@ == t,
        name_at(items, 2).value@ == f,
        name_at(items, 4).value@ == a,
{
    reveal_strlit(".");
    reveal_strlit("(");
    reveal_strlit(":)");
    let s = t + "."@ + f + "("@ + a + ":)"@;
    let d = t.len() as int;
    let e = d + 1 + f.len() as int;
    let g = e + 1 + a.len() as int;
    assert(s.len() == g + 2);
    assert(s[d] == '.');
    assert(s[e] == '(');
    assert(s[g] == ':');
    assert(s[g + 1] == ')');
    assert(s.subrange(0, d) =~= t);
    assert(s.subrange(d + 1, e) =~= f);
    assert(s.subrange(e + 1, g) =~= a);
    lemma_name_step(s, 0, t);
    lemma_name_step(s, d + 1, f);
    lemma_name_step(s, e + 1, a);
    lemma_steps_unfold(s, 0);
    lemma_steps_unfold(s, d);
    lemma_steps_unfold(s, d + 1);
    lemma_steps_unfold(s, e);
    lemma_steps_unfold(s, e + 1);
    lemma_steps_unfold(s, g);
    lemma_steps_unfold(s, g + 1);
    lemma_steps_end(s);
    let steps = coordinate_steps(s, 0);
    assert(steps =~= seq![
        (0int, Some((CoordinateTokenKind::Identifier, t.len()))),
        (d, Some((CoordinateTokenKind::Dot, 1nat))),
        (d + 1, Some((CoordinateTokenKind::Identifier, f.len()))),
        (e, Some((CoordinateTokenKind::OpenParen, 1nat))),
        (e + 1, Some((CoordinateTokenKind::Identifier, a.len()))),
        (g, Some((CoordinateTokenKind::Colon, 1nat))),
        (g + 1, Some((CoordinateTokenKind::CloseParen, 1nat))),
    ]);
    lemma_identifier_item(s, items, 0, 0, t);
    lemma_kind_item(s, items, 1, d, CoordinateTokenKind::Dot);
    lemma_identifier_item(s, items, 2, d + 1, f);
    lemma_kind_item(s, items, 3, e, CoordinateTokenKind::OpenParen);
    lemma_identifier_item(s, items, 4, e + 1, a);
    lemma_kind_item(s, items, 5, g, CoordinateTokenKind::Colon);
    lemma_kind_item(s, items, 6, g + 1, CoordinateTokenKind::CloseParen);
    assert(items.len() == 7);
    let end = CoordinateState::Close(false, 0, 2, 4, 6);
    assert(run(items, 7, end) == Ok::<CoordinateState, super::parser::CoordinateFailure>(end));
    assert(run(items, 6, CoordinateState::Colon(false, 0, 2, 4)) == run(items, 7, end));
    assert(run(items, 5, CoordinateState::ArgumentName(false, 0, 2, 4)) == run(items, 6, CoordinateState::Colon(false, 0, 2, 4)));
    assert(run(items, 4, CoordinateState::Open(false, 0, 2)) == run(items, 5, CoordinateState::ArgumentName(false, 0, 2, 4)));
    assert(run(items, 3, CoordinateState::Member(0, 2)) == run(items, 4, CoordinateState::Open(false, 0, 2)));
    assert(run(items, 2, CoordinateState::Dot(0)) == run(items, 3, CoordinateState::Member(0, 2)));
    assert(run(items, 1, CoordinateState::TypeName(0)) == run(items, 2, CoordinateState::Dot(0)));
    assert(run(items, 0, CoordinateState::Start) == run(items, 1, CoordinateState::TypeName(0)));
}

/// The text of a directive argument coordinate parses back to it.
proof fn lemma_directive_argument_round_trip(n: Seq<char>, a: Seq<char>, items: Seq<CoordinateItem>)
    requires
        is_graphql_name(n),
        is_graphql_name(a),
        coordinates_lexed("@"@ + n + "("@ + a + ":)"@, items),
    ensures
        run(items, 0, CoordinateState::Start) == Ok::<CoordinateState, super::parser::CoordinateFailure>(
            CoordinateState::Close(true, 0, 1, 3, 5),
        ),
        name_at(items, 1).value@ == n,
        name_at(items, 3).value@ == a,
{
    reveal_strlit("@");
    reveal_strlit("(");
    reveal_strlit(":)");
    let s = "@"@ + n + "("@ + a + ":)"@;
    let e = 1 + n.len() as int;
    let g = e + 1 + a.len() as int;
    assert(s.len() == g + 2);
    assert(s[0] == '@');
    assert(s[e] == '(');
    assert(s[g] == ':');
    assert(s[g + 1] == ')');
    assert(s.subrange(1, e) =~= n);
    assert(s.subrange(e + 1, g) =~= a);
    lemma_name_step(s, 1, n);
    lemma_name_step(s, e + 1, a);
    lemma_steps_unfold(s, 0);
    lemma_steps_unfold(s, 1);
    lemma_steps_unfold(s, e);
    lemma_steps_unfold(s, e + 1);
    lemma_steps_unfold(s, g);
    lemma_steps_unfold(s, g + 1);
    lemma_steps_end(s);
    let steps = coordinate_steps(s, 0);
    assert(steps =~= seq![
        (0int, Some((CoordinateTokenKind::At, 1nat))),
        (1int, Some((CoordinateTokenKind::Identifier, n.len()))),
        (e, Some((CoordinateTokenKind::OpenParen, 1nat))),
        (e + 1, Some((CoordinateTokenKind::Identifier, a.len()))),
        (g, Some((CoordinateTokenKind::Colon, 1nat))),
        (g + 1, Some((CoordinateTokenKind::CloseParen, 1nat))),
    ]);
    lemma_kind_item(s, items, 0, 0, CoordinateTokenKind::At);
    lemma_identifier_item(s, items, 1, 1, n);
    lemma_kind_item(s, items, 2, e, CoordinateTokenKind::OpenParen);
    lemma_identifier_item(s, items, 3, e + 1, a);
    lemma_kind_item(s, items, 4, g, CoordinateTokenKind::Colon);
    lemma_kind_item(s, items, 5, g + 1, CoordinateTokenKind::CloseParen);
    assert(items.len() == 6);
    let end = CoordinateState::Close(true, 0, 1, 3, 5);
    assert(run(items, 6, end) == Ok::<CoordinateState, super::parser::CoordinateFailure>(end));
    assert(run(items, 5, CoordinateState::Colon(true, 0, 1, 3)) == run(items, 6, end));
    assert(run(items, 4, CoordinateState::ArgumentName(true, 0, 1, 3)) == run(items, 5, CoordinateState::Colon(true, 0, 1, 3)));
    assert(run(items, 3, CoordinateState::Open(true, 0, 1)) == run(items, 4, CoordinateState::ArgumentName(true, 0, 1, 3)));
    assert(run(items, 2, CoordinateState::Directive(0, 1)) == run(items, 3, CoordinateState::Open(true, 0, 1)));
    assert(run(items, 1, CoordinateState::At(0)) == run(items, 2, CoordinateState::Directive(0, 1)));
    assert(run(items, 0, CoordinateState::Start) == run(items, 1, CoordinateState::At(0)));
}

/// Printing a coordinate whose names are GraphQL names and parsing the text
/// back gives a coordinate of the same kind with the same names: for the
/// tokens that lexing the printed text hands out, the grammar accepts, and
/// the coordinate it builds is the one printed (spans aside).
pub proof fn law_coordinate_round_trip(c: SchemaCoordinate, items: Seq<CoordinateItem>)
    requires
        names_valid(c),
        coordinates_lexed(coordinate_text(c), items),
    ensures
        run(items, 0, CoordinateState::Start) is Ok,
        same_coordinate(coordinate_of(items, run(items, 0, CoordinateState::Start)->Ok_0), c),
{
    match c {
        SchemaCoordinate::Type(x) => {
            lemma_type_round_trip(x.name.value@, items);
        },
        SchemaCoordinate::Member(x) => {
            lemma_member_round_trip(x.ty.name.value@, x.name.value@, items);
        },
        SchemaCoordinate::Argument(x) => {
            lemma_argument_round_trip(x.member.ty.name.value@, x.member.name.value@, x.name.value@, items);
        },
        SchemaCoordinate::Directive(x) => {
            lemma_directive_round_trip(x.name.value@, items);
        },
        SchemaCoordinate::DirectiveArgument(x) => {
            lemma_directive_argument_round_trip(x.directive.name.value@, x.name.value@, items);
        },
    }
}

} // verus!

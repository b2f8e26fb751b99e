//! Definitions, selections, directives and arguments written out as
//! GraphQL text, each selection of a set on a line of its own, indented.
use vstd::prelude::*;

use super::contents::ExecutableContents;
use super::display::{lemma_value_text_at, value_text_at};
use super::document::ExecutableDocument;
use super::ids::{
    ArgumentId, DirectiveId, ExecutableDefinitionId, FieldSelectionId, FragmentDefinitionId, IdRange,
    OperationDefinitionId, InlineFragmentId, SelectionId,
    StringId, VariableDefinitionId,
};
use super::readers::{arguments_stored, directives_stored, type_text, variables_stored, ExecutableId, Type};
use super::selections::{optional_string_stored, selection_readable};
use super::storage::{ExecutableDefinitionRecord, OperationType, SelectionRecord};
use super::value::values_well_founded;
use super::storage::ValueRecord;
use crate::printing::{prints_in_short_form, use_short_form};
use crate::text::{append, push_char};

verus! {

/// The keyword of an operation type.
pub open spec fn operation_type_text(operation_type: OperationType) -> Seq<char> {
    match operation_type {
        OperationType::Query => "query"@,
        OperationType::Mutation => "mutation"@,
        OperationType::Subscription => "subscription"@,
    }
}

/// `s` with two spaces at the start of each line that is not empty.
pub open spec fn indented(s: Seq<char>) -> Seq<char>
    decreases s.len(),
{
    if s.len() == 0 {
        Seq::empty()
    } else {
        indented(s.drop_last()) + indent_piece(s, s.len() - 1)
    }
}

/// What the character at `i` of `s` becomes once indented.
pub open spec fn indent_piece(s: Seq<char>, i: int) -> Seq<char> {
    if s[i] == '\n' {
        seq!['\n']
    } else if i == 0 || s[i - 1] == '\n' {
        seq![' ', ' ', s[i]]
    } else {
        seq![s[i]]
    }
}

/// The index after the last identifier of a range that is not empty; 0 for
/// an empty one.
pub open spec fn nested_end(range: IdRange<SelectionId>) -> nat {
    if range.count() > 0 {
        range.end.index()
    } else {
        0
    }
}

/// The text of `id` where it names one: `prefix` and the text.
pub open spec fn optional_name_text(c: ExecutableContents, id: Option<StringId>, prefix: Seq<char>) -> Seq<char> {
    match id {
        Some(s) => prefix + c.text(s),
        None => Seq::empty(),
    }
}

/// The argument at `k` as `name: value`.
pub open spec fn argument_text(c: ExecutableContents, k: int) -> Seq<char> {
    let a = c.arguments[k];
    c.text(a.name) + seq![':', ' '] + value_text_at(c, a.value.index() as int)
}

/// The arguments from `start` up to `k`, separated by commas.
pub open spec fn argument_list_text(c: ExecutableContents, start: int, k: int) -> Seq<char>
    decreases k - start,
{
    if k <= start {
        Seq::empty()
    } else {
        argument_list_text(c, start, k - 1) + (if k - 1 > start {
            seq![',', ' ']
        } else {
            Seq::empty()
        }) + argument_text(c, k - 1)
    }
}

/// The arguments of `range` in parentheses; nothing where there are none.
pub open spec fn arguments_text(c: ExecutableContents, range: IdRange<ArgumentId>) -> Seq<char> {
    if range.count() == 0 {
        Seq::empty()
    } else {
        seq!['('] + argument_list_text(c, range.start.index() as int, range.end.index() as int)
            + seq![')']
    }
}

/// The directive at `k` as `@name(arguments)`.
pub open spec fn directive_text(c: ExecutableContents, k: int) -> Seq<char> {
    let d = c.directives[k];
    seq!['@'] + c.text(d.name) + arguments_text(c, d.arguments)
}

/// The directives from `start` up to `k`, each after a space.
pub open spec fn directive_list_text(c: ExecutableContents, start: int, k: int) -> Seq<char>
    decreases k - start,
{
    if k <= start {
        Seq::empty()
    } else {
        directive_list_text(c, start, k - 1) + seq![' '] + directive_text(c, k - 1)
    }
}

/// The directives of `range`, each after a space.
pub open spec fn directives_text(c: ExecutableContents, range: IdRange<DirectiveId>) -> Seq<char> {
    if range.count() == 0 {
        Seq::empty()
    } else {
        directive_list_text(c, range.start.index() as int, range.end.index() as int)
    }
}

/// The variable definition at `k` as `$name: Type = default @directives`.
pub open spec fn variable_text(c: ExecutableContents, k: int) -> Seq<char> {
    let v = c.variables[k];
    let ty = c.types[v.ty.index() as int];
    seq!['$'] + c.text(v.name) + seq![':', ' '] + type_text(c.text(ty.name), ty.wrappers@) + (
    match v.default_value {
        Some(d) => seq![' ', '=', ' '] + value_text_at(c, d.index() as int),
        None => Seq::empty(),
    }) + directives_text(c, v.directives)
}

/// The variable definitions from `start` up to `k`, separated by commas.
pub open spec fn variable_list_text(c: ExecutableContents, start: int, k: int) -> Seq<char>
    decreases k - start,
{
    if k <= start {
        Seq::empty()
    } else {
        variable_list_text(c, start, k - 1) + (if k - 1 > start {
            seq![',', ' ']
        } else {
            Seq::empty()
        }) + variable_text(c, k - 1)
    }
}

/// The variable definitions of `range` in parentheses; nothing where there
/// are none.
pub open spec fn variables_text(c: ExecutableContents, range: IdRange<VariableDefinitionId>) -> Seq<char> {
    if range.count() == 0 {
        Seq::empty()
    } else {
        seq!['('] + variable_list_text(c, range.start.index() as int, range.end.index() as int)
            + seq![')']
    }
}

/// The selection at `s`.  A selection whose own selections are not all
/// stored before it is left out.
pub open spec fn selection_text(c: ExecutableContents, s: int) -> Seq<char>
    decreases s, 2int, 0int,
{
    if s < 0 || s >= c.selections.len() {
        Seq::empty()
    } else {
        match c.selections[s] {
            SelectionRecord::Field(id) => if id.index() < c.field_selections.len() && nested_end(
                c.field_selections[id.index() as int].selection_set,
            ) <= s {
                field_text(c, id.index() as int)
            } else {
                Seq::empty()
            },
            SelectionRecord::InlineFragment(id) => if id.index() < c.inline_fragments.len()
                && nested_end(c.inline_fragments[id.index() as int].selection_set) <= s {
                inline_fragment_text(c, id.index() as int)
            } else {
                Seq::empty()
            },
            SelectionRecord::FragmentSpread(id) => if id.index() < c.fragment_spreads.len() {
                fragment_spread_text(c, id.index() as int)
            } else {
                Seq::empty()
            },
        }
    }
}

/// The field at `f` as `alias: name(arguments) @directives { ... }`.
pub open spec fn field_text(c: ExecutableContents, f: int) -> Seq<char>
    decreases nested_end(c.field_selections[f].selection_set), 1int, 0int,
{
    let field = c.field_selections[f];
    optional_name_text(c, field.alias, Seq::empty()) + (if field.alias is Some {
        seq![':', ' ']
    } else {
        Seq::empty()
    }) + c.text(field.name) + arguments_text(c, field.arguments) + directives_text(
        c,
        field.directives,
    ) + (if field.selection_set.count() != 0 {
        seq![' ']
    } else {
        Seq::empty()
    }) + selection_set_text(c, field.selection_set)
}

/// The inline fragment at `i` as `... on Type @directives { ... }`.
pub open spec fn inline_fragment_text(c: ExecutableContents, i: int) -> Seq<char>
    decreases nested_end(c.inline_fragments[i].selection_set), 1int, 0int,
{
    let fragment = c.inline_fragments[i];
    seq!['.', '.', '.'] + optional_name_text(c, fragment.type_condition, " on "@) + directives_text(
        c,
        fragment.directives,
    ) + seq![' '] + selection_set_text(c, fragment.selection_set)
}

/// The fragment spread at `i` as `... Name @directives`.
pub open spec fn fragment_spread_text(c: ExecutableContents, i: int) -> Seq<char> {
    let spread = c.fragment_spreads[i];
    seq!['.', '.', '.', ' '] + c.text(spread.fragment_name) + directives_text(c, spread.directives)
}

/// The selections of `range` between braces, each on a line of its own and
/// indented; nothing where there are none.
pub open spec fn selection_set_text(c: ExecutableContents, range: IdRange<SelectionId>) -> Seq<char>
    decreases nested_end(range), 0int, 1int,
{
    if range.count() == 0 {
        Seq::empty()
    } else {
        seq!['{', '\n'] + selection_list_text(
            c,
            range.start.index() as int,
            range.end.index() as int,
        ) + seq!['}']
    }
}

/// The selections from `start` up to `k`, each indented and ended by a
/// newline.
pub open spec fn selection_list_text(c: ExecutableContents, start: int, k: int) -> Seq<char>
    decreases k, 0int, 0int,
{
    if k <= start || start < 0 {
        Seq::empty()
    } else {
        selection_list_text(c, start, k - 1) + indented(selection_text(c, k - 1).push('\n'))
    }
}

/// Whether every selection of `range` is stored.
pub open spec fn selections_in_bounds(c: ExecutableContents, range: IdRange<SelectionId>) -> bool {
    range.count() > 0 ==> range.end.index() <= c.selections.len()
}

pub open spec fn argument_displayable(c: ExecutableContents, k: int) -> bool {
    &&& c.arguments[k].name.index() < c.strings.len()
    &&& c.arguments[k].value.index() < c.values.len()
}

pub open spec fn directive_displayable(c: ExecutableContents, k: int) -> bool {
    &&& c.directives[k].name.index() < c.strings.len()
    &&& arguments_stored(c, c.directives[k].arguments)
}

pub open spec fn variable_displayable(c: ExecutableContents, k: int) -> bool {
    let v = c.variables[k];
    &&& v.name.index() < c.strings.len()
    &&& v.ty.readable(c)
    &&& (v.default_value matches Some(d) ==> d.index() < c.values.len())
    &&& directives_stored(c, v.directives)
}

pub open spec fn field_displayable(c: ExecutableContents, k: int) -> bool {
    let f = c.field_selections[k];
    &&& optional_string_stored(c, f.alias)
    &&& f.name.index() < c.strings.len()
    &&& arguments_stored(c, f.arguments)
    &&& directives_stored(c, f.directives)
    &&& selections_in_bounds(c, f.selection_set)
}

pub open spec fn inline_fragment_displayable(c: ExecutableContents, k: int) -> bool {
    let f = c.inline_fragments[k];
    &&& optional_string_stored(c, f.type_condition)
    &&& directives_stored(c, f.directives)
    &&& selections_in_bounds(c, f.selection_set)
}

pub open spec fn fragment_spread_displayable(c: ExecutableContents, k: int) -> bool {
    let f = c.fragment_spreads[k];
    &&& f.fragment_name.index() < c.strings.len()
    &&& directives_stored(c, f.directives)
}

/// The selection at `s` points to a stored record, and the selections of
/// that record are stored before `s`.
pub open spec fn selection_placed(c: ExecutableContents, s: int) -> bool {
    &&& selection_readable(c, s)
    &&& match c.selections[s] {
        SelectionRecord::Field(id) => nested_end(c.field_selections[id.index() as int].selection_set)
            <= s,
        SelectionRecord::InlineFragment(id) => nested_end(
            c.inline_fragments[id.index() as int].selection_set,
        ) <= s,
        SelectionRecord::FragmentSpread(_) => true,
    }
}

pub open spec fn operation_displayable(c: ExecutableContents, k: int) -> bool {
    let o = c.operations[k];
    &&& optional_string_stored(c, o.name)
    &&& variables_stored(c, o.variable_definitions)
    &&& directives_stored(c, o.directives)
    &&& selections_in_bounds(c, o.selection_set)
}

pub open spec fn fragment_displayable(c: ExecutableContents, k: int) -> bool {
    let f = c.fragments[k];
    &&& f.name.index() < c.strings.len()
    &&& f.type_condition.index() < c.strings.len()
    &&& directives_stored(c, f.directives)
    &&& selections_in_bounds(c, f.selection_set)
}

/// Everything that writing a document out follows is stored, values refer
/// back, and every selection set is stored before what it belongs to, as the
/// writer stores them.
pub open spec fn displayable(c: ExecutableContents) -> bool {
    &&& c.wf()
    &&& values_well_founded(c)
    &&& forall|k: int| 0 <= k < c.arguments.len() ==> #[trigger] argument_displayable(c, k)
    &&& forall|k: int| 0 <= k < c.directives.len() ==> #[trigger] directive_displayable(c, k)
    &&& forall|k: int| 0 <= k < c.variables.len() ==> #[trigger] variable_displayable(c, k)
    &&& forall|k: int| 0 <= k < c.field_selections.len() ==> #[trigger] field_displayable(c, k)
    &&& forall|k: int|
        0 <= k < c.inline_fragments.len() ==> #[trigger] inline_fragment_displayable(c, k)
    &&& forall|k: int|
        0 <= k < c.fragment_spreads.len() ==> #[trigger] fragment_spread_displayable(c, k)
    &&& forall|k: int| 0 <= k < c.selections.len() ==> #[trigger] selection_placed(c, k)
    &&& forall|k: int| 0 <= k < c.operations.len() ==> #[trigger] operation_displayable(c, k)
    &&& forall|k: int| 0 <= k < c.fragments.len() ==> #[trigger] fragment_displayable(c, k)
}

/// Appends `s` indented; see [`indented`].
pub(crate) fn append_indented(text: &mut String, s: &str)
    ensures
        final(text)@ == old(text)@ + indented(s@),
{
    let ghost start = text@;
    let mut line_start = true;
    let ghost mut i: int = 0;
    for c in it: s.chars()
        invariant
            it.seq() == s@,
            i == it.index(),
            line_start == (i == 0 || s@[i - 1] == '\n'),
            text@ == start + indented(s@.take(i as int)),
    {
        proof {
            let t = s@.take(i + 1);
            assert(t.drop_last() =~= s@.take(i as int));
            assert(t[i as int] == s@[i as int]);
            if i > 0 {
                assert(t[i - 1] == s@[i - 1]);
            }
            assert(indent_piece(t, i as int) == indent_piece(s@, i as int));
        }
        if c == '\n' {
            push_char(text, '\n');
            line_start = true;
        } else {
            if line_start {
                push_char(text, ' ');
                push_char(text, ' ');
            }
            push_char(text, c);
            line_start = false;
        }
        proof {
            assert(start + indented(s@.take(i + 1)) =~= start + indented(s@.take(i as int)) + indent_piece(s@, i as int));
            i = i + 1;
        }
    }
    proof {
        assert(s@.take(s@.len() as int) =~= s@);
    }
}

pub(crate) fn write_argument(document: &ExecutableDocument, text: &mut String, id: ArgumentId)
    requires
        displayable(document@),
        id.index() < document@.arguments.len(),
    ensures
        final(text)@ == old(text)@ + argument_text(document@, id.index() as int),
{
    let record = document.argument(id);
    proof {
        assert(argument_displayable(document@, id.index() as int));
    }
    append(text, document.string(record.name));
    push_char(text, ':');
    push_char(text, ' ');
    let value = document.read_value(record.value);
    proof {
        lemma_value_text_at(document@, record.value.index(), value);
    }
    let written = value.to_string();
    append(text, written.as_str());
    proof {
        assert(final(text)@ =~= old(text)@ + argument_text(document@, id.index() as int));
    }
}

pub(crate) fn write_arguments(document: &ExecutableDocument, text: &mut String, range: IdRange<ArgumentId>)
    requires
        displayable(document@),
        arguments_stored(document@, range),
    ensures
        final(text)@ == old(text)@ + arguments_text(document@, range),
{
    if range.len() == 0 {
        proof {
            assert(old(text)@ + arguments_text(document@, range) =~= old(text)@);
        }
        return;
    }
    let ghost c = document@;
    let ghost first = range.start.index() as int;
    let ghost base = text@;
    push_char(text, '(');
    let ids = range.ids();
    let mut j: usize = 0;
    while j < ids.len()
        invariant
            displayable(c),
            c == document@,
            arguments_stored(c, range),
            range.count() > 0,
            first == range.start.index(),
            ids.len() == range.count(),
            forall|m: int| 0 <= m < ids.len() ==> (#[trigger] ids[m]).index() == first + m,
            j <= ids.len(),
            text@ == base.push('(') + argument_list_text(c, first, first + j),
        decreases ids.len() - j,
    {
        if j > 0 {
            push_char(text, ',');
            push_char(text, ' ');
        }
        write_argument(document, text, ids[j]);
        proof {
            assert(text@ =~= base.push('(') + argument_list_text(c, first, first + j + 1));
        }
        j = j + 1;
    }
    push_char(text, ')');
    proof {
        assert(final(text)@ =~= old(text)@ + arguments_text(c, range));
    }
}

pub(crate) fn write_directive(document: &ExecutableDocument, text: &mut String, id: DirectiveId)
    requires
        displayable(document@),
        id.index() < document@.directives.len(),
    ensures
        final(text)@ == old(text)@ + directive_text(document@, id.index() as int),
{
    let record = document.directive(id);
    proof {
        assert(directive_displayable(document@, id.index() as int));
    }
    push_char(text, '@');
    append(text, document.string(record.name));
    write_arguments(document, text, record.arguments);
    proof {
        assert(final(text)@ =~= old(text)@ + directive_text(document@, id.index() as int));
    }
}

pub(crate) fn write_directives(document: &ExecutableDocument, text: &mut String, range: IdRange<DirectiveId>)
    requires
        displayable(document@),
        directives_stored(document@, range),
    ensures
        final(text)@ == old(text)@ + directives_text(document@, range),
{
    let ghost c = document@;
    let ghost first = range.start.index() as int;
    let ghost base = text@;
    let ids = range.ids();
    let mut j: usize = 0;
    while j < ids.len()
        invariant
            displayable(c),
            c == document@,
            directives_stored(c, range),
            first == range.start.index(),
            ids.len() == range.count(),
            forall|m: int| 0 <= m < ids.len() ==> (#[trigger] ids[m]).index() == first + m,
            j <= ids.len(),
            text@ == base + directive_list_text(c, first, first + j),
        decreases ids.len() - j,
    {
        push_char(text, ' ');
        write_directive(document, text, ids[j]);
        proof {
            assert(text@ =~= base + directive_list_text(c, first, first + j + 1));
        }
        j = j + 1;
    }
    proof {
        if range.count() == 0 {
            assert(directive_list_text(c, first, first) =~= Seq::<char>::empty());
        }
        assert(final(text)@ =~= old(text)@ + directives_text(c, range));
    }
}

pub(crate) fn write_variable(document: &ExecutableDocument, text: &mut String, id: VariableDefinitionId)
    requires
        displayable(document@),
        id.index() < document@.variables.len(),
    ensures
        final(text)@ == old(text)@ + variable_text(document@, id.index() as int),
{
    let record = document.variable(id);
    proof {
        assert(variable_displayable(document@, id.index() as int));
    }
    push_char(text, '$');
    append(text, document.string(record.name));
    push_char(text, ':');
    push_char(text, ' ');
    let ty: Type = record.ty.read(document);
    let written = ty.to_string();
    append(text, written.as_str());
    match record.default_value {
        Some(d) => {
            push_char(text, ' ');
            push_char(text, '=');
            push_char(text, ' ');
            let value = document.read_value(d);
            proof {
                lemma_value_text_at(document@, d.index(), value);
            }
            let value_text = value.to_string();
            append(text, value_text.as_str());
        },
        None => {},
    }
    write_directives(document, text, record.directives);
    proof {
        assert(final(text)@ =~= old(text)@ + variable_text(document@, id.index() as int));
    }
}

pub(crate) fn write_variables(document: &ExecutableDocument, text: &mut String, range: IdRange<VariableDefinitionId>)
    requires
        displayable(document@),
        variables_stored(document@, range),
    ensures
        final(text)@ == old(text)@ + variables_text(document@, range),
{
    if range.len() == 0 {
        proof {
            assert(old(text)@ + variables_text(document@, range) =~= old(text)@);
        }
        return;
    }
    let ghost c = document@;
    let ghost first = range.start.index() as int;
    let ghost base = text@;
    push_char(text, '(');
    let ids = range.ids();
    let mut j: usize = 0;
    while j < ids.len()
        invariant
            displayable(c),
            c == document@,
            variables_stored(c, range),
            range.count() > 0,
            first == range.start.index(),
            ids.len() == range.count(),
            forall|m: int| 0 <= m < ids.len() ==> (#[trigger] ids[m]).index() == first + m,
            j <= ids.len(),
            text@ == base.push('(') + variable_list_text(c, first, first + j),
        decreases ids.len() - j,
    {
        if j > 0 {
            push_char(text, ',');
            push_char(text, ' ');
        }
        write_variable(document, text, ids[j]);
        proof {
            assert(text@ =~= base.push('(') + variable_list_text(c, first, first + j + 1));
        }
        j = j + 1;
    }
    push_char(text, ')');
    proof {
        assert(final(text)@ =~= old(text)@ + variables_text(c, range));
    }
}

pub(crate) fn write_selection_set(document: &ExecutableDocument, text: &mut String, range: IdRange<SelectionId>)
    requires
        displayable(document@),
        selections_in_bounds(document@, range),
    ensures
        final(text)@ == old(text)@ + selection_set_text(document@, range),
    decreases nested_end(range), 0int, 1int,
{
    if range.len() == 0 {
        proof {
            assert(old(text)@ + selection_set_text(document@, range) =~= old(text)@);
        }
        return;
    }
    let ghost c = document@;
    let ghost first = range.start.index() as int;
    let ghost base = text@;
    push_char(text, '{');
    push_char(text, '\n');
    let ids = range.ids();
    let mut j: usize = 0;
    while j < ids.len()
        invariant
            displayable(c),
            c == document@,
            selections_in_bounds(c, range),
            range.count() > 0,
            first == range.start.index(),
            ids.len() == range.count(),
            forall|m: int| 0 <= m < ids.len() ==> (#[trigger] ids[m]).index() == first + m,
            j <= ids.len(),
            text@ == base + seq!['{', '\n'] + selection_list_text(c, first, first + j),
        decreases ids.len() - j,
    {
        let mut child = String::new();
        write_selection(document, &mut child, ids[j]);
        push_char(&mut child, '\n');
        append_indented(text, child.as_str());
        proof {
            assert(child@ =~= selection_text(c, first + j).push('\n'));
            assert(text@ =~= base + seq!['{', '\n'] + selection_list_text(c, first, first + j + 1));
        }
        j = j + 1;
    }
    push_char(text, '}');
    proof {
        assert(final(text)@ =~= old(text)@ + selection_set_text(c, range));
    }
}

pub(crate) fn write_selection(document: &ExecutableDocument, text: &mut String, id: SelectionId)
    requires
        displayable(document@),
        id.index() < document@.selections.len(),
    ensures
        final(text)@ == old(text)@ + selection_text(document@, id.index() as int),
    decreases id.index(), 2int, 0int,
{
    proof {
        assert(selection_placed(document@, id.index() as int));
    }
    match document.selection(id) {
        SelectionRecord::Field(f) => write_field(document, text, *f),
        SelectionRecord::InlineFragment(i) => write_inline_fragment(document, text, *i),
        SelectionRecord::FragmentSpread(i) => write_fragment_spread(document, text, *i),
    }
}

pub(crate) fn write_field(document: &ExecutableDocument, text: &mut String, id: FieldSelectionId)
    requires
        displayable(document@),
        id.index() < document@.field_selections.len(),
    ensures
        final(text)@ == old(text)@ + field_text(document@, id.index() as int),
    decreases nested_end(document@.field_selections[id.index() as int].selection_set), 1int, 0int,
{
    let record = document.field_selection(id);
    proof {
        assert(field_displayable(document@, id.index() as int));
    }
    match record.alias {
        Some(alias) => {
            append(text, document.string(alias));
            push_char(text, ':');
            push_char(text, ' ');
        },
        None => {},
    }
    append(text, document.string(record.name));
    write_arguments(document, text, record.arguments);
    write_directives(document, text, record.directives);
    if record.selection_set.len() != 0 {
        push_char(text, ' ');
    }
    write_selection_set(document, text, record.selection_set);
    proof {
        assert(final(text)@ =~= old(text)@ + field_text(document@, id.index() as int));
    }
}

pub(crate) fn write_inline_fragment(document: &ExecutableDocument, text: &mut String, id: InlineFragmentId)
    requires
        displayable(document@),
        id.index() < document@.inline_fragments.len(),
    ensures
        final(text)@ == old(text)@ + inline_fragment_text(document@, id.index() as int),
    decreases nested_end(document@.inline_fragments[id.index() as int].selection_set), 1int, 0int,
{
    let record = document.inline_fragment(id);
    proof {
        assert(inline_fragment_displayable(document@, id.index() as int));
    }
    push_char(text, '.');
    push_char(text, '.');
    push_char(text, '.');
    match record.type_condition {
        Some(on) => {
            append(text, " on ");
            append(text, document.string(on));
        },
        None => {},
    }
    write_directives(document, text, record.directives);
    push_char(text, ' ');
    write_selection_set(document, text, record.selection_set);
    proof {
        assert(final(text)@ =~= old(text)@ + inline_fragment_text(document@, id.index() as int));
    }
}

pub(crate) fn write_fragment_spread(document: &ExecutableDocument, text: &mut String, id: super::ids::FragmentSpreadId)
    requires
        displayable(document@),
        id.index() < document@.fragment_spreads.len(),
    ensures
        final(text)@ == old(text)@ + fragment_spread_text(document@, id.index() as int),
{
    let record = document.fragment_spread(id);
    proof {
        assert(fragment_spread_displayable(document@, id.index() as int));
    }
    append(text, "... ");
    append(text, document.string(record.fragment_name));
    write_directives(document, text, record.directives);
    proof {
        reveal_strlit("... ");
        assert(final(text)@ =~= old(text)@ + fragment_spread_text(document@, id.index() as int));
    }
}

/// The operation at `k` as `query Name($v: T) @directives { ... }`, ended
/// by a newline.
pub open spec fn operation_text(c: ExecutableContents, k: int) -> Seq<char> {
    let o = c.operations[k];
    operation_type_text(o.operation_type) + optional_name_text(c, o.name, seq![' '])
        + variables_text(c, o.variable_definitions) + directives_text(c, o.directives) + seq![' ']
        + selection_set_text(c, o.selection_set) + seq!['\n']
}

/// The fragment at `k` as `fragment Name on Type @directives { ... }`, ended
/// by a newline.
pub open spec fn fragment_text(c: ExecutableContents, k: int) -> Seq<char> {
    let f = c.fragments[k];
    "fragment "@ + c.text(f.name) + " on "@ + c.text(f.type_condition) + directives_text(
        c,
        f.directives,
    ) + seq![' '] + selection_set_text(c, f.selection_set) + seq!['\n']
}

/// The definition at `i`: a document of one anonymous query and nothing
/// else that qualifies it writes that query as its bare selection set.
pub open spec fn definition_text(c: ExecutableContents, i: int) -> Seq<char> {
    match c.definitions[i] {
        ExecutableDefinitionRecord::Operation(id) => if prints_in_short_form(c) {
            selection_set_text(c, c.operations[id.index() as int].selection_set)
        } else {
            operation_text(c, id.index() as int)
        },
        ExecutableDefinitionRecord::Fragment(id) => fragment_text(c, id.index() as int),
    }
}

/// The first `k` definitions, separated by newlines.
pub open spec fn definitions_text(c: ExecutableContents, k: int) -> Seq<char>
    decreases k,
{
    if k <= 0 {
        Seq::empty()
    } else {
        definitions_text(c, k - 1) + (if k > 1 {
            seq!['\n']
        } else {
            Seq::empty()
        }) + definition_text(c, k - 1)
    }
}

/// The whole document as GraphQL text.
pub open spec fn document_text(c: ExecutableContents) -> Seq<char> {
    definitions_text(c, c.definitions.len() as int)
}

fn write_operation_type(text: &mut String, operation_type: OperationType)
    ensures
        final(text)@ == old(text)@ + operation_type_text(operation_type),
{
    match operation_type {
        OperationType::Query => append(text, "query"),
        OperationType::Mutation => append(text, "mutation"),
        OperationType::Subscription => append(text, "subscription"),
    }
}

#[verifier::spinoff_prover]
#[verifier::rlimit(40)]
pub(crate) fn write_operation(document: &ExecutableDocument, text: &mut String, id: OperationDefinitionId)
    requires
        displayable(document@),
        id.index() < document@.operations.len(),
    ensures
        final(text)@ == old(text)@ + operation_text(document@, id.index() as int),
{
    let ghost c = document@;
    let record = document.operation(id);
    proof {
        assert(operation_displayable(c, id.index() as int));
    }
    let ghost o = c.operations[id.index() as int];
    write_operation_type(text, record.operation_type);
    let ghost t1 = text@;
    match record.name {
        Some(name) => {
            push_char(text, ' ');
            append(text, document.string(name));
        },
        None => {},
    }
    assert(text@ =~= t1 + optional_name_text(c, o.name, seq![' ']));
    let ghost t2 = text@;
    write_variables(document, text, record.variable_definitions);
    write_directives(document, text, record.directives);
    push_char(text, ' ');
    let ghost t3 = text@;
    assert(t3 =~= t2 + variables_text(c, o.variable_definitions) + directives_text(c, o.directives)
        + seq![' ']);
    write_selection_set(document, text, record.selection_set);
    push_char(text, '\n');
    assert(text@ =~= t3 + selection_set_text(c, o.selection_set) + seq!['\n']);
    proof {
        assert(final(text)@ =~= old(text)@ + operation_text(c, id.index() as int));
    }
}

pub(crate) fn write_fragment(document: &ExecutableDocument, text: &mut String, id: FragmentDefinitionId)
    requires
        displayable(document@),
        id.index() < document@.fragments.len(),
    ensures
        final(text)@ == old(text)@ + fragment_text(document@, id.index() as int),
{
    let record = document.fragment(id);
    proof {
        assert(fragment_displayable(document@, id.index() as int));
    }
    append(text, "fragment ");
    append(text, document.string(record.name));
    append(text, " on ");
    append(text, document.string(record.type_condition));
    write_directives(document, text, record.directives);
    push_char(text, ' ');
    write_selection_set(document, text, record.selection_set);
    push_char(text, '\n');
    proof {
        assert(final(text)@ =~= old(text)@ + fragment_text(document@, id.index() as int));
    }
}

impl ExecutableDocument {
    /// The document as GraphQL text; see [`document_text`].
    pub fn to_string(&self) -> (text: String)
        requires
            displayable(self@),
            self@.definitions.len() <= u32::MAX,
        ensures
            text@ == document_text(self@),
    {
        let c = self;
        let ghost contents = self@;
        let short = use_short_form(self);
        let ids = self.definition_ids();
        let mut text = String::new();
        let mut i: usize = 0;
        while i < ids.len()
            invariant
                displayable(contents),
                contents == c@,
                short == prints_in_short_form(contents),
                ids.len() == contents.definitions.len() <= u32::MAX,
                forall|m: int| 0 <= m < ids.len() ==> ids[m] == ExecutableDefinitionId::at(m as nat),
                i <= ids.len(),
                text@ == definitions_text(contents, i as int),
            decreases ids.len() - i,
        {
            if i != 0 {
                push_char(&mut text, '\n');
            }
            proof {
                ExecutableDefinitionId::lemma_at(i as nat);
            }
            let ghost before = text@;
            match c.definition(ids[i]) {
                ExecutableDefinitionRecord::Operation(op) => {
                    if short {
                        proof {
                            assert(operation_displayable(contents, op.index() as int));
                        }
                        write_selection_set(c, &mut text, c.operation(*op).selection_set);
                    } else {
                        write_operation(c, &mut text, *op);
                    }
                },
                ExecutableDefinitionRecord::Fragment(f) => write_fragment(c, &mut text, *f),
            }
            proof {
                assert(text@ =~= definitions_text(contents, i + 1));
            }
            i = i + 1;
        }
        text
    }
}

} // verus!

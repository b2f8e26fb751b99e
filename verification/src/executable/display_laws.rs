//! Which documents can be written out: every document that parsing
//! produces.
use vstd::prelude::*;

use super::contents::{interned, operation_ids_of, ExecutableContents};
use super::layout::{definition_doc, operation_doc};
use super::node_display::{
    definition_text, directive_list_text, directive_text, directives_text, operation_text,
};
use super::storage::OperationType;
use crate::printing::prints_in_short_form;
use super::ids::{FragmentDefinitionId, OperationDefinitionId, StringId};
use super::laws::law_intern_idempotent;
use super::node_display::{
    argument_displayable, directive_displayable, displayable, field_displayable,
    fragment_displayable, fragment_spread_displayable, inline_fragment_displayable,
    operation_displayable, selection_placed, variable_displayable,
};
use super::storage::{ExecutableDefinitionRecord, FragmentDefinitionRecord, OperationDefinitionRecord};
use super::strings::all_distinct;
use super::value::{value_refers_back, values_well_founded};
use crate::parser::executable::{
    fragment_record, operation_record, with_description, write_definition, write_definitions,
    DefinitionKind, DefinitionSyntax,
};

verus! {

/// More strings, none twice, keep a document that can be written out so.
proof fn lemma_displayable_more_strings(c: ExecutableContents, strings: Seq<Seq<char>>)
    requires
        displayable(c),
        strings.len() >= c.strings.len(),
        all_distinct(strings),
    ensures
        displayable(ExecutableContents { strings, ..c }),
{
    let d = ExecutableContents { strings, ..c };
    assert forall|i: int| 0 <= i < d.values.len() implies #[trigger] value_refers_back(d, i) by {
        assert(value_refers_back(c, i));
    }
    assert forall|k: int| 0 <= k < d.arguments.len() implies #[trigger] argument_displayable(d, k) by {
        assert(argument_displayable(c, k));
    }
    assert forall|k: int| 0 <= k < d.directives.len() implies #[trigger] directive_displayable(d, k) by {
        assert(directive_displayable(c, k));
    }
    assert forall|k: int| 0 <= k < d.variables.len() implies #[trigger] variable_displayable(d, k) by {
        assert(variable_displayable(c, k));
    }
    assert forall|k: int| 0 <= k < d.field_selections.len() implies #[trigger] field_displayable(d, k) by {
        assert(field_displayable(c, k));
    }
    assert forall|k: int|
        0 <= k < d.inline_fragments.len() implies #[trigger] inline_fragment_displayable(d, k) by {
        assert(inline_fragment_displayable(c, k));
    }
    assert forall|k: int|
        0 <= k < d.fragment_spreads.len() implies #[trigger] fragment_spread_displayable(d, k) by {
        assert(fragment_spread_displayable(c, k));
    }
    assert forall|k: int| 0 <= k < d.selections.len() implies #[trigger] selection_placed(d, k) by {
        assert(selection_placed(c, k));
    }
    assert forall|k: int| 0 <= k < d.operations.len() implies #[trigger] operation_displayable(d, k) by {
        assert(operation_displayable(c, k));
    }
    assert forall|k: int| 0 <= k < d.fragments.len() implies #[trigger] fragment_displayable(d, k) by {
        assert(fragment_displayable(c, k));
    }
    assert(d.wf()) by {
        assert forall|i: int| #![trigger d.definitions[i]] 0 <= i < d.definitions.len() implies match d.definitions[i] {
            ExecutableDefinitionRecord::Operation(id) => id.wf() && id.index() < d.operations.len(),
            ExecutableDefinitionRecord::Fragment(id) => id.wf() && id.index() < d.fragments.len(),
        } by {
            assert(c.definitions[i] == d.definitions[i]);
        }
    }
}

/// Interning a string keeps a document that can be written out so.
proof fn lemma_displayable_with_string(c: ExecutableContents, s: Seq<char>)
    requires
        displayable(c),
    ensures
        displayable(c.with_string(s)),
        c.with_string(s).strings.len() <= c.strings.len() + 1,
        interned(c.strings, s).1 < c.with_string(s).strings.len(),
{
    law_intern_idempotent(c.strings, s);
    lemma_displayable_more_strings(c, interned(c.strings, s).0);
    assert(c.with_string(s) == ExecutableContents { strings: interned(c.strings, s).0, ..c });
}

/// Adding an operation that can be written out keeps a document that can be
/// written out so.
proof fn lemma_displayable_with_operation(c: ExecutableContents, record: OperationDefinitionRecord)
    requires
        displayable(c),
        c.operations.len() < u32::MAX,
        operation_displayable(c.with_operation(record), c.operations.len() as int),
    ensures
        displayable(c.with_operation(record)),
{
    let d = c.with_operation(record);
    OperationDefinitionId::lemma_at(c.operations.len());
    assert forall|i: int| 0 <= i < d.values.len() implies #[trigger] value_refers_back(d, i) by {
        assert(value_refers_back(c, i));
    }
    assert forall|k: int| 0 <= k < d.arguments.len() implies #[trigger] argument_displayable(d, k) by {
        assert(argument_displayable(c, k));
    }
    assert forall|k: int| 0 <= k < d.directives.len() implies #[trigger] directive_displayable(d, k) by {
        assert(directive_displayable(c, k));
    }
    assert forall|k: int| 0 <= k < d.variables.len() implies #[trigger] variable_displayable(d, k) by {
        assert(variable_displayable(c, k));
    }
    assert forall|k: int| 0 <= k < d.field_selections.len() implies #[trigger] field_displayable(d, k) by {
        assert(field_displayable(c, k));
    }
    assert forall|k: int|
        0 <= k < d.inline_fragments.len() implies #[trigger] inline_fragment_displayable(d, k) by {
        assert(inline_fragment_displayable(c, k));
    }
    assert forall|k: int|
        0 <= k < d.fragment_spreads.len() implies #[trigger] fragment_spread_displayable(d, k) by {
        assert(fragment_spread_displayable(c, k));
    }
    assert forall|k: int| 0 <= k < d.selections.len() implies #[trigger] selection_placed(d, k) by {
        assert(selection_placed(c, k));
    }
    assert forall|k: int| 0 <= k < d.operations.len() implies #[trigger] operation_displayable(d, k) by {
        if k < c.operations.len() {
            assert(operation_displayable(c, k));
            assert(d.operations[k] == c.operations[k]);
        }
    }
    assert forall|k: int| 0 <= k < d.fragments.len() implies #[trigger] fragment_displayable(d, k) by {
        assert(fragment_displayable(c, k));
    }
    assert(d.wf()) by {
        assert forall|i: int| #![trigger d.definitions[i]] 0 <= i < d.definitions.len() implies match d.definitions[i] {
            ExecutableDefinitionRecord::Operation(id) => id.wf() && id.index() < d.operations.len(),
            ExecutableDefinitionRecord::Fragment(id) => id.wf() && id.index() < d.fragments.len(),
        } by {
            if i < c.definitions.len() {
                assert(c.definitions[i] == d.definitions[i]);
            }
        }
    }
}

/// Adding a fragment that can be written out keeps a document that can be
/// written out so.
proof fn lemma_displayable_with_fragment(c: ExecutableContents, record: FragmentDefinitionRecord)
    requires
        displayable(c),
        c.fragments.len() < u32::MAX,
        fragment_displayable(c.with_fragment(record), c.fragments.len() as int),
    ensures
        displayable(c.with_fragment(record)),
{
    let d = c.with_fragment(record);
    FragmentDefinitionId::lemma_at(c.fragments.len());
    assert forall|i: int| 0 <= i < d.values.len() implies #[trigger] value_refers_back(d, i) by {
        assert(value_refers_back(c, i));
    }
    assert forall|k: int| 0 <= k < d.arguments.len() implies #[trigger] argument_displayable(d, k) by {
        assert(argument_displayable(c, k));
    }
    assert forall|k: int| 0 <= k < d.directives.len() implies #[trigger] directive_displayable(d, k) by {
        assert(directive_displayable(c, k));
    }
    assert forall|k: int| 0 <= k < d.variables.len() implies #[trigger] variable_displayable(d, k) by {
        assert(variable_displayable(c, k));
    }
    assert forall|k: int| 0 <= k < d.field_selections.len() implies #[trigger] field_displayable(d, k) by {
        assert(field_displayable(c, k));
    }
    assert forall|k: int|
        0 <= k < d.inline_fragments.len() implies #[trigger] inline_fragment_displayable(d, k) by {
        assert(inline_fragment_displayable(c, k));
    }
    assert forall|k: int|
        0 <= k < d.fragment_spreads.len() implies #[trigger] fragment_spread_displayable(d, k) by {
        assert(fragment_spread_displayable(c, k));
    }
    assert forall|k: int| 0 <= k < d.selections.len() implies #[trigger] selection_placed(d, k) by {
        assert(selection_placed(c, k));
    }
    assert forall|k: int| 0 <= k < d.operations.len() implies #[trigger] operation_displayable(d, k) by {
        assert(operation_displayable(c, k));
    }
    assert forall|k: int| 0 <= k < d.fragments.len() implies #[trigger] fragment_displayable(d, k) by {
        if k < c.fragments.len() {
            assert(fragment_displayable(c, k));
            assert(d.fragments[k] == c.fragments[k]);
        }
    }
    assert(d.wf()) by {
        assert forall|i: int| #![trigger d.definitions[i]] 0 <= i < d.definitions.len() implies match d.definitions[i] {
            ExecutableDefinitionRecord::Operation(id) => id.wf() && id.index() < d.operations.len(),
            ExecutableDefinitionRecord::Fragment(id) => id.wf() && id.index() < d.fragments.len(),
        } by {
            if i < c.definitions.len() {
                assert(c.definitions[i] == d.definitions[i]);
            }
        }
    }
}

/// The empty document can be written out.
proof fn lemma_empty_displayable()
    ensures
        displayable(ExecutableContents::empty()),
{
}

/// Every document that parsing writes can be written out as text: what the
/// definitions of a source write into an empty document meets
/// [`displayable`], whatever the definitions are.
pub proof fn law_parsed_documents_display(source: Seq<char>, defs: Seq<DefinitionSyntax>)
    requires
        2 * defs.len() < u32::MAX,
    ensures
        displayable(write_definitions(ExecutableContents::empty(), source, defs)),
    decreases defs.len(),
{
    lemma_written_sizes(source, defs);
    if defs.len() == 0 {
        lemma_empty_displayable();
    } else {
        let before = write_definitions(ExecutableContents::empty(), source, defs.drop_last());
        law_parsed_documents_display(source, defs.drop_last());
        lemma_written_sizes(source, defs.drop_last());
        let def = defs.last();
        let described = with_description(before, source, def);
        match def.description {
            Some(span) => lemma_displayable_with_string(
                before,
                crate::parser::executable::description_text(source, span),
            ),
            None => {},
        }
        assert(displayable(described));
        match def.kind {
            DefinitionKind::Operation => {
                lemma_displayable_with_operation(described, operation_record(def.span));
            },
            DefinitionKind::Fragment => {
                let named = described.with_string(Seq::empty());
                lemma_displayable_with_string(described, Seq::empty());
                let name = StringId::at(interned(described.strings, Seq::empty()).1);
                StringId::lemma_at(interned(described.strings, Seq::empty()).1);
                lemma_displayable_with_fragment(named, fragment_record(def.span, name));
            },
        }
    }
}

/// Writing `defs` adds at most one operation or fragment and two strings
/// for each definition.
proof fn lemma_written_sizes(source: Seq<char>, defs: Seq<DefinitionSyntax>)
    ensures
        write_definitions(ExecutableContents::empty(), source, defs).operations.len() <= defs.len(),
        write_definitions(ExecutableContents::empty(), source, defs).fragments.len() <= defs.len(),
        write_definitions(ExecutableContents::empty(), source, defs).strings.len() <= 2 * defs.len(),
    decreases defs.len(),
{
    if defs.len() > 0 {
        lemma_written_sizes(source, defs.drop_last());
        let before = write_definitions(ExecutableContents::empty(), source, defs.drop_last());
        let def = defs.last();
        let described = with_description(before, source, def);
        match def.description {
            Some(span) => {
                let s = crate::parser::executable::description_text(source, span);
                assert(interned(before.strings, s).0.len() <= before.strings.len() + 1);
            },
            None => {},
        }
        assert(interned(described.strings, Seq::empty()).0.len() <= described.strings.len() + 1);
    }
}

/// A definition that refers to an operation puts that operation among the
/// document's operations.
proof fn lemma_operation_listed(definitions: Seq<ExecutableDefinitionRecord>, i: int, id: OperationDefinitionId)
    requires
        0 <= i < definitions.len(),
        definitions[i] == ExecutableDefinitionRecord::Operation(id),
    ensures
        operation_ids_of(definitions).contains(id),
    decreases definitions.len(),
{
    let rest = definitions.drop_last();
    if i == definitions.len() - 1 {
        assert(operation_ids_of(definitions) == operation_ids_of(rest).push(id));
        assert(operation_ids_of(definitions)[operation_ids_of(rest).len() as int] == id);
    } else {
        assert(rest[i] == definitions[i]);
        lemma_operation_listed(rest, i, id);
        let j = choose|j: int| 0 <= j < operation_ids_of(rest).len() && operation_ids_of(rest)[j] == id;
        match definitions.last() {
            ExecutableDefinitionRecord::Operation(last) => {
                assert(operation_ids_of(definitions)[j] == id);
            },
            ExecutableDefinitionRecord::Fragment(_) => {},
        }
    }
}

/// Printing never drops what sets an operation apart: an operation that has
/// a name, variables or directives, or another keyword than `query`, is
/// written out whole, keyword, variables and directives included, and laid
/// out whole for pretty printing, whatever else the document holds.  Only a
/// lone anonymous query with neither variables nor directives is written as
/// its bare selection set.
pub proof fn law_printing_keeps_operations(c: ExecutableContents, i: int, id: OperationDefinitionId)
    requires
        0 <= i < c.definitions.len(),
        c.definitions[i] == ExecutableDefinitionRecord::Operation(id),
        id.index() < c.operations.len(),
        ({
            let o = c.operations[id.index() as int];
            ||| o.name is Some
            ||| o.operation_type != OperationType::Query
            ||| o.directives.count() > 0
            ||| o.variable_definitions.count() > 0
        }),
    ensures
        definition_text(c, i) == operation_text(c, id.index() as int),
        definition_doc(c, i) == operation_doc(c, id.index() as int),
{
    if prints_in_short_form(c) {
        lemma_operation_listed(c.definitions, i, id);
        let ids = operation_ids_of(c.definitions);
        let j = choose|j: int| 0 <= j < ids.len() && ids[j] == id;
        assert(ids.len() == 1);
        assert(j == 0);
        assert(false);
    }
}

/// The directives from `start` up to `k` hold the directive at each `j`
/// among them.
proof fn lemma_directive_list_holds(c: ExecutableContents, start: int, k: int, j: int)
    requires
        start <= j < k,
    ensures
        exists|p: Seq<char>, q: Seq<char>| directive_list_text(c, start, k) == p + directive_text(c, j) + q,
    decreases k - start,
{
    if j == k - 1 {
        let p = directive_list_text(c, start, k - 1) + seq![' '];
        assert(directive_list_text(c, start, k) == p + directive_text(c, j) + Seq::<char>::empty());
    } else {
        lemma_directive_list_holds(c, start, k - 1, j);
        let (p, q) = choose|p: Seq<char>, q: Seq<char>|
            directive_list_text(c, start, k - 1) == p + directive_text(c, j) + q;
        let q2 = q + seq![' '] + directive_text(c, k - 1);
        assert(directive_list_text(c, start, k) =~= p + directive_text(c, j) + q2);
    }
}

/// An operation is written with each of its directives: its text holds `@`
/// followed by the name of every directive of the operation.
pub proof fn law_operation_text_names_its_directives(c: ExecutableContents, k: int, j: int)
    requires
        0 <= k < c.operations.len(),
        c.operations[k].directives.start.index() <= j < c.operations[k].directives.end.index(),
    ensures
        exists|p: Seq<char>, q: Seq<char>|
            operation_text(c, k) == p + seq!['@'] + c.text(c.directives[j].name) + q,
{
    let o = c.operations[k];
    let range = o.directives;
    lemma_directive_list_holds(c, range.start.index() as int, range.end.index() as int, j);
    let (p, q) = choose|p: Seq<char>, q: Seq<char>|
        directive_list_text(c, range.start.index() as int, range.end.index() as int) == p + directive_text(c, j) + q;
    assert(directives_text(c, range) == p + directive_text(c, j) + q);
    let before = super::node_display::operation_type_text(o.operation_type)
        + super::node_display::optional_name_text(c, o.name, seq![' '])
        + super::node_display::variables_text(c, o.variable_definitions);
    let after = seq![' '] + super::node_display::selection_set_text(c, o.selection_set) + seq!['\n'];
    let d = c.directives[j];
    let p2 = before + p;
    let q2 = super::node_display::arguments_text(c, d.arguments) + q + after;
    assert(operation_text(c, k) =~= p2 + seq!['@'] + c.text(d.name) + q2);
}

} // verus!

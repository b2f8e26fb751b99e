//! A parsed executable document: operations and fragments, with everything
//! they refer to, each kind of record in a vector of its own.
use vstd::prelude::*;

use indexmap::IndexSet;

use super::contents::{
    find_fragment, fragment_ids_of, operation_ids_of, ExecutableContents,
};
use super::ids::{
    ArgumentId, BlockStringLiteralId, DirectiveId, ExecutableDefinitionId, FieldSelectionId,
    FragmentDefinitionId, FragmentSpreadId, InlineFragmentId, OperationDefinitionId, SelectionId,
    StringId, TypeId, ValueId, VariableDefinitionId,
};
use super::storage::{
    ArgumentRecord, DirectiveRecord, ExecutableDefinitionRecord, FieldSelectionRecord,
    FragmentDefinitionRecord, FragmentSpreadRecord, InlineFragmentRecord,
    OperationDefinitionRecord, SelectionRecord, TypeRecord, ValueRecord, VariableDefinitionRecord,
};
use super::strings::{self, string_set_contents};
use super::ids::IdRange;
use super::layout::layable;
use super::node_display::{
    argument_displayable, directive_displayable, field_displayable, fragment_displayable,
    fragment_spread_displayable, inline_fragment_displayable, nested_end, operation_displayable,
    selection_placed, variable_displayable,
};

verus! {

pub struct ExecutableDocument {
    strings: IndexSet<String>,
    block_strings: Vec<String>,
    definitions: Vec<ExecutableDefinitionRecord>,
    operations: Vec<OperationDefinitionRecord>,
    fragments: Vec<FragmentDefinitionRecord>,
    selections: Vec<SelectionRecord>,
    field_selections: Vec<FieldSelectionRecord>,
    inline_fragments: Vec<InlineFragmentRecord>,
    fragment_spreads: Vec<FragmentSpreadRecord>,
    directives: Vec<DirectiveRecord>,
    arguments: Vec<ArgumentRecord>,
    variables: Vec<VariableDefinitionRecord>,
    types: Vec<TypeRecord>,
    values: Vec<ValueRecord>,
}

impl View for ExecutableDocument {
    type V = ExecutableContents;

    closed spec fn view(&self) -> ExecutableContents {
        ExecutableContents {
            strings: string_set_contents(self.strings),
            block_strings: self.block_strings@.map_values(|s: String| s@),
            definitions: self.definitions@,
            operations: self.operations@,
            fragments: self.fragments@,
            selections: self.selections@,
            field_selections: self.field_selections@,
            inline_fragments: self.inline_fragments@,
            fragment_spreads: self.fragment_spreads@,
            directives: self.directives@,
            arguments: self.arguments@,
            variables: self.variables@,
            types: self.types@,
            values: self.values@,
        }
    }
}

impl ExecutableDocument {
    pub open spec fn wf(&self) -> bool {
        self@.wf()
    }

    pub(crate) fn from_parts(
        strings: IndexSet<String>,
        block_strings: Vec<String>,
        definitions: Vec<ExecutableDefinitionRecord>,
        operations: Vec<OperationDefinitionRecord>,
        fragments: Vec<FragmentDefinitionRecord>,
        selections: Vec<SelectionRecord>,
        field_selections: Vec<FieldSelectionRecord>,
        inline_fragments: Vec<InlineFragmentRecord>,
        fragment_spreads: Vec<FragmentSpreadRecord>,
        directives: Vec<DirectiveRecord>,
        arguments: Vec<ArgumentRecord>,
        variables: Vec<VariableDefinitionRecord>,
        types: Vec<TypeRecord>,
        values: Vec<ValueRecord>,
    ) -> (document: Self)
        ensures
            document@ == (ExecutableContents {
                strings: string_set_contents(strings),
                block_strings: block_strings@.map_values(|s: String| s@),
                definitions: definitions@,
                operations: operations@,
                fragments: fragments@,
                selections: selections@,
                field_selections: field_selections@,
                inline_fragments: inline_fragments@,
                fragment_spreads: fragment_spreads@,
                directives: directives@,
                arguments: arguments@,
                variables: variables@,
                types: types@,
                values: values@,
            }),
    {
        ExecutableDocument {
            strings,
            block_strings,
            definitions,
            operations,
            fragments,
            selections,
            field_selections,
            inline_fragments,
            fragment_spreads,
            directives,
            arguments,
            variables,
            types,
            values,
        }
    }

    /// The text of an interned string.
    pub fn string(&self, id: StringId) -> (text: &str)
        requires
            id.index() < self@.strings.len(),
        ensures
            text@ == self@.strings[id.index() as int],
    {
        match strings::get_index(&self.strings, id.get()) {
            Some(s) => s.as_str(),
            None => "",
        }
    }

    /// The text of a block string.
    pub fn block_string(&self, id: BlockStringLiteralId) -> (text: &str)
        requires
            id.index() < self@.block_strings.len(),
        ensures
            text@ == self@.block_strings[id.index() as int],
    {
        self.block_strings[id.get()].as_str()
    }

    /// The record of `id`.
    pub fn definition(&self, id: ExecutableDefinitionId) -> (record: &ExecutableDefinitionRecord)
        requires
            id.index() < self@.definitions.len(),
        ensures
            *record == self@.definitions[id.index() as int],
    {
        &self.definitions[id.get()]
    }

    /// The record of `id`.
    pub fn operation(&self, id: OperationDefinitionId) -> (record: &OperationDefinitionRecord)
        requires
            id.index() < self@.operations.len(),
        ensures
            *record == self@.operations[id.index() as int],
    {
        &self.operations[id.get()]
    }

    /// The record of `id`.
    pub fn fragment(&self, id: FragmentDefinitionId) -> (record: &FragmentDefinitionRecord)
        requires
            id.index() < self@.fragments.len(),
        ensures
            *record == self@.fragments[id.index() as int],
    {
        &self.fragments[id.get()]
    }

    /// The record of `id`.
    pub fn selection(&self, id: SelectionId) -> (record: &SelectionRecord)
        requires
            id.index() < self@.selections.len(),
        ensures
            *record == self@.selections[id.index() as int],
    {
        &self.selections[id.get()]
    }

    /// The record of `id`.
    pub fn field_selection(&self, id: FieldSelectionId) -> (record: &FieldSelectionRecord)
        requires
            id.index() < self@.field_selections.len(),
        ensures
            *record == self@.field_selections[id.index() as int],
    {
        &self.field_selections[id.get()]
    }

    /// The record of `id`.
    pub fn inline_fragment(&self, id: InlineFragmentId) -> (record: &InlineFragmentRecord)
        requires
            id.index() < self@.inline_fragments.len(),
        ensures
            *record == self@.inline_fragments[id.index() as int],
    {
        &self.inline_fragments[id.get()]
    }

    /// The record of `id`.
    pub fn fragment_spread(&self, id: FragmentSpreadId) -> (record: &FragmentSpreadRecord)
        requires
            id.index() < self@.fragment_spreads.len(),
        ensures
            *record == self@.fragment_spreads[id.index() as int],
    {
        &self.fragment_spreads[id.get()]
    }

    /// The record of `id`.
    pub fn directive(&self, id: DirectiveId) -> (record: &DirectiveRecord)
        requires
            id.index() < self@.directives.len(),
        ensures
            *record == self@.directives[id.index() as int],
    {
        &self.directives[id.get()]
    }

    /// The record of `id`.
    pub fn argument(&self, id: ArgumentId) -> (record: &ArgumentRecord)
        requires
            id.index() < self@.arguments.len(),
        ensures
            *record == self@.arguments[id.index() as int],
    {
        &self.arguments[id.get()]
    }

    /// The record of `id`.
    pub fn variable(&self, id: VariableDefinitionId) -> (record: &VariableDefinitionRecord)
        requires
            id.index() < self@.variables.len(),
        ensures
            *record == self@.variables[id.index() as int],
    {
        &self.variables[id.get()]
    }

    /// The record of `id`.
    pub fn type_record(&self, id: TypeId) -> (record: &TypeRecord)
        requires
            id.index() < self@.types.len(),
        ensures
            *record == self@.types[id.index() as int],
    {
        &self.types[id.get()]
    }

    /// The record of the value `id`.
    pub fn value_record(&self, id: ValueId) -> (record: &ValueRecord)
        requires
            id.index() < self@.values.len(),
        ensures
            *record == self@.values[id.index() as int],
    {
        &self.values[id.get()]
    }

    /// The number of definitions stored.
    pub fn definition_count(&self) -> (n: usize)
        ensures
            n == self@.definitions.len(),
    {
        self.definitions.len()
    }

    /// The number of strings stored.
    pub fn string_count(&self) -> (n: usize)
        ensures
            n == self@.strings.len(),
    {
        strings::string_count(&self.strings)
    }

    /// The number of values stored.
    pub fn value_count(&self) -> (n: usize)
        ensures
            n == self@.values.len(),
    {
        self.values.len()
    }

    /// The number of selections stored.
    pub fn selection_count(&self) -> (n: usize)
        ensures
            n == self@.selections.len(),
    {
        self.selections.len()
    }

    /// The number of field selections stored.
    pub fn field_selection_count(&self) -> (n: usize)
        ensures
            n == self@.field_selections.len(),
    {
        self.field_selections.len()
    }

    /// The number of inline fragments stored.
    pub fn inline_fragment_count(&self) -> (n: usize)
        ensures
            n == self@.inline_fragments.len(),
    {
        self.inline_fragments.len()
    }

    /// The number of fragment spreads stored.
    pub fn fragment_spread_count(&self) -> (n: usize)
        ensures
            n == self@.fragment_spreads.len(),
    {
        self.fragment_spreads.len()
    }

    /// The number of directives stored.
    pub fn directive_count(&self) -> (n: usize)
        ensures
            n == self@.directives.len(),
    {
        self.directives.len()
    }

    /// The number of arguments stored.
    pub fn argument_count(&self) -> (n: usize)
        ensures
            n == self@.arguments.len(),
    {
        self.arguments.len()
    }

    /// The number of operations stored.
    pub fn operation_count(&self) -> (n: usize)
        ensures
            n == self@.operations.len(),
    {
        self.operations.len()
    }

    /// The number of variable definitions stored.
    pub fn variable_count(&self) -> (n: usize)
        ensures
            n == self@.variables.len(),
    {
        self.variables.len()
    }

    /// The number of type references stored.
    pub fn type_count(&self) -> (n: usize)
        ensures
            n == self@.types.len(),
    {
        self.types.len()
    }

    /// The number of fragments stored.
    pub fn fragment_count(&self) -> (n: usize)
        ensures
            n == self@.fragments.len(),
    {
        self.fragments.len()
    }

    /// The record of the value at `index`.
    pub fn value_at(&self, index: usize) -> (record: &ValueRecord)
        requires
            index < self@.values.len(),
        ensures
            *record == self@.values[index as int],
    {
        &self.values[index]
    }

    /// The identifiers of all definitions, in order.
    pub fn definition_ids(&self) -> (ids: Vec<ExecutableDefinitionId>)
        requires
            self@.definitions.len() <= u32::MAX,
        ensures
            ids.len() == self@.definitions.len(),
            forall|i: int| 0 <= i < ids.len() ==> ids[i] == ExecutableDefinitionId::at(i as nat),
    {
        let mut ids: Vec<ExecutableDefinitionId> = Vec::new();
        let mut i: usize = 0;
        while i < self.definitions.len()
            invariant
                i <= self.definitions.len() <= u32::MAX,
                ids.len() == i,
                forall|k: int| 0 <= k < i ==> ids[k] == ExecutableDefinitionId::at(k as nat),
            decreases self.definitions.len() - i,
        {
            ids.push(ExecutableDefinitionId::new(i));
            i = i + 1;
        }
        ids
    }

    /// The operations, in the order of the definitions.
    pub fn operation_ids(&self) -> (ids: Vec<OperationDefinitionId>)
        ensures
            ids@ == self@.operation_ids(),
    {
        let mut ids: Vec<OperationDefinitionId> = Vec::new();
        let mut i: usize = 0;
        while i < self.definitions.len()
            invariant
                i <= self.definitions.len(),
                ids@ == operation_ids_of(self.definitions@.take(i as int)),
            decreases self.definitions.len() - i,
        {
            proof {
                assert(self.definitions@.take(i + 1).drop_last() =~= self.definitions@.take(i as int));
            }
            match self.definitions[i] {
                ExecutableDefinitionRecord::Operation(id) => ids.push(id),
                ExecutableDefinitionRecord::Fragment(_) => {},
            }
            i = i + 1;
        }
        proof {
            assert(self.definitions@.take(i as int) =~= self.definitions@);
        }
        ids
    }

    /// The fragments, in the order of the definitions.
    pub fn fragment_ids(&self) -> (ids: Vec<FragmentDefinitionId>)
        ensures
            ids@ == self@.fragment_ids(),
    {
        let mut ids: Vec<FragmentDefinitionId> = Vec::new();
        let mut i: usize = 0;
        while i < self.definitions.len()
            invariant
                i <= self.definitions.len(),
                ids@ == fragment_ids_of(self.definitions@.take(i as int)),
            decreases self.definitions.len() - i,
        {
            proof {
                assert(self.definitions@.take(i + 1).drop_last() =~= self.definitions@.take(i as int));
            }
            match self.definitions[i] {
                ExecutableDefinitionRecord::Fragment(id) => ids.push(id),
                ExecutableDefinitionRecord::Operation(_) => {},
            }
            i = i + 1;
        }
        proof {
            assert(self.definitions@.take(i as int) =~= self.definitions@);
        }
        ids
    }

    /// Whether the string `id` reads `text`.
    fn string_is(&self, id: StringId, text: &String) -> (r: bool)
        requires
            id.index() < self@.strings.len(),
        ensures
            r == (self@.strings[id.index() as int] == text@),
    {
        match strings::get_index(&self.strings, id.get()) {
            Some(s) => *s == *text,
            None => false,
        }
    }

    /// The first fragment, in the order of the definitions, whose name is
    /// `name`: where a fragment spread of that name leads.
    pub fn fragment_named(&self, name: &str) -> (found: Option<FragmentDefinitionId>)
        requires
            self.wf(),
            self@.fragment_names_valid(),
        ensures
            found == match find_fragment(self@, self@.fragment_ids(), name@, 0) {
                Some(k) => Some(self@.fragment_ids()[k]),
                None => None,
            },
    {
        let ids = self.fragment_ids();
        let needle = name.to_owned();
        proof {
            lemma_fragment_ids_valid(self@.definitions, self@.fragments.len());
        }
        let mut k: usize = 0;
        while k < ids.len()
            invariant
                k <= ids.len(),
                ids@ == self@.fragment_ids(),
                needle@ == name@,
                self@.fragment_names_valid(),
                forall|j: int|
                    0 <= j < ids.len() ==> (#[trigger] ids[j]).wf() && ids[j].index()
                        < self@.fragments.len(),
                find_fragment(self@, ids@, name@, 0) == find_fragment(self@, ids@, name@, k as int),
            decreases ids.len() - k,
        {
            let id = ids[k];
            let record = &self.fragments[id.get()];
            if self.string_is(record.name, &needle) {
                return Some(id);
            }
            k = k + 1;
        }
        None
    }
}

/// Every fragment among `definitions` is one of the first `count` fragments,
/// where every definition refers to one of those.
pub proof fn lemma_fragment_ids_valid(definitions: Seq<ExecutableDefinitionRecord>, count: nat)
    requires
        forall|i: int|
            #![trigger definitions[i]]
            0 <= i < definitions.len() ==> match definitions[i] {
                ExecutableDefinitionRecord::Fragment(id) => id.wf() && id.index() < count,
                _ => true,
            },
    ensures
        forall|j: int|
            0 <= j < fragment_ids_of(definitions).len() ==> (#[trigger] fragment_ids_of(
                definitions,
            )[j]).wf() && fragment_ids_of(definitions)[j].index() < count,
    decreases definitions.len(),
{
    if definitions.len() > 0 {
        let rest = definitions.drop_last();
        assert forall|i: int| #![trigger rest[i]] 0 <= i < rest.len() implies match rest[i] {
            ExecutableDefinitionRecord::Fragment(id) => id.wf() && id.index() < count,
            _ => true,
        } by {
            assert(rest[i] == definitions[i]);
        }
        lemma_fragment_ids_valid(rest, count);
        let last = definitions[definitions.len() - 1];
        assert(definitions.last() == last);
        let ids = fragment_ids_of(definitions);
        let rest_ids = fragment_ids_of(rest);
        assert forall|j: int| 0 <= j < ids.len() implies (#[trigger] ids[j]).wf() && ids[j].index() < count by {
            if j < rest_ids.len() {
                assert(ids[j] == rest_ids[j]);
            } else {
                match last {
                    ExecutableDefinitionRecord::Fragment(id) => {
                        assert(ids[j] == id);
                    },
                    _ => {},
                }
            }
        }
    }
}

/// Every operation among `definitions` is one of the first `count` operations,
/// where every definition refers to one of those.
pub proof fn lemma_operation_ids_valid(definitions: Seq<ExecutableDefinitionRecord>, count: nat)
    requires
        forall|i: int|
            #![trigger definitions[i]]
            0 <= i < definitions.len() ==> match definitions[i] {
                ExecutableDefinitionRecord::Operation(id) => id.wf() && id.index() < count,
                _ => true,
            },
    ensures
        forall|j: int|
            0 <= j < operation_ids_of(definitions).len() ==> (#[trigger] operation_ids_of(
                definitions,
            )[j]).wf() && operation_ids_of(definitions)[j].index() < count,
    decreases definitions.len(),
{
    if definitions.len() > 0 {
        let rest = definitions.drop_last();
        assert forall|i: int| #![trigger rest[i]] 0 <= i < rest.len() implies match rest[i] {
            ExecutableDefinitionRecord::Operation(id) => id.wf() && id.index() < count,
            _ => true,
        } by {
            assert(rest[i] == definitions[i]);
        }
        lemma_operation_ids_valid(rest, count);
        let last = definitions[definitions.len() - 1];
        assert(definitions.last() == last);
        let ids = operation_ids_of(definitions);
        let rest_ids = operation_ids_of(rest);
        assert forall|j: int| 0 <= j < ids.len() implies (#[trigger] ids[j]).wf() && ids[j].index() < count by {
            if j < rest_ids.len() {
                assert(ids[j] == rest_ids[j]);
            } else {
                match last {
                    ExecutableDefinitionRecord::Operation(id) => {
                        assert(ids[j] == id);
                    },
                    _ => {},
                }
            }
        }
    }
}

fn arguments_within(range: IdRange<ArgumentId>, n: usize) -> (r: bool)
    ensures
        r == (range.count() > 0 ==> range.end.index() <= n),
{
    range.len() == 0 || range.end.get() <= n
}

fn directives_within(range: IdRange<DirectiveId>, n: usize) -> (r: bool)
    ensures
        r == (range.count() > 0 ==> range.end.index() <= n),
{
    range.len() == 0 || range.end.get() <= n
}

fn variables_within(range: IdRange<VariableDefinitionId>, n: usize) -> (r: bool)
    ensures
        r == (range.count() > 0 ==> range.end.index() <= n),
{
    range.len() == 0 || range.end.get() <= n
}

fn selections_within(range: IdRange<SelectionId>, n: usize) -> (r: bool)
    ensures
        r == (range.count() > 0 ==> range.end.index() <= n),
        r == (nested_end(range) <= n),
{
    range.len() == 0 || range.end.get() <= n
}

fn string_within(id: Option<StringId>, n: usize) -> (r: bool)
    ensures
        r == (id matches Some(s) ==> s.index() < n),
{
    match id {
        Some(s) => s.get() < n,
        None => true,
    }
}

impl ExecutableDocument {
    /// Whether the document can be laid out; see [`layable`].
    pub fn is_layable(&self) -> (r: bool)
        ensures
            r == layable(self@),
    {
        let c = self;
        let ghost v = self@;
        let strings = self.string_count();
        let mut ok = self.values_are_well_founded();

        let mut k: usize = 0;
        let mut all = true;
        while k < self.definitions.len()
            invariant
                v == self@,
                k <= self.definitions.len(),
                all == forall|j: int|
                    #![trigger v.definitions[j]]
                    0 <= j < k ==> match v.definitions[j] {
                        ExecutableDefinitionRecord::Operation(id) => id.index() < v.operations.len(),
                        ExecutableDefinitionRecord::Fragment(id) => id.index() < v.fragments.len(),
                    },
            decreases self.definitions.len() - k,
        {
            let this = match self.definitions[k] {
                ExecutableDefinitionRecord::Operation(id) => id.get() < self.operations.len(),
                ExecutableDefinitionRecord::Fragment(id) => id.get() < self.fragments.len(),
            };
            all = all && this;
            k = k + 1;
        }
        ok = ok && all;

        let mut k: usize = 0;
        let mut all = true;
        while k < self.arguments.len()
            invariant
                v == self@,
                strings == v.strings.len(),
                k <= self.arguments.len(),
                all == forall|j: int| 0 <= j < k ==> #[trigger] argument_displayable(v, j),
            decreases self.arguments.len() - k,
        {
            let a = self.arguments[k];
            let this = a.name.get() < strings && a.value.get() < self.values.len();
            proof {
                assert(this == argument_displayable(v, k as int));
            }
            all = all && this;
            k = k + 1;
        }
        ok = ok && all;

        let mut k: usize = 0;
        let mut all = true;
        while k < self.directives.len()
            invariant
                v == self@,
                strings == v.strings.len(),
                k <= self.directives.len(),
                all == forall|j: int| 0 <= j < k ==> #[trigger] directive_displayable(v, j),
            decreases self.directives.len() - k,
        {
            let d = self.directives[k];
            let this = d.name.get() < strings && arguments_within(d.arguments, self.arguments.len());
            proof {
                assert(this == directive_displayable(v, k as int));
            }
            all = all && this;
            k = k + 1;
        }
        ok = ok && all;

        let mut k: usize = 0;
        let mut all = true;
        while k < self.variables.len()
            invariant
                v == self@,
                strings == v.strings.len(),
                k <= self.variables.len(),
                all == forall|j: int| 0 <= j < k ==> #[trigger] variable_displayable(v, j),
            decreases self.variables.len() - k,
        {
            let d = self.variables[k];
            let ty_ok = d.ty.get() < self.types.len() && self.types[d.ty.get()].name.get() < strings;
            let default_ok = match d.default_value {
                Some(value) => value.get() < self.values.len(),
                None => true,
            };
            let this = d.name.get() < strings && ty_ok && default_ok && directives_within(
                d.directives,
                self.directives.len(),
            );
            proof {
                assert(this == variable_displayable(v, k as int));
            }
            all = all && this;
            k = k + 1;
        }
        ok = ok && all;

        let mut k: usize = 0;
        let mut all = true;
        while k < self.field_selections.len()
            invariant
                v == self@,
                strings == v.strings.len(),
                k <= self.field_selections.len(),
                all == forall|j: int| 0 <= j < k ==> #[trigger] field_displayable(v, j),
            decreases self.field_selections.len() - k,
        {
            let f = &self.field_selections[k];
            let this = string_within(f.alias, strings) && f.name.get() < strings && arguments_within(
                f.arguments,
                self.arguments.len(),
            ) && directives_within(f.directives, self.directives.len()) && selections_within(
                f.selection_set,
                self.selections.len(),
            );
            proof {
                assert(this == field_displayable(v, k as int));
            }
            all = all && this;
            k = k + 1;
        }
        ok = ok && all;

        let mut k: usize = 0;
        let mut all = true;
        while k < self.inline_fragments.len()
            invariant
                v == self@,
                strings == v.strings.len(),
                k <= self.inline_fragments.len(),
                all == forall|j: int| 0 <= j < k ==> #[trigger] inline_fragment_displayable(v, j),
            decreases self.inline_fragments.len() - k,
        {
            let f = &self.inline_fragments[k];
            let this = string_within(f.type_condition, strings) && directives_within(
                f.directives,
                self.directives.len(),
            ) && selections_within(f.selection_set, self.selections.len());
            proof {
                assert(this == inline_fragment_displayable(v, k as int));
            }
            all = all && this;
            k = k + 1;
        }
        ok = ok && all;

        let mut k: usize = 0;
        let mut all = true;
        while k < self.fragment_spreads.len()
            invariant
                v == self@,
                strings == v.strings.len(),
                k <= self.fragment_spreads.len(),
                all == forall|j: int| 0 <= j < k ==> #[trigger] fragment_spread_displayable(v, j),
            decreases self.fragment_spreads.len() - k,
        {
            let f = &self.fragment_spreads[k];
            let this = f.fragment_name.get() < strings && directives_within(
                f.directives,
                self.directives.len(),
            );
            proof {
                assert(this == fragment_spread_displayable(v, k as int));
            }
            all = all && this;
            k = k + 1;
        }
        ok = ok && all;

        let mut k: usize = 0;
        let mut all = true;
        while k < self.selections.len()
            invariant
                v == self@,
                k <= self.selections.len(),
                all == forall|j: int| 0 <= j < k ==> #[trigger] selection_placed(v, j),
            decreases self.selections.len() - k,
        {
            let this = match self.selections[k] {
                SelectionRecord::Field(id) => id.get() < self.field_selections.len()
                    && selections_within(self.field_selections[id.get()].selection_set, k),
                SelectionRecord::InlineFragment(id) => id.get() < self.inline_fragments.len()
                    && selections_within(self.inline_fragments[id.get()].selection_set, k),
                SelectionRecord::FragmentSpread(id) => id.get() < self.fragment_spreads.len(),
            };
            proof {
                assert(this == selection_placed(v, k as int));
            }
            all = all && this;
            k = k + 1;
        }
        ok = ok && all;

        let mut k: usize = 0;
        let mut all = true;
        while k < self.operations.len()
            invariant
                v == self@,
                strings == v.strings.len(),
                k <= self.operations.len(),
                all == forall|j: int| 0 <= j < k ==> #[trigger] operation_displayable(v, j),
            decreases self.operations.len() - k,
        {
            let o = &self.operations[k];
            let this = string_within(o.name, strings) && variables_within(
                o.variable_definitions,
                self.variables.len(),
            ) && directives_within(o.directives, self.directives.len()) && selections_within(
                o.selection_set,
                self.selections.len(),
            );
            proof {
                assert(this == operation_displayable(v, k as int));
            }
            all = all && this;
            k = k + 1;
        }
        ok = ok && all;

        let mut k: usize = 0;
        let mut all = true;
        while k < self.fragments.len()
            invariant
                v == self@,
                strings == v.strings.len(),
                k <= self.fragments.len(),
                all == forall|j: int| 0 <= j < k ==> #[trigger] fragment_displayable(v, j),
            decreases self.fragments.len() - k,
        {
            let f = &self.fragments[k];
            let this = f.name.get() < strings && f.type_condition.get() < strings && directives_within(
                f.directives,
                self.directives.len(),
            ) && selections_within(f.selection_set, self.selections.len());
            proof {
                assert(this == fragment_displayable(v, k as int));
            }
            all = all && this;
            k = k + 1;
        }
        ok = ok && all;
        ok
    }
}

} // verus!

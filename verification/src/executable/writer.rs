//! Builds an [`ExecutableDocument`] one record at a time.
use vstd::prelude::*;

use indexmap::IndexSet;

use super::contents::{interned, ExecutableContents};
use super::document::ExecutableDocument;
use super::ids::{
    ArgumentId, BlockStringLiteralId, DirectiveId, ExecutableDefinitionId, FieldSelectionId,
    FragmentDefinitionId, FragmentSpreadId, IdRange, InlineFragmentId, OperationDefinitionId,
    SelectionId, StringId, TypeId, ValueId, VariableDefinitionId,
};
use super::storage::{
    ArgumentRecord, DirectiveRecord, ExecutableDefinitionRecord, FieldSelectionRecord,
    FragmentDefinitionRecord, FragmentSpreadRecord, InlineFragmentRecord,
    OperationDefinitionRecord, SelectionRecord, TypeRecord, ValueRecord, VariableDefinitionRecord,
};
use super::strings::{self, all_distinct, string_set_contents};

verus! {

pub struct ExecutableAstWriter {
    strings: IndexSet<String>,
    block_strings: Vec<String>,
    definitions: Vec<ExecutableDefinitionRecord>,
    operations: Vec<OperationDefinitionRecord>,
    fragments: Vec<FragmentDefinitionRecord>,
    selections: Vec<SelectionRecord>,
    field_selections: Vec<FieldSelectionRecord>,
    inline_fragments: Vec<InlineFragmentRecord>,
    fragment_spreads: Vec<FragmentSpreadRecord>,
    directives: Vec<DirectiveRecord>,
    arguments: Vec<ArgumentRecord>,
    variables: Vec<VariableDefinitionRecord>,
    types: Vec<TypeRecord>,
    values: Vec<ValueRecord>,
    directive_cursor: DirectiveId,
    variable_definition_cursor: VariableDefinitionId,
}

impl View for ExecutableAstWriter {
    type V = ExecutableContents;

    closed spec fn view(&self) -> ExecutableContents {
        ExecutableContents {
            strings: string_set_contents(self.strings),
            block_strings: self.block_strings@.map_values(|s: String| s@),
            definitions: self.definitions@,
            operations: self.operations@,
            fragments: self.fragments@,
            selections: self.selections@,
            field_selections: self.field_selections@,
            inline_fragments: self.inline_fragments@,
            fragment_spreads: self.fragment_spreads@,
            directives: self.directives@,
            arguments: self.arguments@,
            variables: self.variables@,
            types: self.types@,
            values: self.values@,
        }
    }
}

impl Default for ExecutableAstWriter {
    fn default() -> (writer: Self)
        ensures
            writer.wf(),
            writer@ == ExecutableContents::empty(),
            writer.directive_cursor() == 0,
            writer.variable_cursor() == 0,
    {
        let writer = ExecutableAstWriter {
            strings: strings::new_string_set(),
            block_strings: Vec::new(),
            definitions: Vec::new(),
            operations: Vec::new(),
            fragments: Vec::new(),
            selections: Vec::new(),
            field_selections: Vec::new(),
            inline_fragments: Vec::new(),
            fragment_spreads: Vec::new(),
            directives: Vec::new(),
            arguments: Vec::new(),
            variables: Vec::new(),
            types: Vec::new(),
            values: Vec::new(),
            directive_cursor: DirectiveId::new(0),
            variable_definition_cursor: VariableDefinitionId::new(0),
        };
        proof {
            assert(writer.block_strings@.map_values(|s: String| s@) =~= Seq::<Seq<char>>::empty());
            assert(writer@ =~= ExecutableContents::empty());
        }
        writer
    }
}

impl ExecutableAstWriter {
    /// The first directive that no range handed out so far covers.
    pub closed spec fn directive_cursor(&self) -> nat {
        self.directive_cursor.index()
    }

    /// The first variable definition that no range handed out so far covers.
    pub closed spec fn variable_cursor(&self) -> nat {
        self.variable_definition_cursor.index()
    }

    pub closed spec fn wf(&self) -> bool {
        &&& self@.wf()
        &&& self.directive_cursor.wf()
        &&& self.directive_cursor.index() <= self.directives.len()
        &&& self.variable_definition_cursor.wf()
        &&& self.variable_definition_cursor.index() <= self.variables.len()
    }

    /// A well-formed writer holds no string twice, so interning into it
    /// gives equal identifiers exactly for equal strings (see
    /// `law_intern_ids_match`).
    pub proof fn lemma_strings_distinct(&self)
        requires
            self.wf(),
        ensures
            all_distinct(self@.strings),
    {
    }

    pub fn new() -> (writer: Self)
        ensures
            writer.wf(),
            writer@ == ExecutableContents::empty(),
            writer.directive_cursor() == 0,
            writer.variable_cursor() == 0,
    {
        Self::default()
    }

    /// The finished document, which holds everything written.
    pub fn finish(self) -> (document: ExecutableDocument)
        requires
            self.wf(),
        ensures
            document.wf(),
            document@ == self@,
    {
        ExecutableDocument::from_parts(
            self.strings,
            self.block_strings,
            self.definitions,
            self.operations,
            self.fragments,
            self.selections,
            self.field_selections,
            self.inline_fragments,
            self.fragment_spreads,
            self.directives,
            self.arguments,
            self.variables,
            self.types,
            self.values,
        )
    }

    /// Stores an operation and a definition that refers to it.
    pub fn operation_definition(&mut self, definition: OperationDefinitionRecord) -> (id: ExecutableDefinitionId)
        requires
            old(self).wf(),
            old(self)@.operations.len() < u32::MAX,
            old(self)@.definitions.len() < u32::MAX,
        ensures
            final(self).wf(),
            final(self)@ == old(self)@.with_operation(definition),
            final(self).directive_cursor() == old(self).directive_cursor(),
            final(self).variable_cursor() == old(self).variable_cursor(),
            id == ExecutableDefinitionId::at(old(self)@.definitions.len()),
    {
        let id = OperationDefinitionId::new(self.operations.len());
        self.operations.push(definition);
        let definition_id = ExecutableDefinitionId::new(self.definitions.len());
        self.definitions.push(ExecutableDefinitionRecord::Operation(id));
        proof {
            assert(self@ =~= old(self)@.with_operation(definition));
        }
        definition_id
    }

    /// Stores a fragment and a definition that refers to it.
    pub fn fragment_definition(&mut self, definition: FragmentDefinitionRecord) -> (id: ExecutableDefinitionId)
        requires
            old(self).wf(),
            old(self)@.fragments.len() < u32::MAX,
            old(self)@.definitions.len() < u32::MAX,
        ensures
            final(self).wf(),
            final(self)@ == old(self)@.with_fragment(definition),
            final(self).directive_cursor() == old(self).directive_cursor(),
            final(self).variable_cursor() == old(self).variable_cursor(),
            id == ExecutableDefinitionId::at(old(self)@.definitions.len()),
    {
        let id = FragmentDefinitionId::new(self.fragments.len());
        self.fragments.push(definition);
        let definition_id = ExecutableDefinitionId::new(self.definitions.len());
        self.definitions.push(ExecutableDefinitionRecord::Fragment(id));
        proof {
            assert(self@ =~= old(self)@.with_fragment(definition));
        }
        definition_id
    }

    /// Stores `record` and returns its identifier.
    pub fn variable_definition(&mut self, record: VariableDefinitionRecord) -> (id: VariableDefinitionId)
        requires
            old(self).wf(),
            old(self)@.variables.len() < u32::MAX,
        ensures
            final(self).wf(),
            final(self)@ == (ExecutableContents { variables: old(self)@.variables.push(record), ..old(self)@ }),
            final(self).directive_cursor() == old(self).directive_cursor(),
            final(self).variable_cursor() == old(self).variable_cursor(),
            id == VariableDefinitionId::at(old(self)@.variables.len()),
    {
        let id = VariableDefinitionId::new(self.variables.len());
        self.variables.push(record);
        id
    }

    /// Stores `ty` and returns its identifier.
    pub fn type_reference(&mut self, ty: TypeRecord) -> (id: TypeId)
        requires
            old(self).wf(),
            old(self)@.types.len() < u32::MAX,
        ensures
            final(self).wf(),
            final(self)@ == (ExecutableContents { types: old(self)@.types.push(ty), ..old(self)@ }),
            final(self).directive_cursor() == old(self).directive_cursor(),
            final(self).variable_cursor() == old(self).variable_cursor(),
            id == TypeId::at(old(self)@.types.len()),
    {
        let id = TypeId::new(self.types.len());
        self.types.push(ty);
        id
    }

    /// Stores `value` and returns its identifier.
    pub fn value(&mut self, value: ValueRecord) -> (id: ValueId)
        requires
            old(self).wf(),
            old(self)@.values.len() < u32::MAX,
        ensures
            final(self).wf(),
            final(self)@ == (ExecutableContents { values: old(self)@.values.push(value), ..old(self)@ }),
            final(self).directive_cursor() == old(self).directive_cursor(),
            final(self).variable_cursor() == old(self).variable_cursor(),
            id == ValueId::at(old(self)@.values.len()),
    {
        let id = ValueId::new(self.values.len());
        self.values.push(value);
        id
    }

    /// Stores `record` and returns its identifier.
    pub fn field_selection(&mut self, record: FieldSelectionRecord) -> (id: FieldSelectionId)
        requires
            old(self).wf(),
            old(self)@.field_selections.len() < u32::MAX,
        ensures
            final(self).wf(),
            final(self)@ == (ExecutableContents { field_selections: old(self)@.field_selections.push(record), ..old(self)@ }),
            final(self).directive_cursor() == old(self).directive_cursor(),
            final(self).variable_cursor() == old(self).variable_cursor(),
            id == FieldSelectionId::at(old(self)@.field_selections.len()),
    {
        let id = FieldSelectionId::new(self.field_selections.len());
        self.field_selections.push(record);
        id
    }

    /// Stores `record` and returns its identifier.
    pub fn fragment_spread(&mut self, record: FragmentSpreadRecord) -> (id: FragmentSpreadId)
        requires
            old(self).wf(),
            old(self)@.fragment_spreads.len() < u32::MAX,
        ensures
            final(self).wf(),
            final(self)@ == (ExecutableContents { fragment_spreads: old(self)@.fragment_spreads.push(record), ..old(self)@ }),
            final(self).directive_cursor() == old(self).directive_cursor(),
            final(self).variable_cursor() == old(self).variable_cursor(),
            id == FragmentSpreadId::at(old(self)@.fragment_spreads.len()),
    {
        let id = FragmentSpreadId::new(self.fragment_spreads.len());
        self.fragment_spreads.push(record);
        id
    }

    /// Stores `record` and returns its identifier.
    pub fn inline_fragment(&mut self, record: InlineFragmentRecord) -> (id: InlineFragmentId)
        requires
            old(self).wf(),
            old(self)@.inline_fragments.len() < u32::MAX,
        ensures
            final(self).wf(),
            final(self)@ == (ExecutableContents { inline_fragments: old(self)@.inline_fragments.push(record), ..old(self)@ }),
            final(self).directive_cursor() == old(self).directive_cursor(),
            final(self).variable_cursor() == old(self).variable_cursor(),
            id == InlineFragmentId::at(old(self)@.inline_fragments.len()),
    {
        let id = InlineFragmentId::new(self.inline_fragments.len());
        self.inline_fragments.push(record);
        id
    }

    /// Stores `directive` and returns its identifier.
    pub fn directive(&mut self, directive: DirectiveRecord) -> (id: DirectiveId)
        requires
            old(self).wf(),
            old(self)@.directives.len() < u32::MAX,
        ensures
            final(self).wf(),
            final(self)@ == (ExecutableContents { directives: old(self)@.directives.push(directive), ..old(self)@ }),
            final(self).directive_cursor() == old(self).directive_cursor(),
            final(self).variable_cursor() == old(self).variable_cursor(),
            id == DirectiveId::at(old(self)@.directives.len()),
    {
        let id = DirectiveId::new(self.directives.len());
        self.directives.push(directive);
        id
    }

    /// The variable definitions stored since the last range was handed out.
    /// The expected count must match the number stored, where given (none
    /// is 0).
    pub fn variable_definition_range(&mut self, expected_count: Option<usize>) -> (range: IdRange<VariableDefinitionId>)
        requires
            old(self).wf(),
            old(self)@.variables.len() < u32::MAX,
            old(self)@.variables.len() - old(self).variable_cursor() == match expected_count {
                Some(n) => n as int,
                None => 0,
            },
        ensures
            final(self).wf(),
            final(self)@ == old(self)@,
            final(self).directive_cursor() == old(self).directive_cursor(),
            final(self).variable_cursor() == old(self)@.variables.len(),
            range.start == VariableDefinitionId::at(old(self).variable_cursor()),
            range.end == VariableDefinitionId::at(old(self)@.variables.len()),
    {
        let start = self.variable_definition_cursor;
        let end = VariableDefinitionId::new(self.variables.len());
        self.variable_definition_cursor = end;
        proof {
            VariableDefinitionId::lemma_at(start.index());
            VariableDefinitionId::lemma_index_injective(start, VariableDefinitionId::at(start.index()));
        }
        IdRange::new(start, end)
    }

    /// The directives stored since the last range was handed out.  The
    /// expected count must match the number stored, where given (none is 0).
    pub fn directive_range(&mut self, expected_count: Option<usize>) -> (range: IdRange<DirectiveId>)
        requires
            old(self).wf(),
            old(self)@.directives.len() < u32::MAX,
            old(self)@.directives.len() - old(self).directive_cursor() == match expected_count {
                Some(n) => n as int,
                None => 0,
            },
        ensures
            final(self).wf(),
            final(self)@ == old(self)@,
            final(self).variable_cursor() == old(self).variable_cursor(),
            final(self).directive_cursor() == old(self)@.directives.len(),
            range.start == DirectiveId::at(old(self).directive_cursor()),
            range.end == DirectiveId::at(old(self)@.directives.len()),
    {
        let start = self.directive_cursor;
        let end = DirectiveId::new(self.directives.len());
        self.directive_cursor = end;
        proof {
            DirectiveId::lemma_at(start.index());
            DirectiveId::lemma_index_injective(start, DirectiveId::at(start.index()));
        }
        IdRange::new(start, end)
    }

    /// Stores the selections of a selection set, in order, and returns their range.
    pub fn selection_set(&mut self, selection_set: Vec<SelectionRecord>) -> (range: IdRange<SelectionId>)
        requires
            old(self).wf(),
            old(self)@.selections.len() + selection_set.len() < u32::MAX,
        ensures
            final(self).wf(),
            final(self)@ == (ExecutableContents { selections: old(self)@.selections + selection_set@, ..old(self)@ }),
            final(self).directive_cursor() == old(self).directive_cursor(),
            final(self).variable_cursor() == old(self).variable_cursor(),
            range.start == SelectionId::at(old(self)@.selections.len()),
            range.end == SelectionId::at((old(self)@.selections.len() + selection_set.len()) as nat),
    {
        let ghost given = selection_set@;
        let mut selection_set = selection_set;
        let start = SelectionId::new(self.selections.len());
        self.selections.append(&mut selection_set);
        let end = SelectionId::new(self.selections.len());
        proof {
            assert(self@ =~= (ExecutableContents { selections: old(self)@.selections + given, ..old(self)@ }));
        }
        IdRange::new(start, end)
    }

    /// Stores the arguments of a field or directive, in order, and returns their range.
    pub fn arguments(&mut self, records: Vec<ArgumentRecord>) -> (range: IdRange<ArgumentId>)
        requires
            old(self).wf(),
            old(self)@.arguments.len() + records.len() < u32::MAX,
        ensures
            final(self).wf(),
            final(self)@ == (ExecutableContents { arguments: old(self)@.arguments + records@, ..old(self)@ }),
            final(self).directive_cursor() == old(self).directive_cursor(),
            final(self).variable_cursor() == old(self).variable_cursor(),
            range.start == ArgumentId::at(old(self)@.arguments.len()),
            range.end == ArgumentId::at((old(self)@.arguments.len() + records.len()) as nat),
    {
        let ghost given = records@;
        let mut records = records;
        let start = ArgumentId::new(self.arguments.len());
        self.arguments.append(&mut records);
        let end = ArgumentId::new(self.arguments.len());
        proof {
            assert(self@ =~= (ExecutableContents { arguments: old(self)@.arguments + given, ..old(self)@ }));
        }
        IdRange::new(start, end)
    }

    /// Stores a block string and returns its identifier.
    pub fn block_string(&mut self, string: &str) -> (id: BlockStringLiteralId)
        requires
            old(self).wf(),
            old(self)@.block_strings.len() < u32::MAX,
        ensures
            final(self).wf(),
            final(self)@ == (ExecutableContents { block_strings: old(self)@.block_strings.push(string@), ..old(self)@ }),
            final(self).directive_cursor() == old(self).directive_cursor(),
            final(self).variable_cursor() == old(self).variable_cursor(),
            id == BlockStringLiteralId::at(old(self)@.block_strings.len()),
    {
        let id = BlockStringLiteralId::new(self.block_strings.len());
        self.block_strings.push(string.to_owned());
        proof {
            assert(self.block_strings@.map_values(|s: String| s@) =~= old(self).block_strings@.map_values(|s: String| s@).push(string@));
            assert(self@ =~= (ExecutableContents { block_strings: old(self)@.block_strings.push(string@), ..old(self)@ }));
        }
        id
    }

    /// Interns a name.
    pub fn ident(&mut self, ident: &str) -> (id: StringId)
        requires
            old(self).wf(),
            old(self)@.strings.len() < u32::MAX,
        ensures
            final(self).wf(),
            final(self)@ == old(self)@.with_string(ident@),
            final(self).directive_cursor() == old(self).directive_cursor(),
            final(self).variable_cursor() == old(self).variable_cursor(),
            id == StringId::at(interned(old(self)@.strings, ident@).1),
    {
        self.intern_string(ident)
    }

    /// Interns `string`: an equal string already interned keeps its
    /// identifier; a new one is appended to the pool.
    pub fn intern_string(&mut self, string: &str) -> (id: StringId)
        requires
            old(self).wf(),
            old(self)@.strings.len() < u32::MAX,
        ensures
            final(self).wf(),
            final(self)@ == old(self)@.with_string(string@),
            final(self).directive_cursor() == old(self).directive_cursor(),
            final(self).variable_cursor() == old(self).variable_cursor(),
            id == StringId::at(interned(old(self)@.strings, string@).1),
    {
        self.intern_owned_string(string.to_owned())
    }

    /// Interns `string`, as [`ExecutableAstWriter::intern_string`] does.
    pub fn intern_owned_string(&mut self, string: String) -> (id: StringId)
        requires
            old(self).wf(),
            old(self)@.strings.len() < u32::MAX,
        ensures
            final(self).wf(),
            final(self)@ == old(self)@.with_string(string@),
            final(self).directive_cursor() == old(self).directive_cursor(),
            final(self).variable_cursor() == old(self).variable_cursor(),
            id == StringId::at(interned(old(self)@.strings, string@).1),
    {
        let ghost s = string@;
        let ghost pool = old(self)@.strings;
        let (index, _) = strings::insert_full(&mut self.strings, string);
        proof {
            if pool.contains(s) {
                let c = choose|i: nat| i < pool.len() && pool[i as int] == s;
                assert(c < pool.len() && pool[c as int] == s);
                assert(c == index);
            } else {
                assert forall|i: int, j: int|
                    0 <= i < pool.len() + 1 && 0 <= j < pool.len() + 1 && i != j implies pool.push(s)[i] != pool.push(s)[j] by {
                    if i == pool.len() {
                        assert(pool[j] != s);
                    } else if j == pool.len() {
                        assert(pool[i] != s);
                    }
                }
            }
            assert(self@ =~= old(self)@.with_string(s));
        }
        StringId::new(index)
    }
}

} // verus!

//! The mathematical model of an executable document: what each of its
//! vectors holds, and how each operation of the writer changes it.
use vstd::prelude::*;

use super::ids::{
    ArgumentId, BlockStringLiteralId, DirectiveId, ExecutableDefinitionId, FieldSelectionId,
    FragmentDefinitionId, FragmentSpreadId, InlineFragmentId, OperationDefinitionId, SelectionId,
    StringId, TypeId, VariableDefinitionId,
};
use super::storage::{
    ArgumentRecord, DirectiveRecord, ExecutableDefinitionRecord, FieldSelectionRecord,
    FragmentDefinitionRecord, FragmentSpreadRecord, InlineFragmentRecord,
    OperationDefinitionRecord, SelectionRecord, TypeRecord, ValueRecord, VariableDefinitionRecord,
};
use super::strings::all_distinct;

verus! {

/// Everything an executable document holds.
pub struct ExecutableContents {
    pub strings: Seq<Seq<char>>,
    pub block_strings: Seq<Seq<char>>,
    pub definitions: Seq<ExecutableDefinitionRecord>,
    pub operations: Seq<OperationDefinitionRecord>,
    pub fragments: Seq<FragmentDefinitionRecord>,
    pub selections: Seq<SelectionRecord>,
    pub field_selections: Seq<FieldSelectionRecord>,
    pub inline_fragments: Seq<InlineFragmentRecord>,
    pub fragment_spreads: Seq<FragmentSpreadRecord>,
    pub directives: Seq<DirectiveRecord>,
    pub arguments: Seq<ArgumentRecord>,
    pub variables: Seq<VariableDefinitionRecord>,
    pub types: Seq<TypeRecord>,
    pub values: Seq<ValueRecord>,
}

/// The pool after interning `s`, and the index of `s` in it: an equal
/// string keeps its index; a new one is appended.
pub open spec fn interned(strings: Seq<Seq<char>>, s: Seq<char>) -> (Seq<Seq<char>>, nat) {
    if strings.contains(s) {
        (strings, choose|i: nat| i < strings.len() && strings[i as int] == s)
    } else {
        (strings.push(s), strings.len())
    }
}

impl ExecutableContents {
    pub open spec fn empty() -> Self {
        ExecutableContents {
            strings: Seq::empty(),
            block_strings: Seq::empty(),
            definitions: Seq::empty(),
            operations: Seq::empty(),
            fragments: Seq::empty(),
            selections: Seq::empty(),
            field_selections: Seq::empty(),
            inline_fragments: Seq::empty(),
            fragment_spreads: Seq::empty(),
            directives: Seq::empty(),
            arguments: Seq::empty(),
            variables: Seq::empty(),
            types: Seq::empty(),
            values: Seq::empty(),
        }
    }

    /// Every definition refers to an operation or fragment that is there,
    /// and no interned string occurs twice.
    pub open spec fn wf(self) -> bool {
        &&& all_distinct(self.strings)
        &&& forall|i: int|
            #![trigger self.definitions[i]]
            0 <= i < self.definitions.len() ==> match self.definitions[i] {
                ExecutableDefinitionRecord::Operation(id) => id.wf() && id.index()
                    < self.operations.len(),
                ExecutableDefinitionRecord::Fragment(id) => id.wf() && id.index()
                    < self.fragments.len(),
            }
    }

    pub open spec fn with_operation(self, record: OperationDefinitionRecord) -> Self {
        ExecutableContents {
            operations: self.operations.push(record),
            definitions: self.definitions.push(
                ExecutableDefinitionRecord::Operation(
                    OperationDefinitionId::at(self.operations.len()),
                ),
            ),
            ..self
        }
    }

    pub open spec fn with_fragment(self, record: FragmentDefinitionRecord) -> Self {
        ExecutableContents {
            fragments: self.fragments.push(record),
            definitions: self.definitions.push(
                ExecutableDefinitionRecord::Fragment(FragmentDefinitionId::at(self.fragments.len())),
            ),
            ..self
        }
    }

    pub open spec fn with_string(self, s: Seq<char>) -> Self {
        ExecutableContents { strings: interned(self.strings, s).0, ..self }
    }

    /// The operations of the document, in the order of its definitions.
    pub open spec fn operation_ids(self) -> Seq<OperationDefinitionId> {
        operation_ids_of(self.definitions)
    }

    /// The fragments of the document, in the order of its definitions.
    pub open spec fn fragment_ids(self) -> Seq<FragmentDefinitionId> {
        fragment_ids_of(self.definitions)
    }

    /// The text of the string `id`.
    pub open spec fn text(self, id: StringId) -> Seq<char> {
        self.strings[id.index() as int]
    }

    /// Every fragment's name is an interned string.
    pub open spec fn fragment_names_valid(self) -> bool {
        forall|j: int|
            #![trigger self.fragments[j]]
            0 <= j < self.fragments.len() ==> self.fragments[j].name.wf()
                && self.fragments[j].name.index() < self.strings.len()
    }
}

/// The operations among `definitions`, in order.
pub open spec fn operation_ids_of(definitions: Seq<ExecutableDefinitionRecord>) -> Seq<
    OperationDefinitionId,
>
    decreases definitions.len(),
{
    if definitions.len() == 0 {
        Seq::empty()
    } else {
        let rest = operation_ids_of(definitions.drop_last());
        match definitions.last() {
            ExecutableDefinitionRecord::Operation(id) => rest.push(id),
            ExecutableDefinitionRecord::Fragment(_) => rest,
        }
    }
}

/// The fragments among `definitions`, in order.
pub open spec fn fragment_ids_of(definitions: Seq<ExecutableDefinitionRecord>) -> Seq<
    FragmentDefinitionId,
>
    decreases definitions.len(),
{
    if definitions.len() == 0 {
        Seq::empty()
    } else {
        let rest = fragment_ids_of(definitions.drop_last());
        match definitions.last() {
            ExecutableDefinitionRecord::Fragment(id) => rest.push(id),
            ExecutableDefinitionRecord::Operation(_) => rest,
        }
    }
}

/// The position of the first fragment at or after position `k` of `ids`
/// whose name is `name`.
pub open spec fn find_fragment(
    contents: ExecutableContents,
    ids: Seq<FragmentDefinitionId>,
    name: Seq<char>,
    k: int,
) -> Option<int>
    decreases ids.len() - k,
{
    if k < 0 || k >= ids.len() {
        None
    } else if contents.text(contents.fragments[ids[k].index() as int].name) == name {
        Some(k)
    } else {
        find_fragment(contents, ids, name, k + 1)
    }
}

} // verus!

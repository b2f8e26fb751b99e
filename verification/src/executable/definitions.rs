//! Readers of definitions: operations and fragments.
use vstd::prelude::*;

use super::contents::ExecutableContents;
use super::document::{lemma_fragment_ids_valid, lemma_operation_ids_valid, ExecutableDocument};
use super::ids::{
    DirectiveId, ExecutableDefinitionId, FragmentDefinitionId, OperationDefinitionId,
    SelectionId, VariableDefinitionId,
};
use super::readers::{
    directives_stored, read_directives, read_variables, variables_stored, Directive,
    ExecutableId, VariableDefinition,
};
use super::selections::{
    optional_string_stored, optional_text, read_optional_string, read_selections,
    selections_stored, Selection,
};
use super::storage::{
    ExecutableDefinitionRecord, FragmentDefinitionRecord, OperationDefinitionRecord, OperationType,
};
use crate::span::Span;
use super::node_display::{displayable, fragment_text, operation_text, write_fragment, write_operation};

verus! {

/// An operation: a query, a mutation or a subscription.
#[derive(Clone, Copy)]
pub struct OperationDefinition<'a> {
    document: &'a ExecutableDocument,
    id: OperationDefinitionId,
}

impl<'a> OperationDefinition<'a> {
    #[verifier::type_invariant]
    spec fn stored(self) -> bool {
        self.id.index() < self.document@.operations.len()
    }

    /// The contents of the document it reads.
    pub closed spec fn contents(&self) -> ExecutableContents {
        self.document@
    }

    pub closed spec fn spec_id(&self) -> OperationDefinitionId {
        self.id
    }

    pub open spec fn record(&self) -> OperationDefinitionRecord {
        self.contents().operations[self.spec_id().index() as int]
    }

    pub fn id(&self) -> (id: OperationDefinitionId)
        ensures
            id == self.spec_id(),
    {
        self.id
    }

    pub fn operation_type(&self) -> (operation_type: OperationType)
        ensures
            operation_type == self.record().operation_type,
    {
        proof {
            use_type_invariant(self);
        }
        self.document.operation(self.id).operation_type
    }

    pub fn operation_type_span(&self) -> (span: Option<Span>)
        ensures
            span == self.record().operation_type_span,
    {
        proof {
            use_type_invariant(self);
        }
        self.document.operation(self.id).operation_type_span
    }

    /// The name of the operation, where it has one.
    pub fn name(&self) -> (name: Option<&'a str>)
        requires
            optional_string_stored(self.contents(), self.record().name),
        ensures
            optional_text(self.contents(), self.record().name, name),
    {
        proof {
            use_type_invariant(self);
        }
        read_optional_string(self.document, self.document.operation(self.id).name)
    }

    pub fn name_span(&self) -> (span: Option<Span>)
        ensures
            span == self.record().name_span,
    {
        proof {
            use_type_invariant(self);
        }
        self.document.operation(self.id).name_span
    }

    /// The operation's variable definitions, in order.
    pub fn variable_definitions(&self) -> (variables: Vec<VariableDefinition<'a>>)
        requires
            variables_stored(self.contents(), self.record().variable_definitions),
        ensures
            variables.len() == self.record().variable_definitions.count(),
            forall|i: int|
                0 <= i < variables.len() ==> (#[trigger] variables[i]).contents() == self.contents()
                    && variables[i].spec_id() == VariableDefinitionId::at(
                    (self.record().variable_definitions.start.index() + i) as nat,
                ),
    {
        proof {
            use_type_invariant(self);
        }
        read_variables(self.document, self.document.operation(self.id).variable_definitions)
    }

    /// The operation's directives, in order.
    pub fn directives(&self) -> (directives: Vec<Directive<'a>>)
        requires
            directives_stored(self.contents(), self.record().directives),
        ensures
            directives.len() == self.record().directives.count(),
            forall|i: int|
                0 <= i < directives.len() ==> (#[trigger] directives[i]).contents() == self.contents()
                    && directives[i].spec_id() == DirectiveId::at(
                    (self.record().directives.start.index() + i) as nat,
                ),
    {
        proof {
            use_type_invariant(self);
        }
        read_directives(self.document, self.document.operation(self.id).directives)
    }

    /// The selections of the operation, in order.
    pub fn selection_set(&self) -> (selections: Vec<Selection<'a>>)
        requires
            selections_stored(self.contents(), self.record().selection_set),
        ensures
            selections.len() == self.record().selection_set.count(),
            forall|i: int|
                0 <= i < selections.len() ==> SelectionId::at(
                    (self.record().selection_set.start.index() + i) as nat,
                ).reads(self.contents(), #[trigger] selections[i]),
    {
        proof {
            use_type_invariant(self);
        }
        read_selections(self.document, self.document.operation(self.id).selection_set)
    }

    pub fn selection_set_span(&self) -> (span: Span)
        ensures
            span == self.record().selection_set_span,
    {
        proof {
            use_type_invariant(self);
        }
        self.document.operation(self.id).selection_set_span
    }
}

impl<'a> OperationDefinition<'a> {
    /// The operation as written, ended by a newline:
    /// `query Name($v: T) @directives { ... }`.
    pub fn to_string(&self) -> (text: String)
        requires
            displayable(self.contents()),
        ensures
            text@ == operation_text(self.contents(), self.spec_id().index() as int),
    {
        proof {
            use_type_invariant(self);
        }
        let mut text = String::new();
        write_operation(self.document, &mut text, self.id);
        text
    }
}

impl ExecutableId for OperationDefinitionId {
    type Reader<'a> = OperationDefinition<'a>;

    open spec fn readable(self, contents: ExecutableContents) -> bool {
        self.index() < contents.operations.len()
    }

    open spec fn reads<'a>(self, contents: ExecutableContents, reader: OperationDefinition<'a>) -> bool {
        reader.contents() == contents && reader.spec_id() == self
    }

    fn read<'a>(self, document: &'a ExecutableDocument) -> (reader: OperationDefinition<'a>) {
        OperationDefinition { document, id: self }
    }
}

/// A fragment definition.
#[derive(Clone, Copy)]
pub struct FragmentDefinition<'a> {
    document: &'a ExecutableDocument,
    id: FragmentDefinitionId,
}

impl<'a> FragmentDefinition<'a> {
    #[verifier::type_invariant]
    spec fn stored(self) -> bool {
        self.id.index() < self.document@.fragments.len()
    }

    /// The contents of the document it reads.
    pub closed spec fn contents(&self) -> ExecutableContents {
        self.document@
    }

    pub closed spec fn spec_id(&self) -> FragmentDefinitionId {
        self.id
    }

    pub open spec fn record(&self) -> FragmentDefinitionRecord {
        self.contents().fragments[self.spec_id().index() as int]
    }

    pub fn id(&self) -> (id: FragmentDefinitionId)
        ensures
            id == self.spec_id(),
    {
        self.id
    }

    /// The name of the fragment.
    pub fn name(&self) -> (name: &'a str)
        requires
            self.record().name.index() < self.contents().strings.len(),
        ensures
            name@ == self.contents().text(self.record().name),
    {
        proof {
            use_type_invariant(self);
        }
        self.document.string(self.document.fragment(self.id).name)
    }

    pub fn name_span(&self) -> (span: Span)
        ensures
            span == self.record().name_span,
    {
        proof {
            use_type_invariant(self);
        }
        self.document.fragment(self.id).name_span
    }

    /// The type the fragment applies to.
    pub fn type_condition(&self) -> (on: &'a str)
        requires
            self.record().type_condition.index() < self.contents().strings.len(),
        ensures
            on@ == self.contents().text(self.record().type_condition),
    {
        proof {
            use_type_invariant(self);
        }
        self.document.string(self.document.fragment(self.id).type_condition)
    }

    pub fn type_condition_span(&self) -> (span: Span)
        ensures
            span == self.record().type_condition_span,
    {
        proof {
            use_type_invariant(self);
        }
        self.document.fragment(self.id).type_condition_span
    }

    /// The fragment's directives, in order.
    pub fn directives(&self) -> (directives: Vec<Directive<'a>>)
        requires
            directives_stored(self.contents(), self.record().directives),
        ensures
            directives.len() == self.record().directives.count(),
            forall|i: int|
                0 <= i < directives.len() ==> (#[trigger] directives[i]).contents() == self.contents()
                    && directives[i].spec_id() == DirectiveId::at(
                    (self.record().directives.start.index() + i) as nat,
                ),
    {
        proof {
            use_type_invariant(self);
        }
        read_directives(self.document, self.document.fragment(self.id).directives)
    }

    /// The selections of the fragment, in order.
    pub fn selection_set(&self) -> (selections: Vec<Selection<'a>>)
        requires
            selections_stored(self.contents(), self.record().selection_set),
        ensures
            selections.len() == self.record().selection_set.count(),
            forall|i: int|
                0 <= i < selections.len() ==> SelectionId::at(
                    (self.record().selection_set.start.index() + i) as nat,
                ).reads(self.contents(), #[trigger] selections[i]),
    {
        proof {
            use_type_invariant(self);
        }
        read_selections(self.document, self.document.fragment(self.id).selection_set)
    }

    pub fn selection_set_span(&self) -> (span: Span)
        ensures
            span == self.record().selection_set_span,
    {
        proof {
            use_type_invariant(self);
        }
        self.document.fragment(self.id).selection_set_span
    }
}

impl<'a> FragmentDefinition<'a> {
    /// The fragment as written, ended by a newline:
    /// `fragment Name on Type @directives { ... }`.
    pub fn to_string(&self) -> (text: String)
        requires
            displayable(self.contents()),
        ensures
            text@ == fragment_text(self.contents(), self.spec_id().index() as int),
    {
        proof {
            use_type_invariant(self);
        }
        let mut text = String::new();
        write_fragment(self.document, &mut text, self.id);
        text
    }
}

impl ExecutableId for FragmentDefinitionId {
    type Reader<'a> = FragmentDefinition<'a>;

    open spec fn readable(self, contents: ExecutableContents) -> bool {
        self.index() < contents.fragments.len()
    }

    open spec fn reads<'a>(self, contents: ExecutableContents, reader: FragmentDefinition<'a>) -> bool {
        reader.contents() == contents && reader.spec_id() == self
    }

    fn read<'a>(self, document: &'a ExecutableDocument) -> (reader: FragmentDefinition<'a>) {
        FragmentDefinition { document, id: self }
    }
}

/// A definition of an executable document.
#[derive(Clone, Copy)]
pub enum ExecutableDefinition<'a> {
    Operation(OperationDefinition<'a>),
    Fragment(FragmentDefinition<'a>),
}

impl ExecutableId for ExecutableDefinitionId {
    type Reader<'a> = ExecutableDefinition<'a>;

    open spec fn readable(self, contents: ExecutableContents) -> bool {
        &&& self.index() < contents.definitions.len()
        &&& match contents.definitions[self.index() as int] {
            ExecutableDefinitionRecord::Operation(id) => id.index() < contents.operations.len(),
            ExecutableDefinitionRecord::Fragment(id) => id.index() < contents.fragments.len(),
        }
    }

    open spec fn reads<'a>(self, contents: ExecutableContents, reader: ExecutableDefinition<'a>) -> bool {
        match contents.definitions[self.index() as int] {
            ExecutableDefinitionRecord::Operation(id) => reader matches ExecutableDefinition::Operation(
                o,
            ) && o.contents() == contents && o.spec_id() == id,
            ExecutableDefinitionRecord::Fragment(id) => reader matches ExecutableDefinition::Fragment(
                f,
            ) && f.contents() == contents && f.spec_id() == id,
        }
    }

    fn read<'a>(self, document: &'a ExecutableDocument) -> (reader: ExecutableDefinition<'a>) {
        match document.definition(self) {
            ExecutableDefinitionRecord::Operation(id) => ExecutableDefinition::Operation(
                OperationDefinition { document, id: *id },
            ),
            ExecutableDefinitionRecord::Fragment(id) => ExecutableDefinition::Fragment(
                FragmentDefinition { document, id: *id },
            ),
        }
    }
}

impl ExecutableDocument {
    /// The definitions, in order.
    pub fn definitions(&self) -> (definitions: Vec<ExecutableDefinition<'_>>)
        requires
            self.wf(),
            self@.definitions.len() <= u32::MAX,
        ensures
            definitions.len() == self@.definitions.len(),
            forall|i: int|
                0 <= i < definitions.len() ==> ExecutableDefinitionId::at(i as nat).reads(
                    self@,
                    #[trigger] definitions[i],
                ),
    {
        let ids = self.definition_ids();
        let mut out: Vec<ExecutableDefinition<'_>> = Vec::new();
        let mut i: usize = 0;
        while i < ids.len()
            invariant
                self.wf(),
                i <= ids.len(),
                ids.len() == self@.definitions.len() <= u32::MAX,
                forall|j: int| 0 <= j < ids.len() ==> ids[j] == ExecutableDefinitionId::at(j as nat),
                out.len() == i,
                forall|j: int|
                    0 <= j < i ==> ExecutableDefinitionId::at(j as nat).reads(self@, #[trigger] out[j]),
            decreases ids.len() - i,
        {
            proof {
                ExecutableDefinitionId::lemma_at(i as nat);
            }
            out.push(ids[i].read(self));
            i = i + 1;
        }
        out
    }

    /// The operations, in the order of the definitions.
    pub fn operations(&self) -> (operations: Vec<OperationDefinition<'_>>)
        requires
            self.wf(),
        ensures
            operations.len() == self@.operation_ids().len(),
            forall|i: int|
                0 <= i < operations.len() ==> (#[trigger] operations[i]).contents() == self@
                    && operations[i].spec_id() == self@.operation_ids()[i],
    {
        let ids = self.operation_ids();
        proof {
            lemma_operation_ids_valid(self@.definitions, self@.operations.len());
        }
        let mut out: Vec<OperationDefinition<'_>> = Vec::new();
        let mut i: usize = 0;
        while i < ids.len()
            invariant
                i <= ids.len(),
                ids@ == self@.operation_ids(),
                forall|j: int|
                    0 <= j < ids.len() ==> (#[trigger] ids[j]).index() < self@.operations.len(),
                out.len() == i,
                forall|j: int|
                    0 <= j < i ==> (#[trigger] out[j]).contents() == self@ && out[j].spec_id()
                        == ids[j],
            decreases ids.len() - i,
        {
            out.push(ids[i].read(self));
            i = i + 1;
        }
        out
    }

    /// The fragments, in the order of the definitions.
    pub fn fragments(&self) -> (fragments: Vec<FragmentDefinition<'_>>)
        requires
            self.wf(),
        ensures
            fragments.len() == self@.fragment_ids().len(),
            forall|i: int|
                0 <= i < fragments.len() ==> (#[trigger] fragments[i]).contents() == self@
                    && fragments[i].spec_id() == self@.fragment_ids()[i],
    {
        let ids = self.fragment_ids();
        proof {
            lemma_fragment_ids_valid(self@.definitions, self@.fragments.len());
        }
        let mut out: Vec<FragmentDefinition<'_>> = Vec::new();
        let mut i: usize = 0;
        while i < ids.len()
            invariant
                i <= ids.len(),
                ids@ == self@.fragment_ids(),
                forall|j: int|
                    0 <= j < ids.len() ==> (#[trigger] ids[j]).index() < self@.fragments.len(),
                out.len() == i,
                forall|j: int|
                    0 <= j < i ==> (#[trigger] out[j]).contents() == self@ && out[j].spec_id()
                        == ids[j],
            decreases ids.len() - i,
        {
            out.push(ids[i].read(self));
            i = i + 1;
        }
        out
    }
}

} // verus!

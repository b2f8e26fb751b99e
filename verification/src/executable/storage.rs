//! The records that an executable document stores, one vector of each.
use vstd::prelude::*;

use super::ids::{
    ArgumentId, DirectiveId, FieldSelectionId, FragmentDefinitionId,
    FragmentSpreadId, IdRange, InlineFragmentId, OperationDefinitionId, SelectionId,
    StringId, TypeId, ValueId, VariableDefinitionId,
};
use crate::span::Span;

verus! {

#[derive(Clone, Copy, Debug, PartialEq, Eq, Structural)]
pub enum OperationType {
    Query,
    Mutation,
    Subscription,
}

#[derive(Clone, Copy, Debug, PartialEq, Eq, Structural)]
pub enum ExecutableDefinitionRecord {
    Operation(OperationDefinitionId),
    Fragment(FragmentDefinitionId),
}

#[derive(Clone, Copy, Debug, PartialEq, Eq, Structural)]
pub struct OperationDefinitionRecord {
    pub operation_type: OperationType,
    pub operation_type_span: Option<Span>,
    pub name: Option<StringId>,
    pub name_span: Option<Span>,
    pub variable_definitions: IdRange<VariableDefinitionId>,
    pub directives: IdRange<DirectiveId>,
    pub selection_set: IdRange<SelectionId>,
    pub selection_set_span: Span,
}

#[derive(Clone, Copy, Debug, PartialEq, Eq, Structural)]
pub struct FragmentDefinitionRecord {
    pub name: StringId,
    pub name_span: Span,
    pub type_condition: StringId,
    pub type_condition_span: Span,
    pub directives: IdRange<DirectiveId>,
    pub selection_set: IdRange<SelectionId>,
    pub selection_set_span: Span,
}

#[derive(Clone, Copy, Debug, PartialEq, Eq, Structural)]
pub enum SelectionRecord {
    Field(FieldSelectionId),
    InlineFragment(InlineFragmentId),
    FragmentSpread(FragmentSpreadId),
}

#[derive(Clone, Copy, Debug, PartialEq, Eq, Structural)]
pub struct FieldSelectionRecord {
    pub alias: Option<StringId>,
    pub alias_span: Option<Span>,
    pub name: StringId,
    pub name_span: Span,
    pub arguments: IdRange<ArgumentId>,
    pub directives: IdRange<DirectiveId>,
    pub selection_set: IdRange<SelectionId>,
    pub selection_set_span: Option<Span>,
}

#[derive(Clone, Copy, Debug, PartialEq, Eq, Structural)]
pub struct InlineFragmentRecord {
    pub type_condition: Option<StringId>,
    pub type_condition_span: Option<Span>,
    pub directives: IdRange<DirectiveId>,
    pub selection_set: IdRange<SelectionId>,
    pub selection_set_span: Span,
}

#[derive(Clone, Copy, Debug, PartialEq, Eq, Structural)]
pub struct FragmentSpreadRecord {
    pub fragment_name: StringId,
    pub fragment_name_span: Span,
    pub directives: IdRange<DirectiveId>,
}

#[derive(Clone, Copy, Debug, PartialEq, Eq, Structural)]
pub struct DirectiveRecord {
    pub name: StringId,
    pub name_span: Span,
    pub arguments: IdRange<ArgumentId>,
}

#[derive(Clone, Copy, Debug, PartialEq, Eq, Structural)]
pub struct ArgumentRecord {
    pub name: StringId,
    pub name_span: Span,
    pub value: ValueId,
}

#[derive(Clone, Copy, Debug, PartialEq, Eq, Structural)]
pub struct VariableDefinitionRecord {
    pub name: StringId,
    pub ty: TypeId,
    pub default_value: Option<ValueId>,
    pub directives: IdRange<DirectiveId>,
    pub span: Span,
}

#[derive(Clone, Copy, Debug, PartialEq, Eq, Structural)]
pub struct NameRecord {
    pub text: StringId,
    pub span: Span,
}

#[derive(Clone, Copy, Debug, PartialEq, Eq, Structural)]
pub struct TypeConditionRecord {
    pub on: StringId,
    pub span: Span,
}

/// A value as stored.  A float is kept as the text of its literal.
#[derive(Clone, Debug, PartialEq, Eq)]
pub enum ValueRecord {
    Variable(StringId),
    Int(i64),
    Float(StringId),
    String(StringId),
    Boolean(bool),
    Null,
    Enum(StringId),
    List(Vec<ValueId>),
    Object(Vec<(StringId, ValueId)>),
}

/// One wrapping of a type reference: a list, or non-null.
#[derive(Clone, Copy, Debug, PartialEq, Eq, Structural)]
pub enum WrappingType {
    NonNull,
    List,
}

/// A type reference: a named type with its wrappers, from the outermost to
/// the innermost.
#[derive(Clone, Debug, PartialEq, Eq)]
pub struct TypeRecord {
    pub name: StringId,
    pub wrappers: Vec<WrappingType>,
}

} // verus!

//! Identifiers of the records of an executable document.
//!
//! An identifier holds the index of its record plus one, so that it is
//! never zero.
use vstd::prelude::*;

verus! {

/// The identifier of an executable definition.
#[derive(Clone, Copy, Debug, Hash, PartialEq, Eq, Structural)]
pub struct ExecutableDefinitionId(u32);

impl ExecutableDefinitionId {
    /// The index of the record.
    pub closed spec fn index(&self) -> nat {
        (self.0 - 1) as nat
    }

    pub closed spec fn wf(&self) -> bool {
        self.0 > 0
    }

    #[verifier::type_invariant]
    spec fn nonzero(self) -> bool {
        self.0 > 0
    }

    /// The identifier of the record at `index`.
    pub closed spec fn at(index: nat) -> Self {
        Self((index + 1) as u32)
    }

    /// The identifier at an index that fits is well formed and has that index.
    pub proof fn lemma_at(index: nat)
        requires
            index < u32::MAX,
        ensures
            Self::at(index).wf(),
            Self::at(index).index() == index,
    {
    }

    /// Two well-formed identifiers with the same index are the same.
    pub proof fn lemma_index_injective(a: Self, b: Self)
        requires
            a.wf(),
            b.wf(),
            a.index() == b.index(),
        ensures
            a == b,
    {
    }

    pub fn new(index: usize) -> (id: Self)
        requires
            index < u32::MAX,
        ensures
            id.wf(),
            id.index() == index,
            id == Self::at(index as nat),
    {
        ExecutableDefinitionId((index + 1) as u32)
    }

    /// The index of the record.
    pub fn get(&self) -> (index: usize)
        ensures
            index == self.index(),
            self.wf(),
    {
        proof {
            use_type_invariant(self);
        }
        (self.0 - 1) as usize
    }
}

/// The identifier of an operation definition.
#[derive(Clone, Copy, Debug, Hash, PartialEq, Eq, Structural)]
pub struct OperationDefinitionId(u32);

impl OperationDefinitionId {
    /// The index of the record.
    pub closed spec fn index(&self) -> nat {
        (self.0 - 1) as nat
    }

    pub closed spec fn wf(&self) -> bool {
        self.0 > 0
    }

    #[verifier::type_invariant]
    spec fn nonzero(self) -> bool {
        self.0 > 0
    }

    /// The identifier of the record at `index`.
    pub closed spec fn at(index: nat) -> Self {
        Self((index + 1) as u32)
    }

    /// The identifier at an index that fits is well formed and has that index.
    pub proof fn lemma_at(index: nat)
        requires
            index < u32::MAX,
        ensures
            Self::at(index).wf(),
            Self::at(index).index() == index,
    {
    }

    /// Two well-formed identifiers with the same index are the same.
    pub proof fn lemma_index_injective(a: Self, b: Self)
        requires
            a.wf(),
            b.wf(),
            a.index() == b.index(),
        ensures
            a == b,
    {
    }

    pub fn new(index: usize) -> (id: Self)
        requires
            index < u32::MAX,
        ensures
            id.wf(),
            id.index() == index,
            id == Self::at(index as nat),
    {
        OperationDefinitionId((index + 1) as u32)
    }

    /// The index of the record.
    pub fn get(&self) -> (index: usize)
        ensures
            index == self.index(),
            self.wf(),
    {
        proof {
            use_type_invariant(self);
        }
        (self.0 - 1) as usize
    }
}

/// The identifier of a fragment definition.
#[derive(Clone, Copy, Debug, Hash, PartialEq, Eq, Structural)]
pub struct FragmentDefinitionId(u32);

impl FragmentDefinitionId {
    /// The index of the record.
    pub closed spec fn index(&self) -> nat {
        (self.0 - 1) as nat
    }

    pub closed spec fn wf(&self) -> bool {
        self.0 > 0
    }

    #[verifier::type_invariant]
    spec fn nonzero(self) -> bool {
        self.0 > 0
    }

    /// The identifier of the record at `index`.
    pub closed spec fn at(index: nat) -> Self {
        Self((index + 1) as u32)
    }

    /// The identifier at an index that fits is well formed and has that index.
    pub proof fn lemma_at(index: nat)
        requires
            index < u32::MAX,
        ensures
            Self::at(index).wf(),
            Self::at(index).index() == index,
    {
    }

    /// Two well-formed identifiers with the same index are the same.
    pub proof fn lemma_index_injective(a: Self, b: Self)
        requires
            a.wf(),
            b.wf(),
            a.index() == b.index(),
        ensures
            a == b,
    {
    }

    pub fn new(index: usize) -> (id: Self)
        requires
            index < u32::MAX,
        ensures
            id.wf(),
            id.index() == index,
            id == Self::at(index as nat),
    {
        FragmentDefinitionId((index + 1) as u32)
    }

    /// The index of the record.
    pub fn get(&self) -> (index: usize)
        ensures
            index == self.index(),
            self.wf(),
    {
        proof {
            use_type_invariant(self);
        }
        (self.0 - 1) as usize
    }
}

/// The identifier of a selection.
#[derive(Clone, Copy, Debug, Hash, PartialEq, Eq, Structural)]
pub struct SelectionId(u32);

impl SelectionId {
    /// The index of the record.
    pub closed spec fn index(&self) -> nat {
        (self.0 - 1) as nat
    }

    pub closed spec fn wf(&self) -> bool {
        self.0 > 0
    }

    #[verifier::type_invariant]
    spec fn nonzero(self) -> bool {
        self.0 > 0
    }

    /// The identifier of the record at `index`.
    pub closed spec fn at(index: nat) -> Self {
        Self((index + 1) as u32)
    }

    /// The identifier at an index that fits is well formed and has that index.
    pub proof fn lemma_at(index: nat)
        requires
            index < u32::MAX,
        ensures
            Self::at(index).wf(),
            Self::at(index).index() == index,
    {
    }

    /// Two well-formed identifiers with the same index are the same.
    pub proof fn lemma_index_injective(a: Self, b: Self)
        requires
            a.wf(),
            b.wf(),
            a.index() == b.index(),
        ensures
            a == b,
    {
    }

    pub fn new(index: usize) -> (id: Self)
        requires
            index < u32::MAX,
        ensures
            id.wf(),
            id.index() == index,
            id == Self::at(index as nat),
    {
        SelectionId((index + 1) as u32)
    }

    /// The index of the record.
    pub fn get(&self) -> (index: usize)
        ensures
            index == self.index(),
            self.wf(),
    {
        proof {
            use_type_invariant(self);
        }
        (self.0 - 1) as usize
    }
}

/// The identifier of a field selection.
#[derive(Clone, Copy, Debug, Hash, PartialEq, Eq, Structural)]
pub struct FieldSelectionId(u32);

impl FieldSelectionId {
    /// The index of the record.
    pub closed spec fn index(&self) -> nat {
        (self.0 - 1) as nat
    }

    pub closed spec fn wf(&self) -> bool {
        self.0 > 0
    }

    #[verifier::type_invariant]
    spec fn nonzero(self) -> bool {
        self.0 > 0
    }

    /// The identifier of the record at `index`.
    pub closed spec fn at(index: nat) -> Self {
        Self((index + 1) as u32)
    }

    /// The identifier at an index that fits is well formed and has that index.
    pub proof fn lemma_at(index: nat)
        requires
            index < u32::MAX,
        ensures
            Self::at(index).wf(),
            Self::at(index).index() == index,
    {
    }

    /// Two well-formed identifiers with the same index are the same.
    pub proof fn lemma_index_injective(a: Self, b: Self)
        requires
            a.wf(),
            b.wf(),
            a.index() == b.index(),
        ensures
            a == b,
    {
    }

    pub fn new(index: usize) -> (id: Self)
        requires
            index < u32::MAX,
        ensures
            id.wf(),
            id.index() == index,
            id == Self::at(index as nat),
    {
        FieldSelectionId((index + 1) as u32)
    }

    /// The index of the record.
    pub fn get(&self) -> (index: usize)
        ensures
            index == self.index(),
            self.wf(),
    {
        proof {
            use_type_invariant(self);
        }
        (self.0 - 1) as usize
    }
}

/// The identifier of an inline fragment.
#[derive(Clone, Copy, Debug, Hash, PartialEq, Eq, Structural)]
pub struct InlineFragmentId(u32);

impl InlineFragmentId {
    /// The index of the record.
    pub closed spec fn index(&self) -> nat {
        (self.0 - 1) as nat
    }

    pub closed spec fn wf(&self) -> bool {
        self.0 > 0
    }

    #[verifier::type_invariant]
    spec fn nonzero(self) -> bool {
        self.0 > 0
    }

    /// The identifier of the record at `index`.
    pub closed spec fn at(index: nat) -> Self {
        Self((index + 1) as u32)
    }

    /// The identifier at an index that fits is well formed and has that index.
    pub proof fn lemma_at(index: nat)
        requires
            index < u32::MAX,
        ensures
            Self::at(index).wf(),
            Self::at(index).index() == index,
    {
    }

    /// Two well-formed identifiers with the same index are the same.
    pub proof fn lemma_index_injective(a: Self, b: Self)
        requires
            a.wf(),
            b.wf(),
            a.index() == b.index(),
        ensures
            a == b,
    {
    }

    pub fn new(index: usize) -> (id: Self)
        requires
            index < u32::MAX,
        ensures
            id.wf(),
            id.index() == index,
            id == Self::at(index as nat),
    {
        InlineFragmentId((index + 1) as u32)
    }

    /// The index of the record.
    pub fn get(&self) -> (index: usize)
        ensures
            index == self.index(),
            self.wf(),
    {
        proof {
            use_type_invariant(self);
        }
        (self.0 - 1) as usize
    }
}

/// The identifier of a fragment spread.
#[derive(Clone, Copy, Debug, Hash, PartialEq, Eq, Structural)]
pub struct FragmentSpreadId(u32);

impl FragmentSpreadId {
    /// The index of the record.
    pub closed spec fn index(&self) -> nat {
        (self.0 - 1) as nat
    }

    pub closed spec fn wf(&self) -> bool {
        self.0 > 0
    }

    #[verifier::type_invariant]
    spec fn nonzero(self) -> bool {
        self.0 > 0
    }

    /// The identifier of the record at `index`.
    pub closed spec fn at(index: nat) -> Self {
        Self((index + 1) as u32)
    }

    /// The identifier at an index that fits is well formed and has that index.
    pub proof fn lemma_at(index: nat)
        requires
            index < u32::MAX,
        ensures
            Self::at(index).wf(),
            Self::at(index).index() == index,
    {
    }

    /// Two well-formed identifiers with the same index are the same.
    pub proof fn lemma_index_injective(a: Self, b: Self)
        requires
            a.wf(),
            b.wf(),
            a.index() == b.index(),
        ensures
            a == b,
    {
    }

    pub fn new(index: usize) -> (id: Self)
        requires
            index < u32::MAX,
        ensures
            id.wf(),
            id.index() == index,
            id == Self::at(index as nat),
    {
        FragmentSpreadId((index + 1) as u32)
    }

    /// The index of the record.
    pub fn get(&self) -> (index: usize)
        ensures
            index == self.index(),
            self.wf(),
    {
        proof {
            use_type_invariant(self);
        }
        (self.0 - 1) as usize
    }
}

/// The identifier of a directive.
#[derive(Clone, Copy, Debug, Hash, PartialEq, Eq, Structural)]
pub struct DirectiveId(u32);

impl DirectiveId {
    /// The index of the record.
    pub closed spec fn index(&self) -> nat {
        (self.0 - 1) as nat
    }

    pub closed spec fn wf(&self) -> bool {
        self.0 > 0
    }

    #[verifier::type_invariant]
    spec fn nonzero(self) -> bool {
        self.0 > 0
    }

    /// The identifier of the record at `index`.
    pub closed spec fn at(index: nat) -> Self {
        Self((index + 1) as u32)
    }

    /// The identifier at an index that fits is well formed and has that index.
    pub proof fn lemma_at(index: nat)
        requires
            index < u32::MAX,
        ensures
            Self::at(index).wf(),
            Self::at(index).index() == index,
    {
    }

    /// Two well-formed identifiers with the same index are the same.
    pub proof fn lemma_index_injective(a: Self, b: Self)
        requires
            a.wf(),
            b.wf(),
            a.index() == b.index(),
        ensures
            a == b,
    {
    }

    pub fn new(index: usize) -> (id: Self)
        requires
            index < u32::MAX,
        ensures
            id.wf(),
            id.index() == index,
            id == Self::at(index as nat),
    {
        DirectiveId((index + 1) as u32)
    }

    /// The index of the record.
    pub fn get(&self) -> (index: usize)
        ensures
            index == self.index(),
            self.wf(),
    {
        proof {
            use_type_invariant(self);
        }
        (self.0 - 1) as usize
    }
}

/// The identifier of an argument.
#[derive(Clone, Copy, Debug, Hash, PartialEq, Eq, Structural)]
pub struct ArgumentId(u32);

impl ArgumentId {
    /// The index of the record.
    pub closed spec fn index(&self) -> nat {
        (self.0 - 1) as nat
    }

    pub closed spec fn wf(&self) -> bool {
        self.0 > 0
    }

    #[verifier::type_invariant]
    spec fn nonzero(self) -> bool {
        self.0 > 0
    }

    /// The identifier of the record at `index`.
    pub closed spec fn at(index: nat) -> Self {
        Self((index + 1) as u32)
    }

    /// The identifier at an index that fits is well formed and has that index.
    pub proof fn lemma_at(index: nat)
        requires
            index < u32::MAX,
        ensures
            Self::at(index).wf(),
            Self::at(index).index() == index,
    {
    }

    /// Two well-formed identifiers with the same index are the same.
    pub proof fn lemma_index_injective(a: Self, b: Self)
        requires
            a.wf(),
            b.wf(),
            a.index() == b.index(),
        ensures
            a == b,
    {
    }

    pub fn new(index: usize) -> (id: Self)
        requires
            index < u32::MAX,
        ensures
            id.wf(),
            id.index() == index,
            id == Self::at(index as nat),
    {
        ArgumentId((index + 1) as u32)
    }

    /// The index of the record.
    pub fn get(&self) -> (index: usize)
        ensures
            index == self.index(),
            self.wf(),
    {
        proof {
            use_type_invariant(self);
        }
        (self.0 - 1) as usize
    }
}

/// The identifier of a type reference.
#[derive(Clone, Copy, Debug, Hash, PartialEq, Eq, Structural)]
pub struct TypeId(u32);

impl TypeId {
    /// The index of the record.
    pub closed spec fn index(&self) -> nat {
        (self.0 - 1) as nat
    }

    pub closed spec fn wf(&self) -> bool {
        self.0 > 0
    }

    #[verifier::type_invariant]
    spec fn nonzero(self) -> bool {
        self.0 > 0
    }

    /// The identifier of the record at `index`.
    pub closed spec fn at(index: nat) -> Self {
        Self((index + 1) as u32)
    }

    /// The identifier at an index that fits is well formed and has that index.
    pub proof fn lemma_at(index: nat)
        requires
            index < u32::MAX,
        ensures
            Self::at(index).wf(),
            Self::at(index).index() == index,
    {
    }

    /// Two well-formed identifiers with the same index are the same.
    pub proof fn lemma_index_injective(a: Self, b: Self)
        requires
            a.wf(),
            b.wf(),
            a.index() == b.index(),
        ensures
            a == b,
    {
    }

    pub fn new(index: usize) -> (id: Self)
        requires
            index < u32::MAX,
        ensures
            id.wf(),
            id.index() == index,
            id == Self::at(index as nat),
    {
        TypeId((index + 1) as u32)
    }

    /// The index of the record.
    pub fn get(&self) -> (index: usize)
        ensures
            index == self.index(),
            self.wf(),
    {
        proof {
            use_type_invariant(self);
        }
        (self.0 - 1) as usize
    }
}

/// The identifier of a variable definition.
#[derive(Clone, Copy, Debug, Hash, PartialEq, Eq, Structural)]
pub struct VariableDefinitionId(u32);

impl VariableDefinitionId {
    /// The index of the record.
    pub closed spec fn index(&self) -> nat {
        (self.0 - 1) as nat
    }

    pub closed spec fn wf(&self) -> bool {
        self.0 > 0
    }

    #[verifier::type_invariant]
    spec fn nonzero(self) -> bool {
        self.0 > 0
    }

    /// The identifier of the record at `index`.
    pub closed spec fn at(index: nat) -> Self {
        Self((index + 1) as u32)
    }

    /// The identifier at an index that fits is well formed and has that index.
    pub proof fn lemma_at(index: nat)
        requires
            index < u32::MAX,
        ensures
            Self::at(index).wf(),
            Self::at(index).index() == index,
    {
    }

    /// Two well-formed identifiers with the same index are the same.
    pub proof fn lemma_index_injective(a: Self, b: Self)
        requires
            a.wf(),
            b.wf(),
            a.index() == b.index(),
        ensures
            a == b,
    {
    }

    pub fn new(index: usize) -> (id: Self)
        requires
            index < u32::MAX,
        ensures
            id.wf(),
            id.index() == index,
            id == Self::at(index as nat),
    {
        VariableDefinitionId((index + 1) as u32)
    }

    /// The index of the record.
    pub fn get(&self) -> (index: usize)
        ensures
            index == self.index(),
            self.wf(),
    {
        proof {
            use_type_invariant(self);
        }
        (self.0 - 1) as usize
    }
}

/// The identifier of a value.
#[derive(Clone, Copy, Debug, Hash, PartialEq, Eq, Structural)]
pub struct ValueId(u32);

impl ValueId {
    /// The index of the record.
    pub closed spec fn index(&self) -> nat {
        (self.0 - 1) as nat
    }

    pub closed spec fn wf(&self) -> bool {
        self.0 > 0
    }

    #[verifier::type_invariant]
    spec fn nonzero(self) -> bool {
        self.0 > 0
    }

    /// The identifier of the record at `index`.
    pub closed spec fn at(index: nat) -> Self {
        Self((index + 1) as u32)
    }

    /// The identifier at an index that fits is well formed and has that index.
    pub proof fn lemma_at(index: nat)
        requires
            index < u32::MAX,
        ensures
            Self::at(index).wf(),
            Self::at(index).index() == index,
    {
    }

    /// Two well-formed identifiers with the same index are the same.
    pub proof fn lemma_index_injective(a: Self, b: Self)
        requires
            a.wf(),
            b.wf(),
            a.index() == b.index(),
        ensures
            a == b,
    {
    }

    pub fn new(index: usize) -> (id: Self)
        requires
            index < u32::MAX,
        ensures
            id.wf(),
            id.index() == index,
            id == Self::at(index as nat),
    {
        ValueId((index + 1) as u32)
    }

    /// The index of the record.
    pub fn get(&self) -> (index: usize)
        ensures
            index == self.index(),
            self.wf(),
    {
        proof {
            use_type_invariant(self);
        }
        (self.0 - 1) as usize
    }
}

/// The identifier of a constant value.
#[derive(Clone, Copy, Debug, Hash, PartialEq, Eq, Structural)]
pub struct ConstValueId(u32);

impl ConstValueId {
    /// The index of the record.
    pub closed spec fn index(&self) -> nat {
        (self.0 - 1) as nat
    }

    pub closed spec fn wf(&self) -> bool {
        self.0 > 0
    }

    #[verifier::type_invariant]
    spec fn nonzero(self) -> bool {
        self.0 > 0
    }

    /// The identifier of the record at `index`.
    pub closed spec fn at(index: nat) -> Self {
        Self((index + 1) as u32)
    }

    /// The identifier at an index that fits is well formed and has that index.
    pub proof fn lemma_at(index: nat)
        requires
            index < u32::MAX,
        ensures
            Self::at(index).wf(),
            Self::at(index).index() == index,
    {
    }

    /// Two well-formed identifiers with the same index are the same.
    pub proof fn lemma_index_injective(a: Self, b: Self)
        requires
            a.wf(),
            b.wf(),
            a.index() == b.index(),
        ensures
            a == b,
    {
    }

    pub fn new(index: usize) -> (id: Self)
        requires
            index < u32::MAX,
        ensures
            id.wf(),
            id.index() == index,
            id == Self::at(index as nat),
    {
        ConstValueId((index + 1) as u32)
    }

    /// The index of the record.
    pub fn get(&self) -> (index: usize)
        ensures
            index == self.index(),
            self.wf(),
    {
        proof {
            use_type_invariant(self);
        }
        (self.0 - 1) as usize
    }
}

/// The identifier of a name.
#[derive(Clone, Copy, Debug, Hash, PartialEq, Eq, Structural)]
pub struct NameId(u32);

impl NameId {
    /// The index of the record.
    pub closed spec fn index(&self) -> nat {
        (self.0 - 1) as nat
    }

    pub closed spec fn wf(&self) -> bool {
        self.0 > 0
    }

    #[verifier::type_invariant]
    spec fn nonzero(self) -> bool {
        self.0 > 0
    }

    /// The identifier of the record at `index`.
    pub closed spec fn at(index: nat) -> Self {
        Self((index + 1) as u32)
    }

    /// The identifier at an index that fits is well formed and has that index.
    pub proof fn lemma_at(index: nat)
        requires
            index < u32::MAX,
        ensures
            Self::at(index).wf(),
            Self::at(index).index() == index,
    {
    }

    /// Two well-formed identifiers with the same index are the same.
    pub proof fn lemma_index_injective(a: Self, b: Self)
        requires
            a.wf(),
            b.wf(),
            a.index() == b.index(),
        ensures
            a == b,
    {
    }

    pub fn new(index: usize) -> (id: Self)
        requires
            index < u32::MAX,
        ensures
            id.wf(),
            id.index() == index,
            id == Self::at(index as nat),
    {
        NameId((index + 1) as u32)
    }

    /// The index of the record.
    pub fn get(&self) -> (index: usize)
        ensures
            index == self.index(),
            self.wf(),
    {
        proof {
            use_type_invariant(self);
        }
        (self.0 - 1) as usize
    }
}

/// The identifier of a type condition.
#[derive(Clone, Copy, Debug, Hash, PartialEq, Eq, Structural)]
pub struct TypeConditionId(u32);

impl TypeConditionId {
    /// The index of the record.
    pub closed spec fn index(&self) -> nat {
        (self.0 - 1) as nat
    }

    pub closed spec fn wf(&self) -> bool {
        self.0 > 0
    }

    #[verifier::type_invariant]
    spec fn nonzero(self) -> bool {
        self.0 > 0
    }

    /// The identifier of the record at `index`.
    pub closed spec fn at(index: nat) -> Self {
        Self((index + 1) as u32)
    }

    /// The identifier at an index that fits is well formed and has that index.
    pub proof fn lemma_at(index: nat)
        requires
            index < u32::MAX,
        ensures
            Self::at(index).wf(),
            Self::at(index).index() == index,
    {
    }

    /// Two well-formed identifiers with the same index are the same.
    pub proof fn lemma_index_injective(a: Self, b: Self)
        requires
            a.wf(),
            b.wf(),
            a.index() == b.index(),
        ensures
            a == b,
    {
    }

    pub fn new(index: usize) -> (id: Self)
        requires
            index < u32::MAX,
        ensures
            id.wf(),
            id.index() == index,
            id == Self::at(index as nat),
    {
        TypeConditionId((index + 1) as u32)
    }

    /// The index of the record.
    pub fn get(&self) -> (index: usize)
        ensures
            index == self.index(),
            self.wf(),
    {
        proof {
            use_type_invariant(self);
        }
        (self.0 - 1) as usize
    }
}

/// The identifier of a block string literal.
#[derive(Clone, Copy, Debug, Hash, PartialEq, Eq, Structural)]
pub struct BlockStringLiteralId(u32);

impl BlockStringLiteralId {
    /// The index of the record.
    pub closed spec fn index(&self) -> nat {
        (self.0 - 1) as nat
    }

    pub closed spec fn wf(&self) -> bool {
        self.0 > 0
    }

    #[verifier::type_invariant]
    spec fn nonzero(self) -> bool {
        self.0 > 0
    }

    /// The identifier of the record at `index`.
    pub closed spec fn at(index: nat) -> Self {
        Self((index + 1) as u32)
    }

    /// The identifier at an index that fits is well formed and has that index.
    pub proof fn lemma_at(index: nat)
        requires
            index < u32::MAX,
        ensures
            Self::at(index).wf(),
            Self::at(index).index() == index,
    {
    }

    /// Two well-formed identifiers with the same index are the same.
    pub proof fn lemma_index_injective(a: Self, b: Self)
        requires
            a.wf(),
            b.wf(),
            a.index() == b.index(),
        ensures
            a == b,
    {
    }

    pub fn new(index: usize) -> (id: Self)
        requires
            index < u32::MAX,
        ensures
            id.wf(),
            id.index() == index,
            id == Self::at(index as nat),
    {
        BlockStringLiteralId((index + 1) as u32)
    }

    /// The index of the record.
    pub fn get(&self) -> (index: usize)
        ensures
            index == self.index(),
            self.wf(),
    {
        proof {
            use_type_invariant(self);
        }
        (self.0 - 1) as usize
    }
}

/// The identifier of an interned string.
#[derive(Clone, Copy, Debug, PartialEq, Eq, Structural)]
pub struct StringId(u32);

impl StringId {
    /// The index of the record.
    pub closed spec fn index(&self) -> nat {
        (self.0 - 1) as nat
    }

    pub closed spec fn wf(&self) -> bool {
        self.0 > 0
    }

    #[verifier::type_invariant]
    spec fn nonzero(self) -> bool {
        self.0 > 0
    }

    /// The identifier of the record at `index`.
    pub closed spec fn at(index: nat) -> Self {
        Self((index + 1) as u32)
    }

    /// The identifier at an index that fits is well formed and has that index.
    pub proof fn lemma_at(index: nat)
        requires
            index < u32::MAX,
        ensures
            Self::at(index).wf(),
            Self::at(index).index() == index,
    {
    }

    /// Two well-formed identifiers with the same index are the same.
    pub proof fn lemma_index_injective(a: Self, b: Self)
        requires
            a.wf(),
            b.wf(),
            a.index() == b.index(),
        ensures
            a == b,
    {
    }

    pub fn new(index: usize) -> (id: Self)
        requires
            index < u32::MAX,
        ensures
            id.wf(),
            id.index() == index,
            id == Self::at(index as nat),
    {
        StringId((index + 1) as u32)
    }

    /// The index of the record.
    pub fn get(&self) -> (index: usize)
        ensures
            index == self.index(),
            self.wf(),
    {
        proof {
            use_type_invariant(self);
        }
        (self.0 - 1) as usize
    }
}

/// A contiguous range of identifiers: from `start` up to, not including, `end`.
#[derive(Clone, Copy, Debug, PartialEq, Eq, Structural)]
pub struct IdRange<I> {
    pub start: I,
    pub end: I,
}

impl<I: Copy> IdRange<I> {
    pub fn new(start: I, end: I) -> (range: Self)
        ensures
            range.start == start,
            range.end == end,
    {
        IdRange { start, end }
    }
}

impl IdRange<DirectiveId> {
    /// The identifiers in the range, in order.
    pub fn ids(&self) -> (ids: Vec<DirectiveId>)
        ensures
            ids.len() == self.count(),
            forall|i: int| 0 <= i < ids.len() ==> #[trigger] ids[i] == DirectiveId::at((self.start.index() + i) as nat),
            forall|i: int| 0 <= i < ids.len() ==> (#[trigger] ids[i]).index() == self.start.index() + i,
    {
        let start = self.start.get();
        let end = self.end.get();
        let n = self.len();
        let mut ids: Vec<DirectiveId> = Vec::new();
        let mut i: usize = 0;
        while i < n
            invariant
                n == self.count(),
                start == self.start.index(),
                n > 0 ==> start + n == self.end.index(),
                end == self.end.index(),
                end < u32::MAX,
                i <= n,
                ids.len() == i,
                forall|j: int| 0 <= j < i ==> #[trigger] ids[j] == DirectiveId::at((start + j) as nat),
                forall|j: int| 0 <= j < i ==> (#[trigger] ids[j]).index() == start + j,
            decreases n - i,
        {
            ids.push(DirectiveId::new(start + i));
            i = i + 1;
        }
        ids
    }

    /// The number of identifiers in the range (none where it ends before it starts).
    pub open spec fn count(&self) -> nat {
        if self.end.index() >= self.start.index() {
            (self.end.index() - self.start.index()) as nat
        } else {
            0
        }
    }

    pub fn len(&self) -> (n: usize)
        ensures
            n == self.count(),
    {
        let start = self.start.get();
        let end = self.end.get();
        if end >= start {
            end - start
        } else {
            0
        }
    }
}

impl IdRange<ArgumentId> {
    /// The identifiers in the range, in order.
    pub fn ids(&self) -> (ids: Vec<ArgumentId>)
        ensures
            ids.len() == self.count(),
            forall|i: int| 0 <= i < ids.len() ==> #[trigger] ids[i] == ArgumentId::at((self.start.index() + i) as nat),
            forall|i: int| 0 <= i < ids.len() ==> (#[trigger] ids[i]).index() == self.start.index() + i,
    {
        let start = self.start.get();
        let end = self.end.get();
        let n = self.len();
        let mut ids: Vec<ArgumentId> = Vec::new();
        let mut i: usize = 0;
        while i < n
            invariant
                n == self.count(),
                start == self.start.index(),
                n > 0 ==> start + n == self.end.index(),
                end == self.end.index(),
                end < u32::MAX,
                i <= n,
                ids.len() == i,
                forall|j: int| 0 <= j < i ==> #[trigger] ids[j] == ArgumentId::at((start + j) as nat),
                forall|j: int| 0 <= j < i ==> (#[trigger] ids[j]).index() == start + j,
            decreases n - i,
        {
            ids.push(ArgumentId::new(start + i));
            i = i + 1;
        }
        ids
    }

    /// The number of identifiers in the range (none where it ends before it starts).
    pub open spec fn count(&self) -> nat {
        if self.end.index() >= self.start.index() {
            (self.end.index() - self.start.index()) as nat
        } else {
            0
        }
    }

    pub fn len(&self) -> (n: usize)
        ensures
            n == self.count(),
    {
        let start = self.start.get();
        let end = self.end.get();
        if end >= start {
            end - start
        } else {
            0
        }
    }
}

impl IdRange<SelectionId> {
    /// The identifiers in the range, in order.
    pub fn ids(&self) -> (ids: Vec<SelectionId>)
        ensures
            ids.len() == self.count(),
            forall|i: int| 0 <= i < ids.len() ==> #[trigger] ids[i] == SelectionId::at((self.start.index() + i) as nat),
            forall|i: int| 0 <= i < ids.len() ==> (#[trigger] ids[i]).index() == self.start.index() + i,
    {
        let start = self.start.get();
        let end = self.end.get();
        let n = self.len();
        let mut ids: Vec<SelectionId> = Vec::new();
        let mut i: usize = 0;
        while i < n
            invariant
                n == self.count(),
                start == self.start.index(),
                n > 0 ==> start + n == self.end.index(),
                end == self.end.index(),
                end < u32::MAX,
                i <= n,
                ids.len() == i,
                forall|j: int| 0 <= j < i ==> #[trigger] ids[j] == SelectionId::at((start + j) as nat),
                forall|j: int| 0 <= j < i ==> (#[trigger] ids[j]).index() == start + j,
            decreases n - i,
        {
            ids.push(SelectionId::new(start + i));
            i = i + 1;
        }
        ids
    }

    /// The number of identifiers in the range (none where it ends before it starts).
    pub open spec fn count(&self) -> nat {
        if self.end.index() >= self.start.index() {
            (self.end.index() - self.start.index()) as nat
        } else {
            0
        }
    }

    pub fn len(&self) -> (n: usize)
        ensures
            n == self.count(),
    {
        let start = self.start.get();
        let end = self.end.get();
        if end >= start {
            end - start
        } else {
            0
        }
    }
}

impl IdRange<VariableDefinitionId> {
    /// The identifiers in the range, in order.
    pub fn ids(&self) -> (ids: Vec<VariableDefinitionId>)
        ensures
            ids.len() == self.count(),
            forall|i: int| 0 <= i < ids.len() ==> #[trigger] ids[i] == VariableDefinitionId::at((self.start.index() + i) as nat),
            forall|i: int| 0 <= i < ids.len() ==> (#[trigger] ids[i]).index() == self.start.index() + i,
    {
        let start = self.start.get();
        let end = self.end.get();
        let n = self.len();
        let mut ids: Vec<VariableDefinitionId> = Vec::new();
        let mut i: usize = 0;
        while i < n
            invariant
                n == self.count(),
                start == self.start.index(),
                n > 0 ==> start + n == self.end.index(),
                end == self.end.index(),
                end < u32::MAX,
                i <= n,
                ids.len() == i,
                forall|j: int| 0 <= j < i ==> #[trigger] ids[j] == VariableDefinitionId::at((start + j) as nat),
                forall|j: int| 0 <= j < i ==> (#[trigger] ids[j]).index() == start + j,
            decreases n - i,
        {
            ids.push(VariableDefinitionId::new(start + i));
            i = i + 1;
        }
        ids
    }

    /// The number of identifiers in the range (none where it ends before it starts).
    pub open spec fn count(&self) -> nat {
        if self.end.index() >= self.start.index() {
            (self.end.index() - self.start.index()) as nat
        } else {
            0
        }
    }

    pub fn len(&self) -> (n: usize)
        ensures
            n == self.count(),
    {
        let start = self.start.get();
        let end = self.end.get();
        if end >= start {
            end - start
        } else {
            0
        }
    }
}

impl IdRange<ExecutableDefinitionId> {
    /// The identifiers in the range, in order.
    pub fn ids(&self) -> (ids: Vec<ExecutableDefinitionId>)
        ensures
            ids.len() == self.count(),
            forall|i: int| 0 <= i < ids.len() ==> #[trigger] ids[i] == ExecutableDefinitionId::at((self.start.index() + i) as nat),
            forall|i: int| 0 <= i < ids.len() ==> (#[trigger] ids[i]).index() == self.start.index() + i,
    {
        let start = self.start.get();
        let end = self.end.get();
        let n = self.len();
        let mut ids: Vec<ExecutableDefinitionId> = Vec::new();
        let mut i: usize = 0;
        while i < n
            invariant
                n == self.count(),
                start == self.start.index(),
                n > 0 ==> start + n == self.end.index(),
                end == self.end.index(),
                end < u32::MAX,
                i <= n,
                ids.len() == i,
                forall|j: int| 0 <= j < i ==> #[trigger] ids[j] == ExecutableDefinitionId::at((start + j) as nat),
                forall|j: int| 0 <= j < i ==> (#[trigger] ids[j]).index() == start + j,
            decreases n - i,
        {
            ids.push(ExecutableDefinitionId::new(start + i));
            i = i + 1;
        }
        ids
    }

    /// The number of identifiers in the range (none where it ends before it starts).
    pub open spec fn count(&self) -> nat {
        if self.end.index() >= self.start.index() {
            (self.end.index() - self.start.index()) as nat
        } else {
            0
        }
    }

    pub fn len(&self) -> (n: usize)
        ensures
            n == self.count(),
    {
        let start = self.start.get();
        let end = self.end.get();
        if end >= start {
            end - start
        } else {
            0
        }
    }
}

} // verus!

//! Readers of selections: fields, inline fragments and fragment spreads.
use vstd::prelude::*;

use super::contents::{find_fragment, ExecutableContents};
use super::definitions::FragmentDefinition;
use super::document::{lemma_fragment_ids_valid, ExecutableDocument};
use super::ids::{
    ArgumentId, DirectiveId, FieldSelectionId, FragmentSpreadId, IdRange, InlineFragmentId,
    SelectionId, StringId,
};
use super::readers::{
    arguments_stored, directives_stored, read_arguments, read_directives, Argument, Directive,
    ExecutableId,
};
use super::storage::{
    FieldSelectionRecord, FragmentSpreadRecord, InlineFragmentRecord, SelectionRecord,
};
use crate::span::Span;
use super::node_display::{
    displayable, field_text, fragment_spread_text, inline_fragment_text, write_field,
    write_fragment_spread, write_inline_fragment,
};

verus! {

/// Whether the string that `id` names, where it names one, is interned.
pub open spec fn optional_string_stored(contents: ExecutableContents, id: Option<StringId>) -> bool {
    id matches Some(s) ==> s.index() < contents.strings.len()
}

/// Whether `text` is what `id` names: nothing for nothing.
pub open spec fn optional_text(contents: ExecutableContents, id: Option<StringId>, text: Option<&str>) -> bool {
    match id {
        Some(s) => text matches Some(t) && t@ == contents.text(s),
        None => text is None,
    }
}

/// The text of the string that `id` names, where it names one.
pub(crate) fn read_optional_string<'a>(document: &'a ExecutableDocument, id: Option<StringId>) -> (text: Option<&'a str>)
    requires
        optional_string_stored(document@, id),
    ensures
        optional_text(document@, id, text),
{
    match id {
        Some(s) => Some(document.string(s)),
        None => None,
    }
}

/// Whether the record that the selection at `index` points to is stored.
pub open spec fn selection_readable(contents: ExecutableContents, index: int) -> bool {
    match contents.selections[index] {
        SelectionRecord::Field(id) => id.index() < contents.field_selections.len(),
        SelectionRecord::InlineFragment(id) => id.index() < contents.inline_fragments.len(),
        SelectionRecord::FragmentSpread(id) => id.index() < contents.fragment_spreads.len(),
    }
}

/// Whether every selection of `range`, and what it points to, is stored.
pub open spec fn selections_stored(contents: ExecutableContents, range: IdRange<SelectionId>) -> bool {
    range.count() > 0 ==> {
        &&& range.end.index() <= contents.selections.len()
        &&& forall|k: int|
            range.start.index() <= k < range.end.index() ==> #[trigger] selection_readable(contents, k)
    }
}

/// A selection of a selection set.
#[derive(Clone, Copy)]
pub enum Selection<'a> {
    Field(FieldSelection<'a>),
    InlineFragment(InlineFragment<'a>),
    FragmentSpread(FragmentSpread<'a>),
}

impl ExecutableId for SelectionId {
    type Reader<'a> = Selection<'a>;

    open spec fn readable(self, contents: ExecutableContents) -> bool {
        &&& self.index() < contents.selections.len()
        &&& selection_readable(contents, self.index() as int)
    }

    open spec fn reads<'a>(self, contents: ExecutableContents, reader: Selection<'a>) -> bool {
        match contents.selections[self.index() as int] {
            SelectionRecord::Field(id) => reader matches Selection::Field(f) && f.contents()
                == contents && f.spec_id() == id,
            SelectionRecord::InlineFragment(id) => reader matches Selection::InlineFragment(f)
                && f.contents() == contents && f.spec_id() == id,
            SelectionRecord::FragmentSpread(id) => reader matches Selection::FragmentSpread(f)
                && f.contents() == contents && f.spec_id() == id,
        }
    }

    fn read<'a>(self, document: &'a ExecutableDocument) -> (reader: Selection<'a>) {
        match document.selection(self) {
            SelectionRecord::Field(id) => Selection::Field(FieldSelection { document, id: *id }),
            SelectionRecord::InlineFragment(id) => Selection::InlineFragment(
                InlineFragment { document, id: *id },
            ),
            SelectionRecord::FragmentSpread(id) => Selection::FragmentSpread(
                FragmentSpread { document, id: *id },
            ),
        }
    }
}

/// The readers of the selections of `range`, in order.
pub(crate) fn read_selections<'a>(document: &'a ExecutableDocument, range: IdRange<SelectionId>) -> (selections: Vec<Selection<'a>>)
    requires
        selections_stored(document@, range),
    ensures
        selections.len() == range.count(),
        forall|i: int|
            0 <= i < selections.len() ==> SelectionId::at((range.start.index() + i) as nat).reads(
                document@,
                #[trigger] selections[i],
            ),
{
    let ids = range.ids();
    let mut out: Vec<Selection<'a>> = Vec::new();
    let mut i: usize = 0;
    while i < ids.len()
        invariant
            i <= ids.len(),
            ids.len() == range.count(),
            selections_stored(document@, range),
            forall|j: int|
                0 <= j < ids.len() ==> #[trigger] ids[j] == SelectionId::at((range.start.index() + j) as nat),
            forall|j: int| 0 <= j < ids.len() ==> (#[trigger] ids[j]).index() == range.start.index() + j,
            out.len() == i,
            forall|j: int|
                0 <= j < i ==> SelectionId::at((range.start.index() + j) as nat).reads(
                    document@,
                    #[trigger] out[j],
                ),
        decreases ids.len() - i,
    {
        let id = ids[i];
        proof {
            assert(selection_readable(document@, id.index() as int));
        }
        out.push(id.read(document));
        i = i + 1;
    }
    out
}

/// A field of a selection set.
#[derive(Clone, Copy)]
pub struct FieldSelection<'a> {
    document: &'a ExecutableDocument,
    id: FieldSelectionId,
}

impl<'a> FieldSelection<'a> {
    #[verifier::type_invariant]
    spec fn stored(self) -> bool {
        self.id.index() < self.document@.field_selections.len()
    }

    /// The contents of the document it reads.
    pub closed spec fn contents(&self) -> ExecutableContents {
        self.document@
    }

    pub closed spec fn spec_id(&self) -> FieldSelectionId {
        self.id
    }

    pub open spec fn record(&self) -> FieldSelectionRecord {
        self.contents().field_selections[self.spec_id().index() as int]
    }

    pub fn id(&self) -> (id: FieldSelectionId)
        ensures
            id == self.spec_id(),
    {
        self.id
    }

    /// The alias of the field, where it has one.
    pub fn alias(&self) -> (alias: Option<&'a str>)
        requires
            optional_string_stored(self.contents(), self.record().alias),
        ensures
            optional_text(self.contents(), self.record().alias, alias),
    {
        proof {
            use_type_invariant(self);
        }
        read_optional_string(self.document, self.document.field_selection(self.id).alias)
    }

    pub fn alias_span(&self) -> (span: Option<Span>)
        ensures
            span == self.record().alias_span,
    {
        proof {
            use_type_invariant(self);
        }
        self.document.field_selection(self.id).alias_span
    }

    /// The name of the field.
    pub fn name(&self) -> (name: &'a str)
        requires
            self.record().name.index() < self.contents().strings.len(),
        ensures
            name@ == self.contents().text(self.record().name),
    {
        proof {
            use_type_invariant(self);
        }
        self.document.string(self.document.field_selection(self.id).name)
    }

    pub fn name_span(&self) -> (span: Span)
        ensures
            span == self.record().name_span,
    {
        proof {
            use_type_invariant(self);
        }
        self.document.field_selection(self.id).name_span
    }

    /// The field's arguments, in order.
    pub fn arguments(&self) -> (arguments: Vec<Argument<'a>>)
        requires
            arguments_stored(self.contents(), self.record().arguments),
        ensures
            arguments.len() == self.record().arguments.count(),
            forall|i: int|
                0 <= i < arguments.len() ==> (#[trigger] arguments[i]).contents() == self.contents()
                    && arguments[i].spec_id() == ArgumentId::at(
                    (self.record().arguments.start.index() + i) as nat,
                ),
    {
        proof {
            use_type_invariant(self);
        }
        read_arguments(self.document, self.document.field_selection(self.id).arguments)
    }

    /// The field's directives, in order.
    pub fn directives(&self) -> (directives: Vec<Directive<'a>>)
        requires
            directives_stored(self.contents(), self.record().directives),
        ensures
            directives.len() == self.record().directives.count(),
            forall|i: int|
                0 <= i < directives.len() ==> (#[trigger] directives[i]).contents() == self.contents()
                    && directives[i].spec_id() == DirectiveId::at(
                    (self.record().directives.start.index() + i) as nat,
                ),
    {
        proof {
            use_type_invariant(self);
        }
        read_directives(self.document, self.document.field_selection(self.id).directives)
    }

    /// The selections of the field's own selection set, in order (none for a
    /// leaf field).
    pub fn selection_set(&self) -> (selections: Vec<Selection<'a>>)
        requires
            selections_stored(self.contents(), self.record().selection_set),
        ensures
            selections.len() == self.record().selection_set.count(),
            forall|i: int|
                0 <= i < selections.len() ==> SelectionId::at(
                    (self.record().selection_set.start.index() + i) as nat,
                ).reads(self.contents(), #[trigger] selections[i]),
    {
        proof {
            use_type_invariant(self);
        }
        read_selections(self.document, self.document.field_selection(self.id).selection_set)
    }

    pub fn selection_set_span(&self) -> (span: Option<Span>)
        ensures
            span == self.record().selection_set_span,
    {
        proof {
            use_type_invariant(self);
        }
        self.document.field_selection(self.id).selection_set_span
    }
}

impl<'a> FieldSelection<'a> {
    /// The field as written: `alias: name(arguments) @directives { ... }`.
    pub fn to_string(&self) -> (text: String)
        requires
            displayable(self.contents()),
        ensures
            text@ == field_text(self.contents(), self.spec_id().index() as int),
    {
        proof {
            use_type_invariant(self);
        }
        let mut text = String::new();
        write_field(self.document, &mut text, self.id);
        text
    }
}

impl ExecutableId for FieldSelectionId {
    type Reader<'a> = FieldSelection<'a>;

    open spec fn readable(self, contents: ExecutableContents) -> bool {
        self.index() < contents.field_selections.len()
    }

    open spec fn reads<'a>(self, contents: ExecutableContents, reader: FieldSelection<'a>) -> bool {
        reader.contents() == contents && reader.spec_id() == self
    }

    fn read<'a>(self, document: &'a ExecutableDocument) -> (reader: FieldSelection<'a>) {
        FieldSelection { document, id: self }
    }
}

/// An inline fragment of a selection set.
#[derive(Clone, Copy)]
pub struct InlineFragment<'a> {
    document: &'a ExecutableDocument,
    id: InlineFragmentId,
}

impl<'a> InlineFragment<'a> {
    #[verifier::type_invariant]
    spec fn stored(self) -> bool {
        self.id.index() < self.document@.inline_fragments.len()
    }

    /// The contents of the document it reads.
    pub closed spec fn contents(&self) -> ExecutableContents {
        self.document@
    }

    pub closed spec fn spec_id(&self) -> InlineFragmentId {
        self.id
    }

    pub open spec fn record(&self) -> InlineFragmentRecord {
        self.contents().inline_fragments[self.spec_id().index() as int]
    }

    pub fn id(&self) -> (id: InlineFragmentId)
        ensures
            id == self.spec_id(),
    {
        self.id
    }

    /// The type the fragment applies to, where it names one.
    pub fn type_condition(&self) -> (on: Option<&'a str>)
        requires
            optional_string_stored(self.contents(), self.record().type_condition),
        ensures
            optional_text(self.contents(), self.record().type_condition, on),
    {
        proof {
            use_type_invariant(self);
        }
        read_optional_string(self.document, self.document.inline_fragment(self.id).type_condition)
    }

    pub fn type_condition_span(&self) -> (span: Option<Span>)
        ensures
            span == self.record().type_condition_span,
    {
        proof {
            use_type_invariant(self);
        }
        self.document.inline_fragment(self.id).type_condition_span
    }

    /// The fragment's directives, in order.
    pub fn directives(&self) -> (directives: Vec<Directive<'a>>)
        requires
            directives_stored(self.contents(), self.record().directives),
        ensures
            directives.len() == self.record().directives.count(),
            forall|i: int|
                0 <= i < directives.len() ==> (#[trigger] directives[i]).contents() == self.contents()
                    && directives[i].spec_id() == DirectiveId::at(
                    (self.record().directives.start.index() + i) as nat,
                ),
    {
        proof {
            use_type_invariant(self);
        }
        read_directives(self.document, self.document.inline_fragment(self.id).directives)
    }

    /// The selections of the fragment, in order.
    pub fn selection_set(&self) -> (selections: Vec<Selection<'a>>)
        requires
            selections_stored(self.contents(), self.record().selection_set),
        ensures
            selections.len() == self.record().selection_set.count(),
            forall|i: int|
                0 <= i < selections.len() ==> SelectionId::at(
                    (self.record().selection_set.start.index() + i) as nat,
                ).reads(self.contents(), #[trigger] selections[i]),
    {
        proof {
            use_type_invariant(self);
        }
        read_selections(self.document, self.document.inline_fragment(self.id).selection_set)
    }

    pub fn selection_set_span(&self) -> (span: Span)
        ensures
            span == self.record().selection_set_span,
    {
        proof {
            use_type_invariant(self);
        }
        self.document.inline_fragment(self.id).selection_set_span
    }
}

impl<'a> InlineFragment<'a> {
    /// The fragment as written: `... on Type @directives { ... }`.
    pub fn to_string(&self) -> (text: String)
        requires
            displayable(self.contents()),
        ensures
            text@ == inline_fragment_text(self.contents(), self.spec_id().index() as int),
    {
        proof {
            use_type_invariant(self);
        }
        let mut text = String::new();
        write_inline_fragment(self.document, &mut text, self.id);
        text
    }
}

impl ExecutableId for InlineFragmentId {
    type Reader<'a> = InlineFragment<'a>;

    open spec fn readable(self, contents: ExecutableContents) -> bool {
        self.index() < contents.inline_fragments.len()
    }

    open spec fn reads<'a>(self, contents: ExecutableContents, reader: InlineFragment<'a>) -> bool {
        reader.contents() == contents && reader.spec_id() == self
    }

    fn read<'a>(self, document: &'a ExecutableDocument) -> (reader: InlineFragment<'a>) {
        InlineFragment { document, id: self }
    }
}

/// A fragment spread of a selection set: `...Name`.
#[derive(Clone, Copy)]
pub struct FragmentSpread<'a> {
    document: &'a ExecutableDocument,
    id: FragmentSpreadId,
}

impl<'a> FragmentSpread<'a> {
    #[verifier::type_invariant]
    spec fn stored(self) -> bool {
        self.id.index() < self.document@.fragment_spreads.len()
    }

    /// The contents of the document it reads.
    pub closed spec fn contents(&self) -> ExecutableContents {
        self.document@
    }

    pub closed spec fn spec_id(&self) -> FragmentSpreadId {
        self.id
    }

    pub open spec fn record(&self) -> FragmentSpreadRecord {
        self.contents().fragment_spreads[self.spec_id().index() as int]
    }

    pub fn id(&self) -> (id: FragmentSpreadId)
        ensures
            id == self.spec_id(),
    {
        self.id
    }

    /// The name of the fragment spread here.
    pub fn fragment_name(&self) -> (name: &'a str)
        requires
            self.record().fragment_name.index() < self.contents().strings.len(),
        ensures
            name@ == self.contents().text(self.record().fragment_name),
    {
        proof {
            use_type_invariant(self);
        }
        self.document.string(self.document.fragment_spread(self.id).fragment_name)
    }

    pub fn fragment_name_span(&self) -> (span: Span)
        ensures
            span == self.record().fragment_name_span,
    {
        proof {
            use_type_invariant(self);
        }
        self.document.fragment_spread(self.id).fragment_name_span
    }

    /// The spread's directives, in order.
    pub fn directives(&self) -> (directives: Vec<Directive<'a>>)
        requires
            directives_stored(self.contents(), self.record().directives),
        ensures
            directives.len() == self.record().directives.count(),
            forall|i: int|
                0 <= i < directives.len() ==> (#[trigger] directives[i]).contents() == self.contents()
                    && directives[i].spec_id() == DirectiveId::at(
                    (self.record().directives.start.index() + i) as nat,
                ),
    {
        proof {
            use_type_invariant(self);
        }
        read_directives(self.document, self.document.fragment_spread(self.id).directives)
    }

    /// The first fragment of the document, in the order of its definitions,
    /// whose name is the spread's; none where there is no such fragment.
    pub fn fragment(&self) -> (found: Option<FragmentDefinition<'a>>)
        requires
            self.contents().wf(),
            self.contents().fragment_names_valid(),
            self.record().fragment_name.index() < self.contents().strings.len(),
        ensures
            match find_fragment(
                self.contents(),
                self.contents().fragment_ids(),
                self.contents().text(self.record().fragment_name),
                0,
            ) {
                Some(k) => found matches Some(f) && f.contents() == self.contents() && f.spec_id()
                    == self.contents().fragment_ids()[k],
                None => found is None,
            },
    {
        let document = self.document;
        let name = self.fragment_name();
        let ghost c = document@;
        proof {
            lemma_fragment_ids_valid(c.definitions, c.fragments.len());
            lemma_find_fragment_in_bounds(c, c.fragment_ids(), name@, 0);
        }
        match document.fragment_named(name) {
            Some(id) => Some(id.read(document)),
            None => None,
        }
    }
}

/// A position that `find_fragment` gives is one of `ids`.
pub proof fn lemma_find_fragment_in_bounds(
    contents: ExecutableContents,
    ids: Seq<super::ids::FragmentDefinitionId>,
    name: Seq<char>,
    k: int,
)
    ensures
        find_fragment(contents, ids, name, k) matches Some(j) ==> 0 <= j < ids.len(),
    decreases ids.len() - k,
{
    if 0 <= k < ids.len() {
        lemma_find_fragment_in_bounds(contents, ids, name, k + 1);
    }
}

impl<'a> FragmentSpread<'a> {
    /// The spread as written: `... Name @directives`.
    pub fn to_string(&self) -> (text: String)
        requires
            displayable(self.contents()),
        ensures
            text@ == fragment_spread_text(self.contents(), self.spec_id().index() as int),
    {
        proof {
            use_type_invariant(self);
        }
        let mut text = String::new();
        write_fragment_spread(self.document, &mut text, self.id);
        text
    }
}

impl<'a> Selection<'a> {
    /// The contents of the document it reads.
    pub open spec fn contents(&self) -> ExecutableContents {
        match self {
            Selection::Field(f) => f.contents(),
            Selection::InlineFragment(f) => f.contents(),
            Selection::FragmentSpread(f) => f.contents(),
        }
    }

    /// The selection as written.
    pub fn to_string(&self) -> (text: String)
        requires
            displayable(self.contents()),
        ensures
            text@ == match self {
                Selection::Field(f) => field_text(f.contents(), f.spec_id().index() as int),
                Selection::InlineFragment(f) => inline_fragment_text(
                    f.contents(),
                    f.spec_id().index() as int,
                ),
                Selection::FragmentSpread(f) => fragment_spread_text(
                    f.contents(),
                    f.spec_id().index() as int,
                ),
            },
    {
        match self {
            Selection::Field(f) => f.to_string(),
            Selection::InlineFragment(f) => f.to_string(),
            Selection::FragmentSpread(f) => f.to_string(),
        }
    }
}

impl ExecutableId for FragmentSpreadId {
    type Reader<'a> = FragmentSpread<'a>;

    open spec fn readable(self, contents: ExecutableContents) -> bool {
        self.index() < contents.fragment_spreads.len()
    }

    open spec fn reads<'a>(self, contents: ExecutableContents, reader: FragmentSpread<'a>) -> bool {
        reader.contents() == contents && reader.spec_id() == self
    }

    fn read<'a>(self, document: &'a ExecutableDocument) -> (reader: FragmentSpread<'a>) {
        FragmentSpread { document, id: self }
    }
}

} // verus!

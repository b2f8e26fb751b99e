//! Readers: a record of a document together with the document, so that
//! what the record refers to can be followed.
use vstd::prelude::*;

use super::contents::ExecutableContents;
use super::document::ExecutableDocument;
use super::ids::{ArgumentId, DirectiveId, IdRange, TypeId, VariableDefinitionId};
use super::storage::{TypeRecord, VariableDefinitionRecord, WrappingType};
use crate::text::{append, push_char};
use super::node_display::{
    argument_text, directive_text, displayable, variable_text, write_argument, write_directive,
    write_variable,
};
use super::value::{reads_as, values_well_founded, Value};
use crate::span::Span;

verus! {

/// An identifier that a document can read: the reader it gives, and when
/// it can give one.
pub trait ExecutableId: Copy + Sized {
    type Reader<'a>;

    /// Whether a document with these contents holds what reading `self`
    /// looks at.
    spec fn readable(self, contents: ExecutableContents) -> bool;

    /// Whether `reader` reads `self` in a document with these contents.
    spec fn reads<'a>(self, contents: ExecutableContents, reader: Self::Reader<'a>) -> bool;

    fn read<'a>(self, document: &'a ExecutableDocument) -> (reader: Self::Reader<'a>)
        requires
            self.readable(document@),
        ensures
            self.reads(document@, reader),
    ;
}

impl ExecutableDocument {
    /// The reader of `id`.
    pub fn read<T: ExecutableId>(&self, id: T) -> (reader: T::Reader<'_>)
        requires
            id.readable(self@),
        ensures
            id.reads(self@, reader),
    {
        id.read(self)
    }
}

/// Whether every directive of `range` is stored.
pub open spec fn directives_stored(contents: ExecutableContents, range: IdRange<DirectiveId>) -> bool {
    range.count() > 0 ==> range.end.index() <= contents.directives.len()
}

/// Whether every argument of `range` is stored.
pub open spec fn arguments_stored(contents: ExecutableContents, range: IdRange<ArgumentId>) -> bool {
    range.count() > 0 ==> range.end.index() <= contents.arguments.len()
}

/// The readers of the directives of `range`, in order.
pub(crate) fn read_directives<'a>(document: &'a ExecutableDocument, range: IdRange<DirectiveId>) -> (directives: Vec<Directive<'a>>)
    requires
        directives_stored(document@, range),
    ensures
        directives.len() == range.count(),
        forall|i: int|
            0 <= i < directives.len() ==> (#[trigger] directives[i]).contents() == document@
                && directives[i].spec_id() == DirectiveId::at((range.start.index() + i) as nat),
{
    let ids = range.ids();
    let mut out: Vec<Directive<'a>> = Vec::new();
    let mut i: usize = 0;
    while i < ids.len()
        invariant
            i <= ids.len(),
            ids.len() == range.count(),
            directives_stored(document@, range),
            forall|j: int|
                0 <= j < ids.len() ==> #[trigger] ids[j] == DirectiveId::at((range.start.index() + j) as nat),
            forall|j: int| 0 <= j < ids.len() ==> (#[trigger] ids[j]).index() == range.start.index() + j,
            out.len() == i,
            forall|j: int|
                0 <= j < i ==> (#[trigger] out[j]).contents() == document@ && out[j].spec_id()
                    == DirectiveId::at((range.start.index() + j) as nat),
        decreases ids.len() - i,
    {
        out.push(Directive { document, id: ids[i] });
        i = i + 1;
    }
    out
}

/// The readers of the arguments of `range`, in order.
pub(crate) fn read_arguments<'a>(document: &'a ExecutableDocument, range: IdRange<ArgumentId>) -> (arguments: Vec<Argument<'a>>)
    requires
        arguments_stored(document@, range),
    ensures
        arguments.len() == range.count(),
        forall|i: int|
            0 <= i < arguments.len() ==> (#[trigger] arguments[i]).contents() == document@
                && arguments[i].spec_id() == ArgumentId::at((range.start.index() + i) as nat),
{
    let ids = range.ids();
    let mut out: Vec<Argument<'a>> = Vec::new();
    let mut i: usize = 0;
    while i < ids.len()
        invariant
            i <= ids.len(),
            ids.len() == range.count(),
            arguments_stored(document@, range),
            forall|j: int|
                0 <= j < ids.len() ==> #[trigger] ids[j] == ArgumentId::at((range.start.index() + j) as nat),
            forall|j: int| 0 <= j < ids.len() ==> (#[trigger] ids[j]).index() == range.start.index() + j,
            out.len() == i,
            forall|j: int|
                0 <= j < i ==> (#[trigger] out[j]).contents() == document@ && out[j].spec_id()
                    == ArgumentId::at((range.start.index() + j) as nat),
        decreases ids.len() - i,
    {
        out.push(Argument { document, id: ids[i] });
        i = i + 1;
    }
    out
}

/// A directive.
#[derive(Clone, Copy)]
pub struct Directive<'a> {
    document: &'a ExecutableDocument,
    id: DirectiveId,
}

impl<'a> Directive<'a> {
    #[verifier::type_invariant]
    spec fn stored(self) -> bool {
        self.id.index() < self.document@.directives.len()
    }

    /// The contents of the document it reads.
    pub closed spec fn contents(&self) -> ExecutableContents {
        self.document@
    }

    pub closed spec fn spec_id(&self) -> DirectiveId {
        self.id
    }

    pub open spec fn record(&self) -> super::storage::DirectiveRecord {
        self.contents().directives[self.spec_id().index() as int]
    }

    pub fn id(&self) -> (id: DirectiveId)
        ensures
            id == self.spec_id(),
    {
        self.id
    }

    /// The directive's name.
    pub fn name(&self) -> (name: &'a str)
        requires
            self.record().name.index() < self.contents().strings.len(),
        ensures
            name@ == self.contents().text(self.record().name),
    {
        proof {
            use_type_invariant(self);
        }
        let document = self.document;
        document.string(document.directive(self.id).name)
    }

    pub fn name_span(&self) -> (span: Span)
        ensures
            span == self.record().name_span,
    {
        proof {
            use_type_invariant(self);
        }
        self.document.directive(self.id).name_span
    }

    /// The directive's arguments, in order.
    pub fn arguments(&self) -> (arguments: Vec<Argument<'a>>)
        requires
            arguments_stored(self.contents(), self.record().arguments),
        ensures
            arguments.len() == self.record().arguments.count(),
            forall|i: int|
                0 <= i < arguments.len() ==> (#[trigger] arguments[i]).contents() == self.contents()
                    && arguments[i].spec_id() == ArgumentId::at(
                    (self.record().arguments.start.index() + i) as nat,
                ),
    {
        proof {
            use_type_invariant(self);
        }
        read_arguments(self.document, self.document.directive(self.id).arguments)
    }
}

impl<'a> Directive<'a> {
    /// The directive as written: `@name(arguments)`.
    pub fn to_string(&self) -> (text: String)
        requires
            displayable(self.contents()),
        ensures
            text@ == directive_text(self.contents(), self.spec_id().index() as int),
    {
        proof {
            use_type_invariant(self);
        }
        let mut text = String::new();
        write_directive(self.document, &mut text, self.id);
        text
    }
}

impl ExecutableId for DirectiveId {
    type Reader<'a> = Directive<'a>;

    open spec fn readable(self, contents: ExecutableContents) -> bool {
        self.index() < contents.directives.len()
    }

    open spec fn reads<'a>(self, contents: ExecutableContents, reader: Directive<'a>) -> bool {
        reader.contents() == contents && reader.spec_id() == self
    }

    fn read<'a>(self, document: &'a ExecutableDocument) -> (reader: Directive<'a>) {
        Directive { document, id: self }
    }
}

/// An argument of a field or a directive.
#[derive(Clone, Copy)]
pub struct Argument<'a> {
    document: &'a ExecutableDocument,
    id: ArgumentId,
}

impl<'a> Argument<'a> {
    #[verifier::type_invariant]
    spec fn stored(self) -> bool {
        self.id.index() < self.document@.arguments.len()
    }

    /// The contents of the document it reads.
    pub closed spec fn contents(&self) -> ExecutableContents {
        self.document@
    }

    pub closed spec fn spec_id(&self) -> ArgumentId {
        self.id
    }

    pub open spec fn record(&self) -> super::storage::ArgumentRecord {
        self.contents().arguments[self.spec_id().index() as int]
    }

    pub fn id(&self) -> (id: ArgumentId)
        ensures
            id == self.spec_id(),
    {
        self.id
    }

    /// The argument's name.
    pub fn name(&self) -> (name: &'a str)
        requires
            self.record().name.index() < self.contents().strings.len(),
        ensures
            name@ == self.contents().text(self.record().name),
    {
        proof {
            use_type_invariant(self);
        }
        let document = self.document;
        document.string(document.argument(self.id).name)
    }

    pub fn name_span(&self) -> (span: Span)
        ensures
            span == self.record().name_span,
    {
        proof {
            use_type_invariant(self);
        }
        self.document.argument(self.id).name_span
    }

    /// The argument's value, as a tree.
    pub fn value(&self) -> (value: Value<'a>)
        requires
            values_well_founded(self.contents()),
            self.record().value.index() < self.contents().values.len(),
        ensures
            reads_as(self.contents(), self.record().value.index(), value),
    {
        proof {
            use_type_invariant(self);
        }
        let document = self.document;
        document.read_value(document.argument(self.id).value)
    }
}

impl<'a> Argument<'a> {
    /// The argument as written: `name: value`.
    pub fn to_string(&self) -> (text: String)
        requires
            displayable(self.contents()),
        ensures
            text@ == argument_text(self.contents(), self.spec_id().index() as int),
    {
        proof {
            use_type_invariant(self);
        }
        let mut text = String::new();
        write_argument(self.document, &mut text, self.id);
        text
    }
}

impl ExecutableId for ArgumentId {
    type Reader<'a> = Argument<'a>;

    open spec fn readable(self, contents: ExecutableContents) -> bool {
        self.index() < contents.arguments.len()
    }

    open spec fn reads<'a>(self, contents: ExecutableContents, reader: Argument<'a>) -> bool {
        reader.contents() == contents && reader.spec_id() == self
    }

    fn read<'a>(self, document: &'a ExecutableDocument) -> (reader: Argument<'a>) {
        Argument { document, id: self }
    }
}

/// Whether every variable definition of `range` is stored.
pub open spec fn variables_stored(contents: ExecutableContents, range: IdRange<VariableDefinitionId>) -> bool {
    range.count() > 0 ==> range.end.index() <= contents.variables.len()
}

/// The readers of the variable definitions of `range`, in order.
pub(crate) fn read_variables<'a>(document: &'a ExecutableDocument, range: IdRange<VariableDefinitionId>) -> (variables: Vec<VariableDefinition<'a>>)
    requires
        variables_stored(document@, range),
    ensures
        variables.len() == range.count(),
        forall|i: int|
            0 <= i < variables.len() ==> (#[trigger] variables[i]).contents() == document@
                && variables[i].spec_id() == VariableDefinitionId::at((range.start.index() + i) as nat),
{
    let ids = range.ids();
    let mut out: Vec<VariableDefinition<'a>> = Vec::new();
    let mut i: usize = 0;
    while i < ids.len()
        invariant
            i <= ids.len(),
            ids.len() == range.count(),
            variables_stored(document@, range),
            forall|j: int|
                0 <= j < ids.len() ==> #[trigger] ids[j] == VariableDefinitionId::at((range.start.index() + j) as nat),
            forall|j: int| 0 <= j < ids.len() ==> (#[trigger] ids[j]).index() == range.start.index() + j,
            out.len() == i,
            forall|j: int|
                0 <= j < i ==> (#[trigger] out[j]).contents() == document@ && out[j].spec_id()
                    == VariableDefinitionId::at((range.start.index() + j) as nat),
        decreases ids.len() - i,
    {
        out.push(VariableDefinition { document, id: ids[i] });
        i = i + 1;
    }
    out
}

/// A variable definition of an operation.
#[derive(Clone, Copy)]
pub struct VariableDefinition<'a> {
    document: &'a ExecutableDocument,
    id: VariableDefinitionId,
}

impl<'a> VariableDefinition<'a> {
    #[verifier::type_invariant]
    spec fn stored(self) -> bool {
        self.id.index() < self.document@.variables.len()
    }

    /// The contents of the document it reads.
    pub closed spec fn contents(&self) -> ExecutableContents {
        self.document@
    }

    pub closed spec fn spec_id(&self) -> VariableDefinitionId {
        self.id
    }

    pub open spec fn record(&self) -> VariableDefinitionRecord {
        self.contents().variables[self.spec_id().index() as int]
    }

    pub fn id(&self) -> (id: VariableDefinitionId)
        ensures
            id == self.spec_id(),
    {
        self.id
    }

    /// The variable's type.
    pub fn ty(&self) -> (ty: Type<'a>)
        requires
            self.record().ty.readable(self.contents()),
        ensures
            self.record().ty.reads(self.contents(), ty),
    {
        proof {
            use_type_invariant(self);
        }
        let document = self.document;
        document.variable(self.id).ty.read(document)
    }

    /// The variable's directives, in order.
    pub fn directives(&self) -> (directives: Vec<Directive<'a>>)
        requires
            directives_stored(self.contents(), self.record().directives),
        ensures
            directives.len() == self.record().directives.count(),
            forall|i: int|
                0 <= i < directives.len() ==> (#[trigger] directives[i]).contents() == self.contents()
                    && directives[i].spec_id() == DirectiveId::at(
                    (self.record().directives.start.index() + i) as nat,
                ),
    {
        proof {
            use_type_invariant(self);
        }
        read_directives(self.document, self.document.variable(self.id).directives)
    }

    pub fn span(&self) -> (span: Span)
        ensures
            span == self.record().span,
    {
        proof {
            use_type_invariant(self);
        }
        self.document.variable(self.id).span
    }
}

impl<'a> VariableDefinition<'a> {
    /// The variable's name, without the `$`.
    pub fn name(&self) -> (name: &'a str)
        requires
            self.record().name.index() < self.contents().strings.len(),
        ensures
            name@ == self.contents().text(self.record().name),
    {
        proof {
            use_type_invariant(self);
        }
        self.document.string(self.document.variable(self.id).name)
    }

    /// The variable's default value, where it has one.
    pub fn default_value(&self) -> (value: Option<Value<'a>>)
        requires
            values_well_founded(self.contents()),
            self.record().default_value matches Some(d) ==> d.index() < self.contents().values.len(),
        ensures
            match self.record().default_value {
                Some(d) => value matches Some(v) && reads_as(self.contents(), d.index(), v),
                None => value is None,
            },
    {
        proof {
            use_type_invariant(self);
        }
        match self.document.variable(self.id).default_value {
            Some(d) => Some(self.document.read_value(d)),
            None => None,
        }
    }

    /// The definition as written: `$name: Type = default @directives`.
    pub fn to_string(&self) -> (text: String)
        requires
            displayable(self.contents()),
        ensures
            text@ == variable_text(self.contents(), self.spec_id().index() as int),
    {
        proof {
            use_type_invariant(self);
        }
        let mut text = String::new();
        write_variable(self.document, &mut text, self.id);
        text
    }
}

impl ExecutableId for VariableDefinitionId {
    type Reader<'a> = VariableDefinition<'a>;

    open spec fn readable(self, contents: ExecutableContents) -> bool {
        self.index() < contents.variables.len()
    }

    open spec fn reads<'a>(self, contents: ExecutableContents, reader: VariableDefinition<'a>) -> bool {
        reader.contents() == contents && reader.spec_id() == self
    }

    fn read<'a>(self, document: &'a ExecutableDocument) -> (reader: VariableDefinition<'a>) {
        VariableDefinition { document, id: self }
    }
}

/// How a type reference is written: its name inside its wrappers, the
/// first wrapper outermost (`[` and `]` for a list, `!` after a non-null
/// type).
pub open spec fn type_text(name: Seq<char>, wrappers: Seq<WrappingType>) -> Seq<char>
    decreases wrappers.len(),
{
    if wrappers.len() == 0 {
        name
    } else {
        match wrappers[0] {
            WrappingType::List => seq!['['] + type_text(name, wrappers.drop_first()) + seq![']'],
            WrappingType::NonNull => type_text(name, wrappers.drop_first()) + seq!['!'],
        }
    }
}

/// A type reference.
#[derive(Clone, Copy)]
pub struct Type<'a> {
    document: &'a ExecutableDocument,
    id: TypeId,
}

impl<'a> Type<'a> {
    #[verifier::type_invariant]
    spec fn stored(self) -> bool {
        &&& self.id.index() < self.document@.types.len()
        &&& self.document@.types[self.id.index() as int].name.index() < self.document@.strings.len()
    }

    /// The contents of the document it reads.
    pub closed spec fn contents(&self) -> ExecutableContents {
        self.document@
    }

    pub closed spec fn spec_id(&self) -> TypeId {
        self.id
    }

    pub open spec fn record(&self) -> TypeRecord {
        self.contents().types[self.spec_id().index() as int]
    }

    /// The text of the named type.
    pub open spec fn name_text(&self) -> Seq<char> {
        self.contents().text(self.record().name)
    }

    /// The name of the type inside its wrappers.
    pub fn name(&self) -> (name: &'a str)
        ensures
            name@ == self.name_text(),
    {
        proof {
            use_type_invariant(self);
        }
        let document = self.document;
        document.string(document.type_record(self.id).name)
    }

    /// The wrappers, from the outermost to the innermost.
    pub fn wrappers(&self) -> (wrappers: Vec<WrappingType>)
        ensures
            wrappers@ == self.record().wrappers@,
    {
        proof {
            use_type_invariant(self);
        }
        let record = self.document.type_record(self.id);
        let mut out: Vec<WrappingType> = Vec::new();
        let mut i: usize = 0;
        while i < record.wrappers.len()
            invariant
                i <= record.wrappers.len(),
                out@ == record.wrappers@.take(i as int),
            decreases record.wrappers.len() - i,
        {
            proof {
                assert(record.wrappers@.take(i + 1) =~= record.wrappers@.take(i as int).push(record.wrappers@[i as int]));
            }
            out.push(record.wrappers[i]);
            i = i + 1;
        }
        proof {
            assert(record.wrappers@.take(i as int) =~= record.wrappers@);
        }
        out
    }

    /// The type as written, such as `[String!]!`; see [`type_text`].
    pub fn to_string(&self) -> (text: String)
        ensures
            text@ == type_text(self.name_text(), self.record().wrappers@),
    {
        let name = self.name();
        let wrappers = self.wrappers();
        let mut text = String::new();
        write_type(&mut text, name, &wrappers, 0);
        proof {
            assert(wrappers@.skip(0) =~= wrappers@);
        }
        text
    }
}

/// Appends the text of the type named `name` inside the wrappers of
/// `wrappers` from position `k` on.
fn write_type(text: &mut String, name: &str, wrappers: &Vec<WrappingType>, k: usize)
    requires
        k <= wrappers.len(),
    ensures
        final(text)@ == old(text)@ + type_text(name@, wrappers@.skip(k as int)),
    decreases wrappers.len() - k,
{
    if k == wrappers.len() {
        append(text, name);
        proof {
            assert(wrappers@.skip(k as int) =~= Seq::<WrappingType>::empty());
        }
    } else {
        proof {
            assert(wrappers@.skip(k as int).drop_first() =~= wrappers@.skip(k + 1));
        }
        match wrappers[k] {
            WrappingType::List => {
                push_char(text, '[');
                write_type(text, name, wrappers, k + 1);
                push_char(text, ']');
                proof {
                    assert(old(text)@ + type_text(name@, wrappers@.skip(k as int)) =~= old(text)@.push('[')
                        + type_text(name@, wrappers@.skip(k + 1)) + seq![']']);
                }
            },
            WrappingType::NonNull => {
                write_type(text, name, wrappers, k + 1);
                push_char(text, '!');
                proof {
                    assert(old(text)@ + type_text(name@, wrappers@.skip(k as int)) =~= old(text)@
                        + type_text(name@, wrappers@.skip(k + 1)) + seq!['!']);
                }
            },
        }
    }
}

impl<'a> PartialEq for Type<'a> {
    fn eq(&self, other: &Self) -> (r: bool) {
        let name = self.name().to_owned();
        let other_name = other.name().to_owned();
        if name != other_name {
            return false;
        }
        let wrappers = self.wrappers();
        let other_wrappers = other.wrappers();
        if wrappers.len() != other_wrappers.len() {
            return false;
        }
        let mut i: usize = 0;
        while i < wrappers.len()
            invariant
                i <= wrappers.len() == other_wrappers.len(),
                wrappers@ == self.record().wrappers@,
                other_wrappers@ == other.record().wrappers@,
                forall|j: int| 0 <= j < i ==> wrappers@[j] == other_wrappers@[j],
            decreases wrappers.len() - i,
        {
            if wrappers[i] != other_wrappers[i] {
                return false;
            }
            i = i + 1;
        }
        proof {
            assert(wrappers@ =~= other_wrappers@);
        }
        true
    }
}

impl<'a> vstd::std_specs::cmp::PartialEqSpecImpl for Type<'a> {
    open spec fn obeys_eq_spec() -> bool {
        true
    }

    /// Two type references are equal where they name the same type inside
    /// the same wrappers, whatever their documents.
    open spec fn eq_spec(&self, other: &Self) -> bool {
        self.name_text() == other.name_text() && self.record().wrappers@ == other.record().wrappers@
    }
}

impl<'a> Eq for Type<'a> {}

impl ExecutableId for TypeId {
    type Reader<'a> = Type<'a>;

    open spec fn readable(self, contents: ExecutableContents) -> bool {
        &&& self.index() < contents.types.len()
        &&& contents.types[self.index() as int].name.index() < contents.strings.len()
    }

    open spec fn reads<'a>(self, contents: ExecutableContents, reader: Type<'a>) -> bool {
        reader.contents() == contents && reader.spec_id() == self
    }

    fn read<'a>(self, document: &'a ExecutableDocument) -> (reader: Type<'a>) {
        Type { document, id: self }
    }
}

} // verus!

//! Documents laid out for the `pretty` crate: which text goes where, where a
//! line may break, what is indented and what is kept on one line where it
//! fits.  Rendering the layout at a given width is left to that crate.
use vstd::prelude::*;

use super::display::{int_text, stored_items_text, value_text_at, write_int};
use super::contents::ExecutableContents;
use super::ids::{
    ArgumentId, DirectiveId, ExecutableDefinitionId, FieldSelectionId, FragmentDefinitionId,
    FragmentSpreadId, IdRange, InlineFragmentId, OperationDefinitionId, SelectionId, StringId,
    ValueId, VariableDefinitionId,
};
use super::document::ExecutableDocument;
use super::node_display::{
    argument_displayable, directive_displayable, displayable, field_displayable,
    fragment_displayable, fragment_spread_displayable, inline_fragment_displayable, nested_end,
    operation_displayable, operation_type_text, selection_placed, selections_in_bounds,
    variable_displayable, argument_text, argument_list_text, arguments_text, directive_text,
    directive_list_text, directives_text, variable_text,
};
use super::readers::{arguments_stored, directives_stored, type_text, variables_stored, ExecutableId, Type};
use super::storage::{ExecutableDefinitionRecord, OperationType, SelectionRecord};
use crate::printing::{prints_in_short_form, use_short_form};
use super::storage::ValueRecord;
use super::value::{reads_as, values_well_founded, Value};
use crate::text::{append as append_text, escape_string, escaped, push_char};

verus! {

/// A layout, built as the `pretty` crate builds its documents.
pub enum Layout {
    /// Nothing.
    Nil,
    /// Text that never breaks.
    Text(String),
    /// One space.
    Space,
    /// A space where the group around it fits on one line; a line break
    /// otherwise.
    Line,
    /// Nothing where the group around it fits on one line; a line break
    /// otherwise.
    SoftLine,
    /// A line break, always.
    Hardline,
    /// The layout with the lines it breaks indented by two more spaces.
    Nest(Box<Layout>),
    /// The layout on one line where it fits, broken where it does not.
    Group(Box<Layout>),
    /// The first layout where the group around it is broken; the second
    /// where it fits on one line.
    FlatAlt(Box<Layout>, Box<Layout>),
    /// One layout, then the other.
    Append(Box<Layout>, Box<Layout>),
}

/// What a [`Layout`] is, with its text as characters.
pub enum Doc {
    Nil,
    Text(Seq<char>),
    Space,
    Line,
    SoftLine,
    Hardline,
    Nest(Box<Doc>),
    Group(Box<Doc>),
    FlatAlt(Box<Doc>, Box<Doc>),
    Append(Box<Doc>, Box<Doc>),
}

/// The [`Doc`] that `layout` is.
pub open spec fn doc_of(layout: Layout) -> Doc
    decreases layout,
{
    match layout {
        Layout::Nil => Doc::Nil,
        Layout::Text(s) => Doc::Text(s@),
        Layout::Space => Doc::Space,
        Layout::Line => Doc::Line,
        Layout::SoftLine => Doc::SoftLine,
        Layout::Hardline => Doc::Hardline,
        Layout::Nest(inner) => Doc::Nest(Box::new(doc_of(*inner))),
        Layout::Group(inner) => Doc::Group(Box::new(doc_of(*inner))),
        Layout::FlatAlt(broken, flat) => Doc::FlatAlt(
            Box::new(doc_of(*broken)),
            Box::new(doc_of(*flat)),
        ),
        Layout::Append(first, second) => Doc::Append(
            Box::new(doc_of(*first)),
            Box::new(doc_of(*second)),
        ),
    }
}

/// `a`, then `b`.
pub open spec fn cat(a: Doc, b: Doc) -> Doc {
    Doc::Append(Box::new(a), Box::new(b))
}

/// `d` indented by two.
pub open spec fn nested(d: Doc) -> Doc {
    Doc::Nest(Box::new(d))
}

/// `d` on one line where it fits.
pub open spec fn grouped(d: Doc) -> Doc {
    Doc::Group(Box::new(d))
}

/// `d` between `open` and `close`.
pub open spec fn enclosed(open: Seq<char>, d: Doc, close: Seq<char>) -> Doc {
    cat(cat(Doc::Text(open), d), Doc::Text(close))
}

/// A line break where the group is broken; a comma and a space where it
/// fits on one line.
pub open spec fn comma_or_newline() -> Doc {
    Doc::FlatAlt(Box::new(Doc::Line), Box::new(cat(Doc::Text(","@), Doc::Space)))
}

/// A possible line break, and a comma and a space where the group fits on
/// one line.
pub open spec fn soft_comma() -> Doc {
    cat(Doc::SoftLine, Doc::FlatAlt(Box::new(Doc::Nil), Box::new(Doc::Text(", "@))))
}

/// `docs` with `separator` between each two, starting from nothing.
pub open spec fn interspersed(docs: Seq<Doc>, separator: Doc) -> Doc
    decreases docs.len(),
{
    if docs.len() == 0 {
        Doc::Nil
    } else if docs.len() == 1 {
        cat(Doc::Nil, docs[0])
    } else {
        cat(cat(interspersed(docs.drop_last(), separator), separator), docs.last())
    }
}

/// How a value is laid out: lists and objects on one line where they fit,
/// one item or field per line otherwise.
pub open spec fn value_doc(v: Value) -> Doc
    decreases v, 0int,
{
    match v {
        Value::Variable(name) => Doc::Text(seq!['$'] + name@),
        Value::Int(n) => Doc::Text(int_text(n as int)),
        Value::Float(literal) => Doc::Text(literal@),
        Value::String(s) => enclosed("\""@, Doc::Text(escaped(s@)), "\""@),
        Value::Boolean(b) => Doc::Text(
            if b {
                "true"@
            } else {
                "false"@
            },
        ),
        Value::Null => Doc::Text("null"@),
        Value::Enum(name) => Doc::Text(name@),
        Value::List(items) => if items.len() == 0 {
            enclosed("["@, Doc::Nil, "]"@)
        } else {
            grouped(
                enclosed(
                    "["@,
                    cat(
                        nested(
                            cat(Doc::SoftLine, interspersed(item_docs(items@, items.len() as int), soft_comma())),
                        ),
                        Doc::SoftLine,
                    ),
                    "]"@,
                ),
            )
        },
        Value::Object(pairs) => if pairs.len() == 0 {
            enclosed("{"@, Doc::Nil, "}"@)
        } else {
            grouped(
                enclosed(
                    "{"@,
                    cat(
                        nested(
                            cat(Doc::Line, interspersed(field_docs(pairs@, pairs.len() as int), soft_comma())),
                        ),
                        Doc::Line,
                    ),
                    "}"@,
                ),
            )
        },
    }
}

/// The layouts of the first `k` items.
pub open spec fn item_docs(items: Seq<Value>, k: int) -> Seq<Doc>
    decreases items, k,
{
    if k <= 0 || k > items.len() {
        Seq::empty()
    } else {
        item_docs(items, k - 1).push(value_doc(items[k - 1]))
    }
}

/// The layout of an object field: `name: value`.
pub open spec fn field_doc(name: Seq<char>, value: Doc) -> Doc {
    cat(cat(cat(Doc::Text(name), Doc::Text(":"@)), Doc::Space), value)
}

/// The layouts of the first `k` fields.
pub open spec fn field_docs(pairs: Seq<(&str, Value)>, k: int) -> Seq<Doc>
    decreases pairs, k,
{
    if k <= 0 || k > pairs.len() {
        Seq::empty()
    } else {
        field_docs(pairs, k - 1).push(field_doc(pairs[k - 1].0@, value_doc(pairs[k - 1].1)))
    }
}

/// `a`, then `b`.
pub fn append(a: Layout, b: Layout) -> (l: Layout)
    ensures
        doc_of(l) == cat(doc_of(a), doc_of(b)),
{
    Layout::Append(Box::new(a), Box::new(b))
}

/// `d` indented by two.
pub fn nest(d: Layout) -> (l: Layout)
    ensures
        doc_of(l) == nested(doc_of(d)),
{
    Layout::Nest(Box::new(d))
}

/// `d` on one line where it fits.
pub fn group(d: Layout) -> (l: Layout)
    ensures
        doc_of(l) == grouped(doc_of(d)),
{
    Layout::Group(Box::new(d))
}

/// Text of `s`.
pub fn text(s: &str) -> (l: Layout)
    ensures
        doc_of(l) == Doc::Text(s@),
{
    Layout::Text(s.to_owned())
}

/// `d` between `open` and `close`.
pub fn enclose(open: &str, d: Layout, close: &str) -> (l: Layout)
    ensures
        doc_of(l) == enclosed(open@, doc_of(d), close@),
{
    append(append(text(open), d), text(close))
}

/// See [`comma_or_newline`].
pub fn comma_or_newline_layout() -> (l: Layout)
    ensures
        doc_of(l) == comma_or_newline(),
{
    let comma = append(text(","), Layout::Space);
    let l = Layout::FlatAlt(Box::new(Layout::Line), Box::new(comma));
    proof {
        assert(doc_of(Layout::Line) == Doc::Line);
        assert(doc_of(l) == Doc::FlatAlt(Box::new(doc_of(Layout::Line)), Box::new(doc_of(comma))));
    }
    l
}

/// See [`soft_comma`].
pub fn soft_comma_layout() -> (l: Layout)
    ensures
        doc_of(l) == soft_comma(),
{
    let flat = text(", ");
    let alt = Layout::FlatAlt(Box::new(Layout::Nil), Box::new(flat));
    proof {
        assert(doc_of(Layout::Nil) == Doc::Nil);
        assert(doc_of(alt) == Doc::FlatAlt(Box::new(doc_of(Layout::Nil)), Box::new(doc_of(flat))));
    }
    let l = append(Layout::SoftLine, alt);
    proof {
        assert(doc_of(Layout::SoftLine) == Doc::SoftLine);
    }
    l
}

/// `acc`, which holds the first `k` of `docs` interspersed, with the next
/// one added.
pub fn intersperse_next(acc: Layout, separator: Layout, next: Layout, docs: Ghost<Seq<Doc>>, k: usize) -> (l: Layout)
    requires
        k < docs@.len(),
        doc_of(acc) == interspersed(docs@.take(k as int), doc_of(separator)),
        doc_of(next) == docs@[k as int],
    ensures
        doc_of(l) == interspersed(docs@.take(k + 1), doc_of(separator)),
{
    proof {
        assert(docs@.take(k + 1).drop_last() =~= docs@.take(k as int));
        if k == 0 {
            assert(docs@.take(0) =~= Seq::<Doc>::empty());
        }
    }
    if k == 0 {
        append(Layout::Nil, next)
    } else {
        append(append(acc, separator), next)
    }
}

/// Lays `v` out; see [`value_doc`].
pub fn value_layout(v: &Value) -> (l: Layout)
    ensures
        doc_of(l) == value_doc(*v),
    decreases v,
{
    match v {
        Value::Variable(name) => {
            let mut s = String::new();
            push_char(&mut s, '$');
            append_text(&mut s, name);
            Layout::Text(s)
        },
        Value::Int(n) => {
            let mut s = String::new();
            write_int(&mut s, *n);
            proof {
                assert(s@ =~= int_text(*n as int));
            }
            Layout::Text(s)
        },
        Value::Float(literal) => text(literal),
        Value::String(s) => {
            let inner = Layout::Text(escape_string(s));
            enclose("\"", inner, "\"")
        },
        Value::Boolean(b) => if *b {
            text("true")
        } else {
            text("false")
        },
        Value::Null => text("null"),
        Value::Enum(name) => text(name),
        Value::List(items) => {
            if items.len() == 0 {
                return enclose("[", Layout::Nil, "]");
            }
            let ghost docs = item_docs(items@, items.len() as int);
            let mut acc = Layout::Nil;
            let mut k: usize = 0;
            proof {
                lemma_item_docs_len(items@, items.len() as int);
                assert(docs.take(0) =~= Seq::<Doc>::empty());
            }
            while k < items.len()
                invariant
                    *v == Value::List(*items),
                    k <= items.len(),
                    docs == item_docs(items@, items.len() as int),
                    docs.len() == items.len(),
                    doc_of(acc) == interspersed(docs.take(k as int), soft_comma()),
                decreases items.len() - k,
            {
                proof {
                    assert(decreases_to!(*v => (*v)->List_0));
                    assert((*v)->List_0 == *items);
                    assert(decreases_to!(*items => items@));
                    assert(decreases_to!(items@ => items@[k as int]));
                    assert(decreases_to!(*v => items@[k as int]));
                    lemma_item_docs_index(items@, items.len() as int, k as int);
                }
                let next = value_layout(&items[k]);
                acc = intersperse_next(acc, soft_comma_layout(), next, Ghost(docs), k);
                k = k + 1;
            }
            proof {
                assert(docs.take(items.len() as int) =~= docs);
            }
            group(enclose("[", append(nest(append(Layout::SoftLine, acc)), Layout::SoftLine), "]"))
        },
        Value::Object(pairs) => {
            if pairs.len() == 0 {
                return enclose("{", Layout::Nil, "}");
            }
            let ghost docs = field_docs(pairs@, pairs.len() as int);
            let mut acc = Layout::Nil;
            let mut k: usize = 0;
            proof {
                lemma_field_docs_len(pairs@, pairs.len() as int);
                assert(docs.take(0) =~= Seq::<Doc>::empty());
            }
            while k < pairs.len()
                invariant
                    *v == Value::Object(*pairs),
                    k <= pairs.len(),
                    docs == field_docs(pairs@, pairs.len() as int),
                    docs.len() == pairs.len(),
                    doc_of(acc) == interspersed(docs.take(k as int), soft_comma()),
                decreases pairs.len() - k,
            {
                proof {
                    assert(decreases_to!(*v => (*v)->Object_0));
                    assert((*v)->Object_0 == *pairs);
                    assert(decreases_to!(*pairs => pairs@));
                    assert(decreases_to!(pairs@ => pairs@[k as int]));
                    assert(decreases_to!(pairs@[k as int] => pairs@[k as int].1));
                    assert(decreases_to!(*v => pairs@[k as int].1));
                    lemma_field_docs_index(pairs@, pairs.len() as int, k as int);
                }
                let value = value_layout(&pairs[k].1);
                let next = append(append(append(text(pairs[k].0), text(":")), Layout::Space), value);
                acc = intersperse_next(acc, soft_comma_layout(), next, Ghost(docs), k);
                k = k + 1;
            }
            proof {
                assert(docs.take(pairs.len() as int) =~= docs);
            }
            group(enclose("{", append(nest(append(Layout::Line, acc)), Layout::Line), "}"))
        },
    }
}

proof fn lemma_item_docs_len(items: Seq<Value>, k: int)
    requires
        0 <= k <= items.len(),
    ensures
        item_docs(items, k).len() == k,
    decreases k,
{
    if k > 0 {
        lemma_item_docs_len(items, k - 1);
    }
}

proof fn lemma_item_docs_index(items: Seq<Value>, k: int, j: int)
    requires
        0 <= j < k <= items.len(),
    ensures
        item_docs(items, k)[j] == value_doc(items[j]),
    decreases k,
{
    lemma_item_docs_len(items, k - 1);
    if j < k - 1 {
        lemma_item_docs_index(items, k - 1, j);
    }
}

proof fn lemma_field_docs_len(pairs: Seq<(&str, Value)>, k: int)
    requires
        0 <= k <= pairs.len(),
    ensures
        field_docs(pairs, k).len() == k,
    decreases k,
{
    if k > 0 {
        lemma_field_docs_len(pairs, k - 1);
    }
}

proof fn lemma_field_docs_index(pairs: Seq<(&str, Value)>, k: int, j: int)
    requires
        0 <= j < k <= pairs.len(),
    ensures
        field_docs(pairs, k)[j] == field_doc(pairs[j].0@, value_doc(pairs[j].1)),
    decreases k,
{
    lemma_field_docs_len(pairs, k - 1);
    if j < k - 1 {
        lemma_field_docs_index(pairs, k - 1, j);
    }
}

/// How the value stored at `index` is laid out; see [`value_doc`].  A
/// child stored at or after its parent is left out.
pub open spec fn value_doc_at(c: ExecutableContents, index: int) -> Doc
    decreases index, 1int, 0int,
{
    if index < 0 || index >= c.values.len() {
        Doc::Nil
    } else {
        match c.values[index] {
            ValueRecord::Variable(s) => Doc::Text(seq!['$'] + c.text(s)),
            ValueRecord::Int(n) => Doc::Text(int_text(n as int)),
            ValueRecord::Float(s) => Doc::Text(c.text(s)),
            ValueRecord::String(s) => enclosed("\""@, Doc::Text(escaped(c.text(s))), "\""@),
            ValueRecord::Boolean(b) => Doc::Text(
                if b {
                    "true"@
                } else {
                    "false"@
                },
            ),
            ValueRecord::Null => Doc::Text("null"@),
            ValueRecord::Enum(s) => Doc::Text(c.text(s)),
            ValueRecord::List(ids) => if ids.len() == 0 {
                enclosed("["@, Doc::Nil, "]"@)
            } else {
                grouped(
                    enclosed(
                        "["@,
                        cat(
                            nested(
                                cat(
                                    Doc::SoftLine,
                                    interspersed(
                                        stored_item_docs(c, index, ids@, ids.len() as int),
                                        soft_comma(),
                                    ),
                                ),
                            ),
                            Doc::SoftLine,
                        ),
                        "]"@,
                    ),
                )
            },
            ValueRecord::Object(fields) => if fields.len() == 0 {
                enclosed("{"@, Doc::Nil, "}"@)
            } else {
                grouped(
                    enclosed(
                        "{"@,
                        cat(
                            nested(
                                cat(
                                    Doc::Line,
                                    interspersed(
                                        stored_field_docs(c, index, fields@, fields.len() as int),
                                        soft_comma(),
                                    ),
                                ),
                            ),
                            Doc::Line,
                        ),
                        "}"@,
                    ),
                )
            },
        }
    }
}

/// The layouts of the first `k` items of the list stored at `index`.
pub open spec fn stored_item_docs(c: ExecutableContents, index: int, ids: Seq<ValueId>, k: int) -> Seq<Doc>
    decreases index, 0int, k,
{
    if k <= 0 || k > ids.len() || index < 0 {
        Seq::empty()
    } else {
        stored_item_docs(c, index, ids, k - 1).push(
            if ids[k - 1].index() < index {
                value_doc_at(c, ids[k - 1].index() as int)
            } else {
                Doc::Nil
            },
        )
    }
}

/// The layouts of the first `k` fields of the object stored at `index`.
pub open spec fn stored_field_docs(
    c: ExecutableContents,
    index: int,
    fields: Seq<(StringId, ValueId)>,
    k: int,
) -> Seq<Doc>
    decreases index, 0int, k,
{
    if k <= 0 || k > fields.len() || index < 0 {
        Seq::empty()
    } else {
        stored_field_docs(c, index, fields, k - 1).push(
            field_doc(
                c.text(fields[k - 1].0),
                if fields[k - 1].1.index() < index {
                    value_doc_at(c, fields[k - 1].1.index() as int)
                } else {
                    Doc::Nil
                },
            ),
        )
    }
}

/// A value read from a document is laid out as the value stored there.
pub proof fn lemma_value_doc_at(c: ExecutableContents, index: nat, v: Value)
    requires
        reads_as(c, index, v),
    ensures
        value_doc(v) == value_doc_at(c, index as int),
    decreases index, 1int, 0int,
{
    match c.values[index as int] {
        ValueRecord::List(ids) => {
            let items = v->List_0;
            lemma_item_docs_at(c, index, ids@, items@, ids.len() as int);
        },
        ValueRecord::Object(fields) => {
            let pairs = v->Object_0;
            lemma_field_docs_at(c, index, fields@, pairs@, fields.len() as int);
        },
        _ => {},
    }
}

proof fn lemma_item_docs_at(c: ExecutableContents, index: nat, ids: Seq<ValueId>, items: Seq<Value>, k: int)
    requires
        0 <= k <= ids.len(),
        items.len() == ids.len(),
        forall|m: int|
            0 <= m < ids.len() ==> (#[trigger] ids[m]).index() < index && reads_as(
                c,
                ids[m].index(),
                items[m],
            ),
    ensures
        item_docs(items, k) == stored_item_docs(c, index as int, ids, k),
    decreases index, 0int, k,
{
    if k > 0 {
        lemma_item_docs_at(c, index, ids, items, k - 1);
        assert(ids[k - 1].index() < index);
        lemma_value_doc_at(c, ids[k - 1].index(), items[k - 1]);
    }
}

proof fn lemma_field_docs_at(
    c: ExecutableContents,
    index: nat,
    fields: Seq<(StringId, ValueId)>,
    pairs: Seq<(&str, Value)>,
    k: int,
)
    requires
        0 <= k <= fields.len(),
        pairs.len() == fields.len(),
        forall|m: int|
            0 <= m < fields.len() ==> (#[trigger] fields[m]).1.index() < index && pairs[m].0@
                == c.text(fields[m].0) && reads_as(c, fields[m].1.index(), pairs[m].1),
    ensures
        field_docs(pairs, k) == stored_field_docs(c, index as int, fields, k),
    decreases index, 0int, k,
{
    if k > 0 {
        lemma_field_docs_at(c, index, fields, pairs, k - 1);
        assert(fields[k - 1].1.index() < index);
        lemma_value_doc_at(c, fields[k - 1].1.index(), pairs[k - 1].1);
    }
}

/// Every definition refers to a stored operation or fragment.
pub open spec fn definitions_stored(c: ExecutableContents) -> bool {
    forall|i: int|
        #![trigger c.definitions[i]]
        0 <= i < c.definitions.len() ==> match c.definitions[i] {
            ExecutableDefinitionRecord::Operation(id) => id.index() < c.operations.len(),
            ExecutableDefinitionRecord::Fragment(id) => id.index() < c.fragments.len(),
        }
}

/// Everything that laying a document out follows is stored, values refer
/// back, and every selection set is stored before what it belongs to, as the
/// writer stores them.
pub open spec fn layable(c: ExecutableContents) -> bool {
    &&& definitions_stored(c)
    &&& values_well_founded(c)
    &&& forall|k: int| 0 <= k < c.arguments.len() ==> #[trigger] argument_displayable(c, k)
    &&& forall|k: int| 0 <= k < c.directives.len() ==> #[trigger] directive_displayable(c, k)
    &&& forall|k: int| 0 <= k < c.variables.len() ==> #[trigger] variable_displayable(c, k)
    &&& forall|k: int| 0 <= k < c.field_selections.len() ==> #[trigger] field_displayable(c, k)
    &&& forall|k: int|
        0 <= k < c.inline_fragments.len() ==> #[trigger] inline_fragment_displayable(c, k)
    &&& forall|k: int|
        0 <= k < c.fragment_spreads.len() ==> #[trigger] fragment_spread_displayable(c, k)
    &&& forall|k: int| 0 <= k < c.selections.len() ==> #[trigger] selection_placed(c, k)
    &&& forall|k: int| 0 <= k < c.operations.len() ==> #[trigger] operation_displayable(c, k)
    &&& forall|k: int| 0 <= k < c.fragments.len() ==> #[trigger] fragment_displayable(c, k)
}

/// A document that can be written out can be laid out.
pub proof fn lemma_displayable_layable(c: ExecutableContents)
    requires
        displayable(c),
    ensures
        layable(c),
{
}

/// The argument at `k`: `name: value`.
pub open spec fn argument_doc(c: ExecutableContents, k: int) -> Doc {
    field_doc(c.text(c.arguments[k].name), value_doc_at(c, c.arguments[k].value.index() as int))
}

/// The arguments of `range`, in order.
pub open spec fn argument_docs(c: ExecutableContents, range: IdRange<ArgumentId>) -> Seq<Doc> {
    Seq::new(range.count(), |j: int| argument_doc(c, range.start.index() + j))
}

/// The directive at `k`: `@name`, and its arguments in parentheses, on one
/// line where they fit, one per line otherwise.
pub open spec fn directive_doc(c: ExecutableContents, k: int) -> Doc {
    let d = c.directives[k];
    let name = cat(Doc::Text("@"@), Doc::Text(c.text(d.name)));
    if d.arguments.count() == 0 {
        name
    } else {
        cat(
            name,
            grouped(
                enclosed(
                    "("@,
                    nested(interspersed(argument_docs(c, d.arguments), comma_or_newline())),
                    ")"@,
                ),
            ),
        )
    }
}

/// The directives of `range`, each after a space; nothing where there are
/// none.
pub open spec fn directives_doc(c: ExecutableContents, range: IdRange<DirectiveId>) -> Doc {
    if range.count() == 0 {
        Doc::Nil
    } else {
        cat(
            Doc::Space,
            interspersed(
                Seq::new(range.count(), |j: int| directive_doc(c, range.start.index() + j)),
                Doc::Space,
            ),
        )
    }
}

/// The arguments of a field: in parentheses, on one line where they fit,
/// one per line otherwise; nothing where there are none.
pub open spec fn field_arguments_doc(c: ExecutableContents, range: IdRange<ArgumentId>) -> Doc {
    if range.count() == 0 {
        Doc::Nil
    } else {
        grouped(
            enclosed(
                "("@,
                cat(
                    nested(cat(Doc::SoftLine, interspersed(argument_docs(c, range), comma_or_newline()))),
                    Doc::SoftLine,
                ),
                ")"@,
            ),
        )
    }
}

/// The variable definition at `k`: `$name: Type = default @directives`.
pub open spec fn variable_doc(c: ExecutableContents, k: int) -> Doc {
    let v = c.variables[k];
    let ty = c.types[v.ty.index() as int];
    let default = match v.default_value {
        Some(dv) => cat(cat(cat(Doc::Space, Doc::Text("="@)), Doc::Space), value_doc_at(c, dv.index() as int)),
        None => Doc::Nil,
    };
    cat(
        cat(
            cat(
                cat(cat(cat(cat(Doc::Nil, Doc::Text("$"@)), Doc::Text(c.text(v.name))), Doc::Text(":"@)), Doc::Space),
                Doc::Text(type_text(c.text(ty.name), ty.wrappers@)),
            ),
            default,
        ),
        directives_doc(c, v.directives),
    )
}

/// The variable definitions of `range` in parentheses, on one line where
/// they fit, one per line otherwise; nothing where there are none.
pub open spec fn variables_doc(c: ExecutableContents, range: IdRange<VariableDefinitionId>) -> Doc {
    if range.count() == 0 {
        Doc::Nil
    } else {
        grouped(
            enclosed(
                "("@,
                cat(
                    nested(
                        cat(
                            Doc::SoftLine,
                            interspersed(
                                Seq::new(range.count(), |j: int| variable_doc(c, range.start.index() + j)),
                                Doc::FlatAlt(Box::new(Doc::Line), Box::new(Doc::Text(", "@))),
                            ),
                        ),
                    ),
                    Doc::SoftLine,
                ),
                ")"@,
            ),
        )
    }
}

/// The selection at `s`.  A selection whose own selections are not all
/// stored before it is left out.
pub open spec fn selection_doc(c: ExecutableContents, s: int) -> Doc
    decreases s, 2int, 0int,
{
    if s < 0 || s >= c.selections.len() {
        Doc::Nil
    } else {
        match c.selections[s] {
            SelectionRecord::Field(id) => if id.index() < c.field_selections.len() && nested_end(
                c.field_selections[id.index() as int].selection_set,
            ) <= s {
                field_doc_at(c, id.index() as int)
            } else {
                Doc::Nil
            },
            SelectionRecord::InlineFragment(id) => if id.index() < c.inline_fragments.len()
                && nested_end(c.inline_fragments[id.index() as int].selection_set) <= s {
                inline_fragment_doc(c, id.index() as int)
            } else {
                Doc::Nil
            },
            SelectionRecord::FragmentSpread(id) => if id.index() < c.fragment_spreads.len() {
                fragment_spread_doc(c, id.index() as int)
            } else {
                Doc::Nil
            },
        }
    }
}

/// The field at `f`: `alias: name(arguments) @directives { ... }`, on one
/// line where it fits.
pub open spec fn field_doc_at(c: ExecutableContents, f: int) -> Doc
    decreases nested_end(c.field_selections[f].selection_set), 1int, 0int,
{
    let field = c.field_selections[f];
    let alias = match field.alias {
        Some(a) => cat(cat(Doc::Text(c.text(a)), Doc::Text(":"@)), Doc::Space),
        None => Doc::Nil,
    };
    grouped(
        cat(
            cat(
                cat(cat(alias, Doc::Text(c.text(field.name))), field_arguments_doc(c, field.arguments)),
                directives_doc(c, field.directives),
            ),
            selection_set_doc(c, field.selection_set, true),
        ),
    )
}

/// The inline fragment at `i`: `... on Type @directives { ... }`, on one
/// line where it fits.
pub open spec fn inline_fragment_doc(c: ExecutableContents, i: int) -> Doc
    decreases nested_end(c.inline_fragments[i].selection_set), 1int, 0int,
{
    let fragment = c.inline_fragments[i];
    let condition = match fragment.type_condition {
        Some(t) => cat(cat(cat(Doc::Space, Doc::Text("on"@)), Doc::Space), Doc::Text(c.text(t))),
        None => Doc::Nil,
    };
    grouped(
        cat(
            cat(cat(Doc::Text("..."@), condition), directives_doc(c, fragment.directives)),
            selection_set_doc(c, fragment.selection_set, true),
        ),
    )
}

/// The fragment spread at `i`: `...Name @directives`, on one line where it
/// fits.
pub open spec fn fragment_spread_doc(c: ExecutableContents, i: int) -> Doc {
    let spread = c.fragment_spreads[i];
    grouped(
        cat(
            cat(Doc::Text("..."@), Doc::Text(c.text(spread.fragment_name))),
            directives_doc(c, spread.directives),
        ),
    )
}

/// The selections of `range` between braces, each on a line of its own
/// and indented, after a space where `leading_space`; nothing where there
/// are none.
pub open spec fn selection_set_doc(c: ExecutableContents, range: IdRange<SelectionId>, leading_space: bool) -> Doc
    decreases nested_end(range), 0int, 1int,
{
    if range.count() == 0 {
        Doc::Nil
    } else {
        cat(
            cat(
                cat(
                    cat(
                        if leading_space {
                            Doc::Space
                        } else {
                            Doc::Nil
                        },
                        Doc::Text("{"@),
                    ),
                    nested(
                        cat(
                            Doc::Hardline,
                            interspersed(
                                selection_docs(c, range.start.index() as int, range.end.index() as int),
                                Doc::Hardline,
                            ),
                        ),
                    ),
                ),
                Doc::Hardline,
            ),
            Doc::Text("}"@),
        )
    }
}

/// The selections from `start` up to `k`.
pub open spec fn selection_docs(c: ExecutableContents, start: int, k: int) -> Seq<Doc>
    decreases k, 0int, 0int,
{
    if k <= start || start < 0 {
        Seq::empty()
    } else {
        selection_docs(c, start, k - 1).push(selection_doc(c, k - 1))
    }
}

/// The operation at `k`: `query Name(variables) @directives { ... }`.
pub open spec fn operation_doc(c: ExecutableContents, k: int) -> Doc {
    let o = c.operations[k];
    let keyword = cat(Doc::Nil, Doc::Text(operation_type_text(o.operation_type)));
    let named = match o.name {
        Some(n) => cat(cat(keyword, Doc::Space), Doc::Text(c.text(n))),
        None => keyword,
    };
    cat(
        cat(cat(named, variables_doc(c, o.variable_definitions)), directives_doc(c, o.directives)),
        selection_set_doc(c, o.selection_set, true),
    )
}

/// The fragment at `k`: `fragment Name on Type @directives { ... }`.
pub open spec fn fragment_doc(c: ExecutableContents, k: int) -> Doc {
    let f = c.fragments[k];
    cat(
        cat(
            cat(
                cat(
                    cat(
                        cat(
                            cat(cat(cat(Doc::Nil, Doc::Text("fragment"@)), Doc::Space), Doc::Text(c.text(f.name))),
                            Doc::Space,
                        ),
                        Doc::Text("on"@),
                    ),
                    Doc::Space,
                ),
                Doc::Text(c.text(f.type_condition)),
            ),
            directives_doc(c, f.directives),
        ),
        selection_set_doc(c, f.selection_set, true),
    )
}

/// The definition at `i`: a document of one anonymous query and nothing
/// else that qualifies it is laid out as that query's bare selection set.
pub open spec fn definition_doc(c: ExecutableContents, i: int) -> Doc {
    match c.definitions[i] {
        ExecutableDefinitionRecord::Operation(id) => if prints_in_short_form(c) {
            selection_set_doc(c, c.operations[id.index() as int].selection_set, false)
        } else {
            operation_doc(c, id.index() as int)
        },
        ExecutableDefinitionRecord::Fragment(id) => fragment_doc(c, id.index() as int),
    }
}

/// The whole document: its definitions, with an empty line between each two.
pub open spec fn document_doc(c: ExecutableContents) -> Doc {
    interspersed(
        Seq::new(c.definitions.len(), |i: int| definition_doc(c, i)),
        cat(cat(Doc::Nil, Doc::Hardline), Doc::Hardline),
    )
}

/// The selections from `start` up to `k` are `k - start`, in order.
proof fn lemma_selection_docs(c: ExecutableContents, start: int, k: int, j: int)
    requires
        0 <= start <= k,
        0 <= j < k - start,
    ensures
        selection_docs(c, start, k).len() == k - start,
        selection_docs(c, start, k)[j] == selection_doc(c, start + j),
    decreases k,
{
    if k > start {
        if j < k - 1 - start {
            lemma_selection_docs(c, start, k - 1, j);
        } else {
            lemma_selection_docs_len(c, start, k - 1);
        }
    }
}

proof fn lemma_selection_docs_len(c: ExecutableContents, start: int, k: int)
    requires
        0 <= start <= k,
    ensures
        selection_docs(c, start, k).len() == k - start,
    decreases k,
{
    if k > start {
        lemma_selection_docs_len(c, start, k - 1);
    }
}

/// Lays out the argument `id`; see [`argument_doc`].
fn argument_layout(document: &ExecutableDocument, id: ArgumentId) -> (l: Layout)
    requires
        layable(document@),
        id.index() < document@.arguments.len(),
    ensures
        doc_of(l) == argument_doc(document@, id.index() as int),
{
    let record = document.argument(id);
    proof {
        assert(argument_displayable(document@, id.index() as int));
    }
    let value = document.read_value(record.value);
    proof {
        lemma_value_doc_at(document@, record.value.index(), value);
    }
    let name = text(document.string(record.name));
    append(append(append(name, text(":")), Layout::Space), value_layout(&value))
}

/// The arguments of `range` with `comma_or_newline` between each two.
fn arguments_interspersed(document: &ExecutableDocument, range: IdRange<ArgumentId>) -> (l: Layout)
    requires
        layable(document@),
        arguments_stored(document@, range),
    ensures
        doc_of(l) == interspersed(argument_docs(document@, range), comma_or_newline()),
{
    let ghost c = document@;
    let ghost docs = argument_docs(c, range);
    let ids = range.ids();
    let mut acc = Layout::Nil;
    let mut j: usize = 0;
    proof {
        assert(docs.take(0) =~= Seq::<Doc>::empty());
    }
    while j < ids.len()
        invariant
            layable(c),
            c == document@,
            arguments_stored(c, range),
            docs == argument_docs(c, range),
            ids.len() == range.count(),
            forall|m: int| 0 <= m < ids.len() ==> (#[trigger] ids[m]).index() == range.start.index() + m,
            j <= ids.len(),
            doc_of(acc) == interspersed(docs.take(j as int), comma_or_newline()),
        decreases ids.len() - j,
    {
        let next = argument_layout(document, ids[j]);
        acc = intersperse_next(acc, comma_or_newline_layout(), next, Ghost(docs), j);
        j = j + 1;
    }
    proof {
        assert(docs.take(ids.len() as int) =~= docs);
    }
    acc
}

/// Lays out the directive `id`; see [`directive_doc`].
fn directive_layout(document: &ExecutableDocument, id: DirectiveId) -> (l: Layout)
    requires
        layable(document@),
        id.index() < document@.directives.len(),
    ensures
        doc_of(l) == directive_doc(document@, id.index() as int),
{
    let record = document.directive(id);
    proof {
        assert(directive_displayable(document@, id.index() as int));
    }
    let name = append(text("@"), text(document.string(record.name)));
    if record.arguments.len() == 0 {
        name
    } else {
        let arguments = arguments_interspersed(document, record.arguments);
        append(name, group(enclose("(", nest(arguments), ")")))
    }
}

/// Lays out the directives of `range`; see [`directives_doc`].
fn directives_layout(document: &ExecutableDocument, range: IdRange<DirectiveId>) -> (l: Layout)
    requires
        layable(document@),
        directives_stored(document@, range),
    ensures
        doc_of(l) == directives_doc(document@, range),
{
    if range.len() == 0 {
        return Layout::Nil;
    }
    let ghost c = document@;
    let ghost docs = Seq::new(range.count(), |j: int| directive_doc(c, range.start.index() + j));
    let ids = range.ids();
    let mut acc = Layout::Nil;
    let mut j: usize = 0;
    proof {
        assert(docs.take(0) =~= Seq::<Doc>::empty());
    }
    while j < ids.len()
        invariant
            layable(c),
            c == document@,
            directives_stored(c, range),
            range.count() > 0,
            docs == Seq::new(range.count(), |j: int| directive_doc(c, range.start.index() + j)),
            ids.len() == range.count(),
            forall|m: int| 0 <= m < ids.len() ==> (#[trigger] ids[m]).index() == range.start.index() + m,
            j <= ids.len(),
            doc_of(acc) == interspersed(docs.take(j as int), Doc::Space),
        decreases ids.len() - j,
    {
        let next = directive_layout(document, ids[j]);
        acc = intersperse_next(acc, Layout::Space, next, Ghost(docs), j);
        j = j + 1;
    }
    proof {
        assert(docs.take(ids.len() as int) =~= docs);
    }
    append(Layout::Space, acc)
}

/// Lays out the arguments of a field; see [`field_arguments_doc`].
fn field_arguments_layout(document: &ExecutableDocument, range: IdRange<ArgumentId>) -> (l: Layout)
    requires
        layable(document@),
        arguments_stored(document@, range),
    ensures
        doc_of(l) == field_arguments_doc(document@, range),
{
    if range.len() == 0 {
        return Layout::Nil;
    }
    let arguments = arguments_interspersed(document, range);
    group(enclose("(", append(nest(append(Layout::SoftLine, arguments)), Layout::SoftLine), ")"))
}

/// Lays out the variable definition `id`; see [`variable_doc`].
fn variable_layout(document: &ExecutableDocument, id: VariableDefinitionId) -> (l: Layout)
    requires
        layable(document@),
        id.index() < document@.variables.len(),
    ensures
        doc_of(l) == variable_doc(document@, id.index() as int),
{
    let record = document.variable(id);
    proof {
        assert(variable_displayable(document@, id.index() as int));
    }
    let ty: Type = record.ty.read(document);
    let written = ty.to_string();
    let head = append(
        append(append(append(append(Layout::Nil, text("$")), text(document.string(record.name))), text(":")), Layout::Space),
        Layout::Text(written),
    );
    let default = match record.default_value {
        Some(d) => {
            let value = document.read_value(d);
            proof {
                lemma_value_doc_at(document@, d.index(), value);
            }
            append(append(append(Layout::Space, text("=")), Layout::Space), value_layout(&value))
        },
        None => Layout::Nil,
    };
    append(append(head, default), directives_layout(document, record.directives))
}

/// A line break where the group is broken; a comma and a space where it
/// fits on one line.
fn variable_separator() -> (l: Layout)
    ensures
        doc_of(l) == Doc::FlatAlt(Box::new(Doc::Line), Box::new(Doc::Text(", "@))),
{
    let flat = text(", ");
    let l = Layout::FlatAlt(Box::new(Layout::Line), Box::new(flat));
    proof {
        assert(doc_of(Layout::Line) == Doc::Line);
        assert(doc_of(l) == Doc::FlatAlt(Box::new(doc_of(Layout::Line)), Box::new(doc_of(flat))));
    }
    l
}

/// Lays out the variable definitions of `range`; see [`variables_doc`].
fn variables_layout(document: &ExecutableDocument, range: IdRange<VariableDefinitionId>) -> (l: Layout)
    requires
        layable(document@),
        variables_stored(document@, range),
    ensures
        doc_of(l) == variables_doc(document@, range),
{
    if range.len() == 0 {
        return Layout::Nil;
    }
    let ghost c = document@;
    let ghost separator = Doc::FlatAlt(Box::new(Doc::Line), Box::new(Doc::Text(", "@)));
    let ghost docs = Seq::new(range.count(), |j: int| variable_doc(c, range.start.index() + j));
    let ids = range.ids();
    let mut acc = Layout::Nil;
    let mut j: usize = 0;
    proof {
        assert(docs.take(0) =~= Seq::<Doc>::empty());
    }
    while j < ids.len()
        invariant
            layable(c),
            c == document@,
            variables_stored(c, range),
            range.count() > 0,
            separator == Doc::FlatAlt(Box::new(Doc::Line), Box::new(Doc::Text(", "@))),
            docs == Seq::new(range.count(), |j: int| variable_doc(c, range.start.index() + j)),
            ids.len() == range.count(),
            forall|m: int| 0 <= m < ids.len() ==> (#[trigger] ids[m]).index() == range.start.index() + m,
            j <= ids.len(),
            doc_of(acc) == interspersed(docs.take(j as int), separator),
        decreases ids.len() - j,
    {
        let next = variable_layout(document, ids[j]);
        acc = intersperse_next(acc, variable_separator(), next, Ghost(docs), j);
        j = j + 1;
    }
    proof {
        assert(docs.take(ids.len() as int) =~= docs);
    }
    group(enclose("(", append(nest(append(Layout::SoftLine, acc)), Layout::SoftLine), ")"))
}

/// Lays out the selections of `range`; see [`selection_set_doc`].
fn selection_set_layout(document: &ExecutableDocument, range: IdRange<SelectionId>, leading_space: bool) -> (l: Layout)
    requires
        layable(document@),
        selections_in_bounds(document@, range),
    ensures
        doc_of(l) == selection_set_doc(document@, range, leading_space),
    decreases nested_end(range), 0int, 1int,
{
    if range.len() == 0 {
        return Layout::Nil;
    }
    let ghost c = document@;
    let ghost first = range.start.index() as int;
    let ghost docs = selection_docs(c, first, range.end.index() as int);
    let ids = range.ids();
    let mut acc = Layout::Nil;
    let mut j: usize = 0;
    proof {
        lemma_selection_docs_len(c, first, range.end.index() as int);
        assert(docs.take(0) =~= Seq::<Doc>::empty());
    }
    while j < ids.len()
        invariant
            layable(c),
            c == document@,
            selections_in_bounds(c, range),
            range.count() > 0,
            first == range.start.index(),
            docs == selection_docs(c, first, range.end.index() as int),
            docs.len() == ids.len(),
            ids.len() == range.count(),
            forall|m: int| 0 <= m < ids.len() ==> (#[trigger] ids[m]).index() == first + m,
            j <= ids.len(),
            doc_of(acc) == interspersed(docs.take(j as int), Doc::Hardline),
        decreases ids.len() - j,
    {
        proof {
            lemma_selection_docs(c, first, range.end.index() as int, j as int);
        }
        let next = selection_layout(document, ids[j]);
        acc = intersperse_next(acc, Layout::Hardline, next, Ghost(docs), j);
        j = j + 1;
    }
    proof {
        assert(docs.take(ids.len() as int) =~= docs);
    }
    let lead = if leading_space {
        Layout::Space
    } else {
        Layout::Nil
    };
    append(append(append(append(lead, text("{")), nest(append(Layout::Hardline, acc))), Layout::Hardline), text("}"))
}

/// Lays out the selection `id`; see [`selection_doc`].
fn selection_layout(document: &ExecutableDocument, id: SelectionId) -> (l: Layout)
    requires
        layable(document@),
        id.index() < document@.selections.len(),
    ensures
        doc_of(l) == selection_doc(document@, id.index() as int),
    decreases id.index(), 2int, 0int,
{
    proof {
        assert(selection_placed(document@, id.index() as int));
    }
    match document.selection(id) {
        SelectionRecord::Field(f) => field_layout(document, *f),
        SelectionRecord::InlineFragment(i) => inline_fragment_layout(document, *i),
        SelectionRecord::FragmentSpread(i) => fragment_spread_layout(document, *i),
    }
}

/// Lays out the field `id`; see [`field_doc_at`].
fn field_layout(document: &ExecutableDocument, id: FieldSelectionId) -> (l: Layout)
    requires
        layable(document@),
        id.index() < document@.field_selections.len(),
    ensures
        doc_of(l) == field_doc_at(document@, id.index() as int),
    decreases nested_end(document@.field_selections[id.index() as int].selection_set), 1int, 0int,
{
    let record = document.field_selection(id);
    proof {
        assert(field_displayable(document@, id.index() as int));
    }
    let alias = match record.alias {
        Some(a) => append(append(text(document.string(a)), text(":")), Layout::Space),
        None => Layout::Nil,
    };
    let head = append(alias, text(document.string(record.name)));
    let arguments = field_arguments_layout(document, record.arguments);
    let directives = directives_layout(document, record.directives);
    let selections = selection_set_layout(document, record.selection_set, true);
    group(append(append(append(head, arguments), directives), selections))
}

/// Lays out the inline fragment `id`; see [`inline_fragment_doc`].
fn inline_fragment_layout(document: &ExecutableDocument, id: InlineFragmentId) -> (l: Layout)
    requires
        layable(document@),
        id.index() < document@.inline_fragments.len(),
    ensures
        doc_of(l) == inline_fragment_doc(document@, id.index() as int),
    decreases nested_end(document@.inline_fragments[id.index() as int].selection_set), 1int, 0int,
{
    let record = document.inline_fragment(id);
    proof {
        assert(inline_fragment_displayable(document@, id.index() as int));
    }
    let condition = match record.type_condition {
        Some(t) => append(append(append(Layout::Space, text("on")), Layout::Space), text(document.string(t))),
        None => Layout::Nil,
    };
    let directives = directives_layout(document, record.directives);
    let selections = selection_set_layout(document, record.selection_set, true);
    group(append(append(append(text("..."), condition), directives), selections))
}

/// Lays out the fragment spread `id`; see [`fragment_spread_doc`].
fn fragment_spread_layout(document: &ExecutableDocument, id: FragmentSpreadId) -> (l: Layout)
    requires
        layable(document@),
        id.index() < document@.fragment_spreads.len(),
    ensures
        doc_of(l) == fragment_spread_doc(document@, id.index() as int),
{
    let record = document.fragment_spread(id);
    proof {
        assert(fragment_spread_displayable(document@, id.index() as int));
    }
    let name = text(document.string(record.fragment_name));
    let directives = directives_layout(document, record.directives);
    group(append(append(text("..."), name), directives))
}

/// The keyword of `operation_type`.
fn keyword(operation_type: OperationType) -> (l: Layout)
    ensures
        doc_of(l) == Doc::Text(operation_type_text(operation_type)),
{
    match operation_type {
        OperationType::Query => text("query"),
        OperationType::Mutation => text("mutation"),
        OperationType::Subscription => text("subscription"),
    }
}

/// Lays out the operation `id`; see [`operation_doc`].
fn operation_layout(document: &ExecutableDocument, id: OperationDefinitionId) -> (l: Layout)
    requires
        layable(document@),
        id.index() < document@.operations.len(),
    ensures
        doc_of(l) == operation_doc(document@, id.index() as int),
{
    let record = document.operation(id);
    proof {
        assert(operation_displayable(document@, id.index() as int));
    }
    let head = append(Layout::Nil, keyword(record.operation_type));
    let named = match record.name {
        Some(n) => append(append(head, Layout::Space), text(document.string(n))),
        None => head,
    };
    let variables = variables_layout(document, record.variable_definitions);
    let directives = directives_layout(document, record.directives);
    let selections = selection_set_layout(document, record.selection_set, true);
    append(append(append(named, variables), directives), selections)
}

/// Lays out the fragment `id`; see [`fragment_doc`].
fn fragment_layout(document: &ExecutableDocument, id: FragmentDefinitionId) -> (l: Layout)
    requires
        layable(document@),
        id.index() < document@.fragments.len(),
    ensures
        doc_of(l) == fragment_doc(document@, id.index() as int),
{
    let record = document.fragment(id);
    proof {
        assert(fragment_displayable(document@, id.index() as int));
    }
    let head = append(
        append(append(append(Layout::Nil, text("fragment")), Layout::Space), text(document.string(record.name))),
        Layout::Space,
    );
    let condition = append(append(append(head, text("on")), Layout::Space), text(document.string(record.type_condition)));
    let directives = directives_layout(document, record.directives);
    let selections = selection_set_layout(document, record.selection_set, true);
    append(append(condition, directives), selections)
}

/// Two line breaks: an empty line.
fn empty_line() -> (l: Layout)
    ensures
        doc_of(l) == cat(cat(Doc::Nil, Doc::Hardline), Doc::Hardline),
{
    let l = append(append(Layout::Nil, Layout::Hardline), Layout::Hardline);
    proof {
        assert(doc_of(Layout::Hardline) == Doc::Hardline);
        assert(doc_of(Layout::Nil) == Doc::Nil);
    }
    l
}

impl ExecutableDocument {
    /// The document laid out for pretty printing; see [`document_doc`].
    pub fn pretty_layout(&self) -> (l: Layout)
        requires
            layable(self@),
            self@.definitions.len() <= u32::MAX,
        ensures
            doc_of(l) == document_doc(self@),
    {
        let ghost c = self@;
        let ghost separator = cat(cat(Doc::Nil, Doc::Hardline), Doc::Hardline);
        let ghost docs = Seq::new(c.definitions.len(), |i: int| definition_doc(c, i));
        let short = use_short_form(self);
        let ids = self.definition_ids();
        let mut acc = Layout::Nil;
        let mut i: usize = 0;
        proof {
            assert(docs.take(0) =~= Seq::<Doc>::empty());
        }
        while i < ids.len()
            invariant
                layable(c),
                c == self@,
                short == prints_in_short_form(c),
                separator == cat(cat(Doc::Nil, Doc::Hardline), Doc::Hardline),
                docs == Seq::new(c.definitions.len(), |i: int| definition_doc(c, i)),
                ids.len() == c.definitions.len() <= u32::MAX,
                forall|m: int| 0 <= m < ids.len() ==> ids[m] == ExecutableDefinitionId::at(m as nat),
                i <= ids.len(),
                doc_of(acc) == interspersed(docs.take(i as int), separator),
            decreases ids.len() - i,
        {
            proof {
                ExecutableDefinitionId::lemma_at(i as nat);
            }
            let next = match self.definition(ids[i]) {
                ExecutableDefinitionRecord::Operation(op) => {
                    if short {
                        proof {
                            assert(operation_displayable(c, op.index() as int));
                        }
                        selection_set_layout(self, self.operation(*op).selection_set, false)
                    } else {
                        operation_layout(self, *op)
                    }
                },
                ExecutableDefinitionRecord::Fragment(f) => fragment_layout(self, *f),
            };
            acc = intersperse_next(acc, empty_line(), next, Ghost(docs), i);
            i = i + 1;
        }
        proof {
            assert(docs.take(ids.len() as int) =~= docs);
        }
        acc
    }
}

/// The text of `d` with every group laid out on one line, as `pretty` lays
/// out a group that fits: a line is a space, a soft line nothing, a flat
/// alternative its second layout, and a hard line still breaks the line.
pub open spec fn flat_text(d: Doc) -> Seq<char>
    decreases d,
{
    match d {
        Doc::Nil => Seq::empty(),
        Doc::Text(s) => s,
        Doc::Space => seq![' '],
        Doc::Line => seq![' '],
        Doc::SoftLine => Seq::empty(),
        Doc::Hardline => seq!['\n'],
        Doc::Nest(inner) => flat_text(*inner),
        Doc::Group(inner) => flat_text(*inner),
        Doc::FlatAlt(_, flat) => flat_text(*flat),
        Doc::Append(first, second) => flat_text(*first) + flat_text(*second),
    }
}

/// A variable definition laid out on one line reads as it is written:
/// `$name: Type`, then ` = ` and its default value where it has one, then
/// its directives.  No part of it is left out.
pub proof fn law_variable_layout_reads_in_full(c: ExecutableContents, k: int)
    requires
        0 <= k < c.variables.len(),
    ensures
        ({
            let v = c.variables[k];
            let ty = c.types[v.ty.index() as int];
            flat_text(variable_doc(c, k)) == seq!['$'] + c.text(v.name) + seq![':', ' '] + type_text(
                c.text(ty.name),
                ty.wrappers@,
            ) + (match v.default_value {
                Some(d) => seq![' ', '=', ' '] + flat_text(value_doc_at(c, d.index() as int)),
                None => Seq::empty(),
            }) + flat_text(directives_doc(c, v.directives))
        }),
{
    let v = c.variables[k];
    let ty = c.types[v.ty.index() as int];
    reveal_strlit("$");
    reveal_strlit(":");
    reveal_strlit("=");
    let h0 = cat(Doc::Nil, Doc::Text("$"@));
    let h1 = cat(h0, Doc::Text(c.text(v.name)));
    let h2 = cat(h1, Doc::Text(":"@));
    let h3 = cat(h2, Doc::Space);
    let h4 = cat(h3, Doc::Text(type_text(c.text(ty.name), ty.wrappers@)));
    assert("$"@ =~= seq!['$']);
    assert(":"@ =~= seq![':']);
    assert("="@ =~= seq!['=']);
    assert(flat_text(Doc::Nil) =~= Seq::<char>::empty());
    assert(flat_text(h0) == flat_text(Doc::Nil) + flat_text(Doc::Text("$"@)));
    assert(flat_text(h0) =~= seq!['$']);
    assert(flat_text(h1) == flat_text(h0) + flat_text(Doc::Text(c.text(v.name))));
    assert(flat_text(h1) =~= seq!['$'] + c.text(v.name));
    assert(flat_text(h2) == flat_text(h1) + flat_text(Doc::Text(":"@)));
    assert(flat_text(h2) =~= seq!['$'] + c.text(v.name) + seq![':']);
    assert(flat_text(h3) == flat_text(h2) + flat_text(Doc::Space));
    assert(flat_text(h3) =~= seq!['$'] + c.text(v.name) + seq![':', ' ']);
    assert(flat_text(h4) == flat_text(h3) + flat_text(Doc::Text(type_text(c.text(ty.name), ty.wrappers@))));
    assert(flat_text(h4) =~= seq!['$'] + c.text(v.name) + seq![':', ' '] + type_text(c.text(ty.name), ty.wrappers@));
    let default = match v.default_value {
        Some(d) => cat(cat(cat(Doc::Space, Doc::Text("="@)), Doc::Space), value_doc_at(c, d.index() as int)),
        None => Doc::Nil,
    };
    match v.default_value {
        Some(d) => {
            let d1 = cat(Doc::Space, Doc::Text("="@));
            let d2 = cat(d1, Doc::Space);
            assert(flat_text(d1) == flat_text(Doc::Space) + flat_text(Doc::Text("="@)));
            assert(flat_text(d1) =~= seq![' ', '=']);
            assert(flat_text(d2) == flat_text(d1) + flat_text(Doc::Space));
            assert(flat_text(d2) =~= seq![' ', '=', ' ']);
            assert(flat_text(default) == flat_text(d2) + flat_text(value_doc_at(c, d.index() as int)));
            assert(flat_text(default) =~= seq![' ', '=', ' '] + flat_text(value_doc_at(c, d.index() as int)));
        },
        None => {
            assert(flat_text(default) =~= Seq::<char>::empty());
        },
    }
    let whole = cat(cat(h4, default), directives_doc(c, v.directives));
    assert(variable_doc(c, k) == whole);
    assert(flat_text(cat(h4, default)) == flat_text(h4) + flat_text(default));
    assert(flat_text(whole) == flat_text(cat(h4, default)) + flat_text(directives_doc(c, v.directives)));
    assert(flat_text(whole) =~= seq!['$'] + c.text(v.name) + seq![':', ' '] + type_text(
        c.text(ty.name),
        ty.wrappers@,
    ) + (match v.default_value {
        Some(d) => seq![' ', '=', ' '] + flat_text(value_doc_at(c, d.index() as int)),
        None => Seq::empty(),
    }) + flat_text(directives_doc(c, v.directives)));
}

/// The value stored at `index` holds no object, at any depth.
pub open spec fn object_free_at(c: ExecutableContents, index: int) -> bool
    decreases index,
{
    if index < 0 || index >= c.values.len() {
        true
    } else {
        match c.values[index] {
            ValueRecord::Object(_) => false,
            ValueRecord::List(ids) => forall|k: int|
                0 <= k < ids.len() ==> (#[trigger] ids@[k]).index() < index && object_free_at(
                    c,
                    ids@[k].index() as int,
                ),
            _ => true,
        }
    }
}

proof fn lemma_stored_item_docs_len(c: ExecutableContents, index: int, ids: Seq<ValueId>, k: int)
    requires
        0 <= index,
        0 <= k <= ids.len(),
    ensures
        stored_item_docs(c, index, ids, k).len() == k,
    decreases k,
{
    if k > 0 {
        lemma_stored_item_docs_len(c, index, ids, k - 1);
    }
}

/// A value laid out on one line reads as it is written: a value that holds
/// no object is laid out with the very text that writing it gives.
pub proof fn law_flat_value_reads_as_written(c: ExecutableContents, index: int)
    requires
        object_free_at(c, index),
    ensures
        flat_text(value_doc_at(c, index)) == value_text_at(c, index),
    decreases index, 1int,
{
    if 0 <= index < c.values.len() {
        reveal_strlit("[");
        reveal_strlit("]");
        reveal_strlit("\"");
        assert("["@ =~= seq!['[']);
        assert("]"@ =~= seq![']']);
        assert("\""@ =~= seq!['"']);
        match c.values[index] {
            ValueRecord::List(ids) => {
                if ids.len() == 0 {
                    let e0 = cat(Doc::Text("["@), Doc::Nil);
                    assert(flat_text(Doc::Nil) =~= Seq::<char>::empty());
                    assert(flat_text(e0) == flat_text(Doc::Text("["@)) + flat_text(Doc::Nil));
                    assert(flat_text(enclosed("["@, Doc::Nil, "]"@)) == flat_text(e0) + flat_text(Doc::Text("]"@)));
                    assert(flat_text(enclosed("["@, Doc::Nil, "]"@)) =~= seq!['['] + seq![']']);
                    assert(stored_items_text(c, index, ids@, 0) =~= Seq::<char>::empty());
                    assert(value_text_at(c, index) =~= seq!['['] + seq![']']);
                } else {
                    lemma_flat_items(c, index, ids@, ids.len() as int);
                    let inner = interspersed(stored_item_docs(c, index, ids@, ids.len() as int), soft_comma());
                    let body = cat(nested(cat(Doc::SoftLine, inner)), Doc::SoftLine);
                    assert(flat_text(cat(Doc::SoftLine, inner)) == flat_text(Doc::SoftLine) + flat_text(inner));
                    assert(flat_text(nested(cat(Doc::SoftLine, inner))) == flat_text(cat(Doc::SoftLine, inner)));
                    assert(flat_text(body) == flat_text(nested(cat(Doc::SoftLine, inner))) + flat_text(Doc::SoftLine));
                    assert(flat_text(Doc::SoftLine) =~= Seq::<char>::empty());
                    assert(flat_text(body) =~= flat_text(inner));
                    let e = enclosed("["@, body, "]"@);
                    assert(flat_text(cat(Doc::Text("["@), body)) == flat_text(Doc::Text("["@)) + flat_text(body));
                    assert(flat_text(e) == flat_text(cat(Doc::Text("["@), body)) + flat_text(Doc::Text("]"@)));
                    assert(flat_text(grouped(e)) =~= seq!['['] + flat_text(inner) + seq![']']);
                }
            },
            ValueRecord::String(sid) => {
                let q = Doc::Text("\""@);
                let t = Doc::Text(escaped(c.text(sid)));
                let e0 = cat(q, t);
                let e = cat(e0, q);
                assert(flat_text(q) == "\""@);
                assert(flat_text(t) == escaped(c.text(sid)));
                assert(flat_text(e0) == flat_text(q) + flat_text(t));
                assert(flat_text(e) == flat_text(e0) + flat_text(q));
                assert(value_doc_at(c, index) == e);
                assert(flat_text(e) =~= seq!['"'] + escaped(c.text(sid)) + seq!['"']);
            },
            _ => {},
        }
    }
}

/// Items laid out on one line read as they are written, separated by
/// commas.
proof fn lemma_flat_items(c: ExecutableContents, index: int, ids: Seq<ValueId>, k: int)
    requires
        0 <= index < c.values.len(),
        object_free_at(c, index),
        c.values[index] matches ValueRecord::List(list) && list@ == ids,
        0 <= k <= ids.len(),
    ensures
        flat_text(interspersed(stored_item_docs(c, index, ids, k), soft_comma())) == stored_items_text(
            c,
            index,
            ids,
            k,
        ),
    decreases index, 0int, k,
{
    let docs = stored_item_docs(c, index, ids, k);
    lemma_stored_item_docs_len(c, index, ids, k);
    reveal_strlit(", ");
    assert(", "@ =~= seq![',', ' ']);
    if k == 0 {
        assert(stored_items_text(c, index, ids, 0) =~= Seq::<char>::empty());
    } else {
        assert(ids[k - 1].index() < index && object_free_at(c, ids[k - 1].index() as int));
        law_flat_value_reads_as_written(c, ids[k - 1].index() as int);
        let item = value_doc_at(c, ids[k - 1].index() as int);
        assert(docs.last() == item);
        if k == 1 {
            assert(docs.len() == 1);
            assert(flat_text(interspersed(docs, soft_comma())) == flat_text(cat(Doc::Nil, docs[0])));
            assert(flat_text(cat(Doc::Nil, docs[0])) == flat_text(Doc::Nil) + flat_text(docs[0]));
            assert(stored_items_text(c, index, ids, 0) =~= Seq::<char>::empty());
            assert(flat_text(interspersed(docs, soft_comma())) =~= stored_items_text(c, index, ids, 1));
        } else {
            lemma_flat_items(c, index, ids, k - 1);
            assert(docs.drop_last() == stored_item_docs(c, index, ids, k - 1));
            let sep = soft_comma();
            let alt = Doc::FlatAlt(Box::new(Doc::Nil), Box::new(Doc::Text(", "@)));
            assert(flat_text(alt) == flat_text(Doc::Text(", "@)));
            assert(flat_text(sep) == flat_text(Doc::SoftLine) + flat_text(alt));
            assert(flat_text(sep) =~= seq![',', ' ']);
            let prev = interspersed(docs.drop_last(), sep);
            assert(interspersed(docs, sep) == cat(cat(prev, sep), docs.last()));
            assert(flat_text(cat(prev, sep)) == flat_text(prev) + flat_text(sep));
            assert(flat_text(interspersed(docs, sep)) == flat_text(cat(prev, sep)) + flat_text(docs.last()));
            assert(flat_text(interspersed(docs, sep)) =~= stored_items_text(c, index, ids, k));
        }
    }
}

/// No argument of `range` holds an object.
pub open spec fn arguments_object_free(c: ExecutableContents, range: IdRange<ArgumentId>) -> bool {
    forall|j: int|
        range.start.index() <= j < range.end.index() ==> object_free_at(
            c,
            (#[trigger] c.arguments[j]).value.index() as int,
        )
}

/// An argument laid out on one line reads as it is written.
pub proof fn law_flat_argument_reads_as_written(c: ExecutableContents, k: int)
    requires
        object_free_at(c, c.arguments[k].value.index() as int),
    ensures
        flat_text(argument_doc(c, k)) == argument_text(c, k),
{
    let a = c.arguments[k];
    let value = value_doc_at(c, a.value.index() as int);
    law_flat_value_reads_as_written(c, a.value.index() as int);
    reveal_strlit(":");
    assert(":"@ =~= seq![':']);
    let d0 = cat(Doc::Text(c.text(a.name)), Doc::Text(":"@));
    let d1 = cat(d0, Doc::Space);
    assert(flat_text(Doc::Text(c.text(a.name))) == c.text(a.name));
    assert(flat_text(Doc::Text(":"@)) == ":"@);
    assert(flat_text(d0) == flat_text(Doc::Text(c.text(a.name))) + flat_text(Doc::Text(":"@)));
    assert(flat_text(d1) == flat_text(d0) + flat_text(Doc::Space));
    assert(flat_text(cat(d1, value)) == flat_text(d1) + flat_text(value));
    assert(argument_doc(c, k) == cat(d1, value));
    assert(flat_text(argument_doc(c, k)) =~= argument_text(c, k));
}

/// The first `k` arguments of `range`, laid out on one line, read as they
/// are written, separated by commas.
#[verifier::spinoff_prover]
#[verifier::rlimit(60)]
proof fn lemma_flat_arguments(c: ExecutableContents, range: IdRange<ArgumentId>, k: int)
    requires
        arguments_object_free(c, range),
        0 <= k <= range.count(),
    ensures
        flat_text(interspersed(argument_docs(c, range).take(k), comma_or_newline())) == argument_list_text(
            c,
            range.start.index() as int,
            range.start.index() + k,
        ),
    decreases k,
{
    let docs = argument_docs(c, range).take(k);
    let start = range.start.index() as int;
    let sep = comma_or_newline();
    reveal_strlit(",");
    assert(","@ =~= seq![',']);
    if k == 0 {
        assert(docs.len() == 0);
        assert(argument_list_text(c, start, start) =~= Seq::<char>::empty());
    } else {
        let j = start + k - 1;
        assert(range.start.index() <= j < range.end.index());
        assert(object_free_at(c, c.arguments[j].value.index() as int));
        law_flat_argument_reads_as_written(c, j);
        assert(docs.last() == argument_doc(c, j));
        if k == 1 {
            assert(flat_text(interspersed(docs, sep)) == flat_text(cat(Doc::Nil, docs[0])));
            assert(flat_text(cat(Doc::Nil, docs[0])) == flat_text(Doc::Nil) + flat_text(docs[0]));
            assert(argument_list_text(c, start, start) =~= Seq::<char>::empty());
            assert(flat_text(interspersed(docs, sep)) =~= argument_list_text(c, start, start + 1));
        } else {
            lemma_flat_arguments(c, range, k - 1);
            assert(docs.drop_last() =~= argument_docs(c, range).take(k - 1));
            let comma = cat(Doc::Text(","@), Doc::Space);
            assert(flat_text(comma) == flat_text(Doc::Text(","@)) + flat_text(Doc::Space));
            assert(flat_text(sep) == flat_text(comma));
            assert(flat_text(sep) =~= seq![',', ' ']);
            let prev = interspersed(docs.drop_last(), sep);
            assert(interspersed(docs, sep) == cat(cat(prev, sep), docs.last()));
            assert(flat_text(cat(prev, sep)) == flat_text(prev) + flat_text(sep));
            assert(flat_text(interspersed(docs, sep)) == flat_text(cat(prev, sep)) + flat_text(docs.last()));
            assert(flat_text(interspersed(docs, sep)) =~= argument_list_text(c, start, start + k));
        }
    }
}

/// A directive laid out on one line reads as it is written:
/// `@name(arguments)`.
pub proof fn law_flat_directive_reads_as_written(c: ExecutableContents, k: int)
    requires
        arguments_object_free(c, c.directives[k].arguments),
    ensures
        flat_text(directive_doc(c, k)) == directive_text(c, k),
{
    let d = c.directives[k];
    reveal_strlit("@");
    reveal_strlit("(");
    reveal_strlit(")");
    assert("@"@ =~= seq!['@']);
    assert("("@ =~= seq!['(']);
    assert(")"@ =~= seq![')']);
    let name = cat(Doc::Text("@"@), Doc::Text(c.text(d.name)));
    assert(flat_text(Doc::Text("@"@)) == "@"@);
    assert(flat_text(Doc::Text(c.text(d.name))) == c.text(d.name));
    assert(flat_text(name) == flat_text(Doc::Text("@"@)) + flat_text(Doc::Text(c.text(d.name))));
    if d.arguments.count() == 0 {
        assert(flat_text(directive_doc(c, k)) =~= directive_text(c, k));
    } else {
        let n = d.arguments.count() as int;
        lemma_flat_arguments(c, d.arguments, n);
        assert(argument_docs(c, d.arguments).take(n) =~= argument_docs(c, d.arguments));
        let inner = interspersed(argument_docs(c, d.arguments), comma_or_newline());
        let e0 = cat(Doc::Text("("@), nested(inner));
        let e = cat(e0, Doc::Text(")"@));
        assert(flat_text(nested(inner)) == flat_text(inner));
        assert(flat_text(e0) == flat_text(Doc::Text("("@)) + flat_text(nested(inner)));
        assert(flat_text(e) == flat_text(e0) + flat_text(Doc::Text(")"@)));
        assert(flat_text(grouped(e)) == flat_text(e));
        assert(flat_text(cat(name, grouped(e))) == flat_text(name) + flat_text(grouped(e)));
        assert(d.arguments.end.index() == d.arguments.start.index() + n);
        assert(flat_text(directive_doc(c, k)) =~= directive_text(c, k));
    }
}

/// No directive of `range` has an argument that holds an object.
pub open spec fn directives_object_free(c: ExecutableContents, range: IdRange<DirectiveId>) -> bool {
    forall|j: int|
        range.start.index() <= j < range.end.index() ==> arguments_object_free(
            c,
            (#[trigger] c.directives[j]).arguments,
        )
}

/// The first `k` directives of `range`, laid out on one line, each after a
/// space, read as they are written.
#[verifier::spinoff_prover]
#[verifier::rlimit(60)]
proof fn lemma_flat_directives(c: ExecutableContents, range: IdRange<DirectiveId>, k: int)
    requires
        directives_object_free(c, range),
        1 <= k <= range.count(),
    ensures
        seq![' '] + flat_text(
            interspersed(
                Seq::new(range.count(), |j: int| directive_doc(c, range.start.index() + j)).take(k),
                Doc::Space,
            ),
        ) == directive_list_text(c, range.start.index() as int, range.start.index() + k),
    decreases k,
{
    let all = Seq::new(range.count(), |j: int| directive_doc(c, range.start.index() + j));
    let docs = all.take(k);
    let start = range.start.index() as int;
    let j = start + k - 1;
    assert(range.start.index() <= j < range.end.index());
    assert(arguments_object_free(c, c.directives[j].arguments));
    law_flat_directive_reads_as_written(c, j);
    assert(docs.last() == directive_doc(c, j));
    if k == 1 {
        assert(flat_text(interspersed(docs, Doc::Space)) == flat_text(cat(Doc::Nil, docs[0])));
        assert(flat_text(cat(Doc::Nil, docs[0])) == flat_text(Doc::Nil) + flat_text(docs[0]));
        assert(directive_list_text(c, start, start) =~= Seq::<char>::empty());
        assert(seq![' '] + flat_text(interspersed(docs, Doc::Space)) =~= directive_list_text(c, start, start + 1));
    } else {
        lemma_flat_directives(c, range, k - 1);
        assert(docs.drop_last() =~= all.take(k - 1));
        let prev = interspersed(docs.drop_last(), Doc::Space);
        assert(interspersed(docs, Doc::Space) == cat(cat(prev, Doc::Space), docs.last()));
        assert(flat_text(cat(prev, Doc::Space)) == flat_text(prev) + flat_text(Doc::Space));
        assert(flat_text(interspersed(docs, Doc::Space)) == flat_text(cat(prev, Doc::Space)) + flat_text(
            docs.last(),
        ));
        assert(seq![' '] + flat_text(interspersed(docs, Doc::Space)) =~= directive_list_text(c, start, start + k));
    }
}

/// Directives laid out on one line read as they are written, each after a
/// space.
pub proof fn law_flat_directives_read_as_written(c: ExecutableContents, range: IdRange<DirectiveId>)
    requires
        directives_object_free(c, range),
    ensures
        flat_text(directives_doc(c, range)) == directives_text(c, range),
{
    if range.count() > 0 {
        let n = range.count() as int;
        let all = Seq::new(range.count(), |j: int| directive_doc(c, range.start.index() + j));
        lemma_flat_directives(c, range, n);
        assert(all.take(n) =~= all);
        assert(range.end.index() == range.start.index() + n);
        let inner = interspersed(all, Doc::Space);
        assert(flat_text(cat(Doc::Space, inner)) == flat_text(Doc::Space) + flat_text(inner));
        assert(flat_text(directives_doc(c, range)) =~= directives_text(c, range));
    }
}

/// A variable definition laid out on one line reads as it is written,
/// `$name: Type = default @directives`, where neither its default value
/// nor its directives hold an object.
pub proof fn law_flat_variable_reads_as_written(c: ExecutableContents, k: int)
    requires
        0 <= k < c.variables.len(),
        c.variables[k].default_value matches Some(d) ==> object_free_at(c, d.index() as int),
        directives_object_free(c, c.variables[k].directives),
    ensures
        flat_text(variable_doc(c, k)) == variable_text(c, k),
{
    let v = c.variables[k];
    law_variable_layout_reads_in_full(c, k);
    law_flat_directives_read_as_written(c, v.directives);
    match v.default_value {
        Some(d) => {
            law_flat_value_reads_as_written(c, d.index() as int);
        },
        None => {},
    }
    assert(flat_text(variable_doc(c, k)) =~= variable_text(c, k));
}

} // verus!

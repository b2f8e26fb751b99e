//! Values as read from a document: a tree, with the text of every name.
use vstd::prelude::*;

use super::contents::ExecutableContents;
use super::document::ExecutableDocument;
use super::ids::ValueId;
use super::storage::ValueRecord;

verus! {

/// A value.  A float is given as the text of its literal.
#[derive(Debug)]
pub enum Value<'a> {
    Variable(&'a str),
    Int(i64),
    Float(&'a str),
    String(&'a str),
    Boolean(bool),
    Null,
    Enum(&'a str),
    List(Vec<Value<'a>>),
    Object(Vec<(&'a str, Value<'a>)>),
}

/// Every value refers only to values stored before it, and to strings that
/// are interned.
pub open spec fn values_well_founded(c: ExecutableContents) -> bool {
    forall|i: int| 0 <= i < c.values.len() ==> #[trigger] value_refers_back(c, i)
}

/// The children of a list come before it.
pub proof fn lemma_list_child(c: ExecutableContents, i: int, ids: Vec<ValueId>, k: int)
    requires
        values_well_founded(c),
        0 <= i < c.values.len(),
        c.values[i] == ValueRecord::List(ids),
        0 <= k < ids.len(),
    ensures
        ids@[k].index() < i,
{
    assert(value_refers_back(c, i));
    let inner = c.values[i]->List_0;
    assert(inner == ids);
    assert(forall|m: int| 0 <= m < inner.len() ==> (#[trigger] inner@[m]).index() < i);
    assert(inner@[k] == ids@[k]);
}

/// The fields of an object come before it, and their names are interned.
pub proof fn lemma_object_field(c: ExecutableContents, i: int, fields: Vec<(super::ids::StringId, ValueId)>, k: int)
    requires
        values_well_founded(c),
        0 <= i < c.values.len(),
        c.values[i] == ValueRecord::Object(fields),
        0 <= k < fields.len(),
    ensures
        fields@[k].1.index() < i,
        fields@[k].0.index() < c.strings.len(),
{
    assert(value_refers_back(c, i));
    let inner = c.values[i]->Object_0;
    assert(inner == fields);
    assert(forall|m: int|
        0 <= m < inner.len() ==> (#[trigger] inner@[m]).1.index() < i && inner@[m].0.index() < c.strings.len());
    assert(inner@[k] == fields@[k]);
}

/// `v` is what the value at `index` reads as.
pub open spec fn reads_as(c: ExecutableContents, index: nat, v: Value) -> bool
    decreases index,
{
    if index >= c.values.len() {
        false
    } else {
        match c.values[index as int] {
            ValueRecord::Variable(s) => v matches Value::Variable(t) && t@ == c.text(s),
            ValueRecord::Int(n) => v == Value::Int(n),
            ValueRecord::Float(s) => v matches Value::Float(t) && t@ == c.text(s),
            ValueRecord::String(s) => v matches Value::String(t) && t@ == c.text(s),
            ValueRecord::Boolean(b) => v == Value::Boolean(b),
            ValueRecord::Null => v == Value::Null,
            ValueRecord::Enum(s) => v matches Value::Enum(t) && t@ == c.text(s),
            ValueRecord::List(ids) => v matches Value::List(items) && items.len() == ids.len()
                && forall|k: int|
                0 <= k < ids.len() ==> (#[trigger] ids@[k]).index() < index && reads_as(
                    c,
                    ids@[k].index(),
                    items@[k],
                ),
            ValueRecord::Object(fields) => v matches Value::Object(pairs) && pairs.len()
                == fields.len() && forall|k: int|
                0 <= k < fields.len() ==> (#[trigger] fields@[k]).1.index() < index
                    && pairs@[k].0@ == c.text(fields@[k].0) && reads_as(
                    c,
                    fields@[k].1.index(),
                    pairs@[k].1,
                ),
        }
    }
}

impl ExecutableDocument {
    /// The value `id`, as a tree.
    pub fn read_value(&self, id: ValueId) -> (value: Value<'_>)
        requires
            values_well_founded(self@),
            id.index() < self@.values.len(),
        ensures
            reads_as(self@, id.index(), value),
        decreases id.index(),
    {
        let index = id.get();
        proof {
            assert(value_refers_back(self@, index as int));
        }
        match self.value_record(id) {
            ValueRecord::Variable(s) => Value::Variable(self.string(*s)),
            ValueRecord::Int(n) => Value::Int(*n),
            ValueRecord::Float(s) => Value::Float(self.string(*s)),
            ValueRecord::String(s) => Value::String(self.string(*s)),
            ValueRecord::Boolean(b) => Value::Boolean(*b),
            ValueRecord::Null => Value::Null,
            ValueRecord::Enum(s) => Value::Enum(self.string(*s)),
            ValueRecord::List(ids) => {
                let mut items: Vec<Value<'_>> = Vec::new();
                let mut k: usize = 0;
                while k < ids.len()
                    invariant
                        values_well_founded(self@),
                        self@.values[index as int] == ValueRecord::List(*ids),
                        index == id.index(),
                        index < self@.values.len(),
                        k <= ids.len(),
                        items.len() == k,
                        forall|j: int|
                            0 <= j < k ==> (#[trigger] ids@[j]).index() < index && reads_as(
                                self@,
                                ids@[j].index(),
                                items@[j],
                            ),
                    decreases ids.len() - k,
                {
                    let child = ids[k];
                    proof {
                        lemma_list_child(self@, index as int, *ids, k as int);
                    }
                    let item = self.read_value(child);
                    items.push(item);
                    k = k + 1;
                }
                Value::List(items)
            },
            ValueRecord::Object(fields) => {
                let mut pairs: Vec<(&str, Value<'_>)> = Vec::new();
                let mut k: usize = 0;
                while k < fields.len()
                    invariant
                        values_well_founded(self@),
                        self@.values[index as int] == ValueRecord::Object(*fields),
                        index == id.index(),
                        index < self@.values.len(),
                        k <= fields.len(),
                        pairs.len() == k,
                        forall|j: int|
                            0 <= j < k ==> (#[trigger] fields@[j]).1.index() < index
                                && pairs@[j].0@ == self@.text(fields@[j].0) && reads_as(
                                self@,
                                fields@[j].1.index(),
                                pairs@[j].1,
                            ),
                    decreases fields.len() - k,
                {
                    let (name, child) = fields[k];
                    proof {
                        lemma_object_field(self@, index as int, *fields, k as int);
                    }
                    let text = self.string(name);
                    let item = self.read_value(child);
                    pairs.push((text, item));
                    k = k + 1;
                }
                Value::Object(pairs)
            },
        }
    }
}

/// The variables that appear in `v`, in the order in which a walk that
/// keeps a stack of values pending meets them: the items of a list and the
/// fields of an object from the last to the first.  A variable that appears
/// twice is listed twice.
pub open spec fn variables_of(v: Value) -> Seq<Seq<char>>
    decreases v, 0int,
{
    match v {
        Value::Variable(t) => seq![t@],
        Value::List(items) => list_variables(items@, items.len() as int),
        Value::Object(pairs) => field_variables(pairs@, pairs.len() as int),
        _ => Seq::empty(),
    }
}

/// The variables of the first `k` items, from the last of them to the first.
pub open spec fn list_variables(items: Seq<Value>, k: int) -> Seq<Seq<char>>
    decreases items, k,
{
    if k <= 0 || k > items.len() {
        Seq::empty()
    } else {
        variables_of(items[k - 1]) + list_variables(items, k - 1)
    }
}

/// The variables of the first `k` fields, from the last of them to the first.
pub open spec fn field_variables(pairs: Seq<(&str, Value)>, k: int) -> Seq<Seq<char>>
    decreases pairs, k,
{
    if k <= 0 || k > pairs.len() {
        Seq::empty()
    } else {
        variables_of(pairs[k - 1].1) + field_variables(pairs, k - 1)
    }
}

fn collect_variables<'a>(v: &Value<'a>, out: &mut Vec<&'a str>)
    ensures
        final(out)@.map_values(|s: &str| s@) == old(out)@.map_values(|s: &str| s@) + variables_of(*v),
    decreases v,
{
    let ghost start = out@.map_values(|s: &str| s@);
    match v {
        Value::Variable(t) => {
            out.push(t);
            proof {
                assert(out@.map_values(|s: &str| s@) =~= start + seq![t@]);
            }
        },
        Value::List(items) => {
            let mut k = items.len();
            proof {
                assert(start + list_variables(items@, items.len() as int) =~= out@.map_values(|s: &str| s@) + list_variables(items@, items.len() as int));
            }
            while k > 0
                invariant
                    *v == Value::List(*items),
                    k <= items.len(),
                    start + list_variables(items@, items.len() as int) =~= out@.map_values(|s: &str| s@)
                        + list_variables(items@, k as int),
                decreases k,
            {
                k = k - 1;
                let ghost before = out@.map_values(|s: &str| s@);
                proof {
                    assert(decreases_to!(*v => (*v)->List_0));
                    assert((*v)->List_0 == *items);
                    assert(decreases_to!(*items => items@));
                    assert(decreases_to!(items@ => items@[k as int]));
                    assert(decreases_to!(*v => items@[k as int]));
                }
                collect_variables(&items[k], out);
                proof {
                    assert(list_variables(items@, k + 1) == variables_of(items@[k as int]) + list_variables(items@, k as int));
                    assert(before + list_variables(items@, k + 1) =~= out@.map_values(|s: &str| s@) + list_variables(items@, k as int));
                }
            }
            proof {
                assert(out@.map_values(|s: &str| s@) + list_variables(items@, 0) =~= out@.map_values(|s: &str| s@));
            }
        },
        Value::Object(pairs) => {
            let mut k = pairs.len();
            proof {
                assert(start + field_variables(pairs@, pairs.len() as int) =~= out@.map_values(|s: &str| s@) + field_variables(pairs@, pairs.len() as int));
            }
            while k > 0
                invariant
                    *v == Value::Object(*pairs),
                    k <= pairs.len(),
                    start + field_variables(pairs@, pairs.len() as int) =~= out@.map_values(|s: &str| s@)
                        + field_variables(pairs@, k as int),
                decreases k,
            {
                k = k - 1;
                let ghost before = out@.map_values(|s: &str| s@);
                proof {
                    assert(decreases_to!(*v => (*v)->Object_0));
                    assert((*v)->Object_0 == *pairs);
                    assert(decreases_to!(*pairs => pairs@));
                    assert(decreases_to!(pairs@ => pairs@[k as int]));
                    assert(decreases_to!(pairs@[k as int] => pairs@[k as int].1));
                    assert(decreases_to!(*v => pairs@[k as int].1));
                }
                collect_variables(&pairs[k].1, out);
                proof {
                    assert(field_variables(pairs@, k + 1) == variables_of(pairs@[k as int].1) + field_variables(pairs@, k as int));
                    assert(before + field_variables(pairs@, k + 1) =~= out@.map_values(|s: &str| s@) + field_variables(pairs@, k as int));
                }
            }
            proof {
                assert(out@.map_values(|s: &str| s@) + field_variables(pairs@, 0) =~= out@.map_values(|s: &str| s@));
            }
        },
        _ => {
            proof {
                assert(start + variables_of(*v) =~= start);
            }
        },
    }
}

impl<'a> Value<'a> {
    /// All the variables that appear somewhere in this value; see
    /// [`variables_of`].  A variable that appears more than once is listed
    /// more than once.
    pub fn variables_used(&self) -> (variables: Vec<&'a str>)
        ensures
            variables@.map_values(|s: &str| s@) == variables_of(*self),
    {
        let mut out: Vec<&'a str> = Vec::new();
        collect_variables(self, &mut out);
        proof {
            assert(Seq::<&str>::empty().map_values(|s: &str| s@) =~= Seq::<Seq<char>>::empty());
            assert(Seq::<Seq<char>>::empty() + variables_of(*self) =~= variables_of(*self));
        }
        out
    }
}

impl ExecutableDocument {
    /// Whether every value refers only to values stored before it and to
    /// interned strings; see [`values_well_founded`].
    pub fn values_are_well_founded(&self) -> (r: bool)
        ensures
            r == values_well_founded(self@),
    {
        let n = self.value_count();
        let strings = self.string_count();
        let mut i: usize = 0;
        while i < n
            invariant
                n == self@.values.len(),
                strings == self@.strings.len(),
                i <= n,
                forall|j: int| 0 <= j < i ==> value_refers_back(self@, j),
            decreases n - i,
        {
            let ok = match self.value_at(i) {
                ValueRecord::Variable(s) => s.get() < strings,
                ValueRecord::Float(s) => s.get() < strings,
                ValueRecord::String(s) => s.get() < strings,
                ValueRecord::Enum(s) => s.get() < strings,
                ValueRecord::List(ids) => {
                    let mut k: usize = 0;
                    let mut all = true;
                    while k < ids.len()
                        invariant
                            k <= ids.len(),
                            all == forall|m: int| 0 <= m < k ==> (#[trigger] ids@[m]).index() < i,
                        decreases ids.len() - k,
                    {
                        all = all && ids[k].get() < i;
                        k = k + 1;
                    }
                    all
                },
                ValueRecord::Object(fields) => {
                    let mut k: usize = 0;
                    let mut all = true;
                    while k < fields.len()
                        invariant
                            k <= fields.len(),
                            strings == self@.strings.len(),
                            all == forall|m: int|
                                0 <= m < k ==> (#[trigger] fields@[m]).1.index() < i && fields@[m].0.index()
                                    < strings,
                        decreases fields.len() - k,
                    {
                        all = all && fields[k].1.get() < i && fields[k].0.get() < strings;
                        k = k + 1;
                    }
                    all
                },
                _ => true,
            };
            if !ok {
                proof {
                    assert(!value_refers_back(self@, i as int));
                }
                return false;
            }
            i = i + 1;
        }
        true
    }
}

/// The value at `i` refers only to values before it and to interned strings.
pub open spec fn value_refers_back(c: ExecutableContents, i: int) -> bool {
    match c.values[i] {
        ValueRecord::Variable(s) => s.index() < c.strings.len(),
        ValueRecord::Float(s) => s.index() < c.strings.len(),
        ValueRecord::String(s) => s.index() < c.strings.len(),
        ValueRecord::Enum(s) => s.index() < c.strings.len(),
        ValueRecord::List(ids) => forall|k: int| 0 <= k < ids.len() ==> (#[trigger] ids@[k]).index() < i,
        ValueRecord::Object(fields) => forall|k: int|
            0 <= k < fields.len() ==> (#[trigger] fields@[k]).1.index() < i && fields@[k].0.index()
                < c.strings.len(),
        _ => true,
    }
}

} // verus!

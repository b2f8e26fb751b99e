//! Documents and values written out as GraphQL text.
use vstd::prelude::*;

use super::contents::ExecutableContents;
use super::ids::ValueId;
use super::storage::ValueRecord;
use super::value::{reads_as, Value};
use crate::text::{append, escape_string, escaped, hex_digit, hex_digit_of, push_char};

verus! {

/// The decimal digits of `n`.
pub open spec fn natural_text(n: nat) -> Seq<char>
    decreases n,
{
    if n < 10 {
        seq![hex_digit(n as int)]
    } else {
        natural_text(n / 10).push(hex_digit((n % 10) as int))
    }
}

/// `n` in decimal, with a minus sign where it is negative.
pub open spec fn int_text(n: int) -> Seq<char> {
    if n < 0 {
        seq!['-'] + natural_text((-n) as nat)
    } else {
        natural_text(n as nat)
    }
}

fn write_natural(text: &mut String, n: u64)
    ensures
        final(text)@ == old(text)@ + natural_text(n as nat),
    decreases n,
{
    if n >= 10 {
        write_natural(text, n / 10);
    }
    push_char(text, hex_digit_of((n % 10) as u32));
    proof {
        if n < 10 {
            assert(n % 10 == n);
        }
    }
}

/// Appends `n` in decimal.
pub fn write_int(text: &mut String, n: i64)
    ensures
        final(text)@ == old(text)@ + int_text(n as int),
{
    if n < 0 {
        push_char(text, '-');
        let magnitude: u64 = if n == i64::MIN {
            9223372036854775808u64
        } else {
            (-n) as u64
        };
        write_natural(text, magnitude);
        proof {
            assert(old(text)@ + int_text(n as int) =~= old(text)@.push('-') + natural_text(magnitude as nat));
        }
    } else {
        write_natural(text, n as u64);
    }
}

/// How a value is written: a string quoted and escaped, a variable after a
/// `$`, list items and object fields separated by commas.
pub open spec fn value_text(v: Value) -> Seq<char>
    decreases v, 0int,
{
    match v {
        Value::Variable(name) => seq!['$'] + name@,
        Value::Int(n) => int_text(n as int),
        Value::Float(literal) => literal@,
        Value::String(s) => seq!['"'] + escaped(s@) + seq!['"'],
        Value::Boolean(b) => if b {
            "true"@
        } else {
            "false"@
        },
        Value::Null => "null"@,
        Value::Enum(name) => name@,
        Value::List(items) => seq!['['] + items_text(items@, items.len() as int) + seq![']'],
        Value::Object(pairs) => seq!['{'] + fields_text(pairs@, pairs.len() as int) + seq!['}'],
    }
}

/// The first `k` items, separated by commas.
pub open spec fn items_text(items: Seq<Value>, k: int) -> Seq<char>
    decreases items, k,
{
    if k <= 0 || k > items.len() {
        Seq::empty()
    } else {
        items_text(items, k - 1) + (if k > 1 {
            seq![',', ' ']
        } else {
            Seq::empty()
        }) + value_text(items[k - 1])
    }
}

/// The first `k` fields, each as `name: value`, separated by commas.
pub open spec fn fields_text(pairs: Seq<(&str, Value)>, k: int) -> Seq<char>
    decreases pairs, k,
{
    if k <= 0 || k > pairs.len() {
        Seq::empty()
    } else {
        fields_text(pairs, k - 1) + (if k > 1 {
            seq![',', ' ']
        } else {
            Seq::empty()
        }) + pairs[k - 1].0@ + seq![':', ' '] + value_text(pairs[k - 1].1)
    }
}

fn write_value(text: &mut String, v: &Value)
    ensures
        final(text)@ == old(text)@ + value_text(*v),
    decreases v,
{
    match v {
        Value::Variable(name) => {
            push_char(text, '$');
            append(text, name);
            proof {
                assert(old(text)@ + value_text(*v) =~= old(text)@.push('$') + name@);
            }
        },
        Value::Int(n) => write_int(text, *n),
        Value::Float(literal) => append(text, literal),
        Value::String(s) => {
            push_char(text, '"');
            let escaped_text = escape_string(s);
            append(text, escaped_text.as_str());
            push_char(text, '"');
            proof {
                assert(old(text)@ + value_text(*v) =~= old(text)@.push('"') + escaped(s@) + seq!['"']);
            }
        },
        Value::Boolean(b) => {
            if *b {
                append(text, "true");
            } else {
                append(text, "false");
            }
        },
        Value::Null => append(text, "null"),
        Value::Enum(name) => append(text, name),
        Value::List(items) => {
            let ghost start = text@;
            push_char(text, '[');
            let mut k: usize = 0;
            while k < items.len()
                invariant
                    *v == Value::List(*items),
                    k <= items.len(),
                    text@ == start.push('[') + items_text(items@, k as int),
                decreases items.len() - k,
            {
                let ghost before = text@;
                if k > 0 {
                    push_char(text, ',');
                    push_char(text, ' ');
                }
                proof {
                    assert(decreases_to!(*v => (*v)->List_0));
                    assert((*v)->List_0 == *items);
                    assert(decreases_to!(*items => items@));
                    assert(decreases_to!(items@ => items@[k as int]));
                    assert(decreases_to!(*v => items@[k as int]));
                }
                write_value(text, &items[k]);
                proof {
                    assert(items_text(items@, k + 1) == items_text(items@, k as int) + (if k + 1 > 1 {
                        seq![',', ' ']
                    } else {
                        Seq::empty()
                    }) + value_text(items@[k as int]));
                    assert(text@ =~= start.push('[') + items_text(items@, k + 1));
                }
                k = k + 1;
            }
            push_char(text, ']');
            proof {
                assert(old(text)@ + value_text(*v) =~= start.push('[') + items_text(items@, items.len() as int)
                    + seq![']']);
            }
        },
        Value::Object(pairs) => {
            let ghost start = text@;
            push_char(text, '{');
            let mut k: usize = 0;
            while k < pairs.len()
                invariant
                    *v == Value::Object(*pairs),
                    k <= pairs.len(),
                    text@ == start.push('{') + fields_text(pairs@, k as int),
                decreases pairs.len() - k,
            {
                if k > 0 {
                    push_char(text, ',');
                    push_char(text, ' ');
                }
                let ghost before = text@;
                append(text, pairs[k].0);
                push_char(text, ':');
                push_char(text, ' ');
                proof {
                    assert(decreases_to!(*v => (*v)->Object_0));
                    assert((*v)->Object_0 == *pairs);
                    assert(decreases_to!(*pairs => pairs@));
                    assert(decreases_to!(pairs@ => pairs@[k as int]));
                    assert(decreases_to!(pairs@[k as int] => pairs@[k as int].1));
                    assert(decreases_to!(*v => pairs@[k as int].1));
                }
                write_value(text, &pairs[k].1);
                proof {
                    assert(fields_text(pairs@, k + 1) == fields_text(pairs@, k as int) + (if k + 1 > 1 {
                        seq![',', ' ']
                    } else {
                        Seq::empty()
                    }) + pairs@[k as int].0@ + seq![':', ' '] + value_text(pairs@[k as int].1));
                    assert(text@ =~= start.push('{') + fields_text(pairs@, k + 1));
                }
                k = k + 1;
            }
            push_char(text, '}');
            proof {
                assert(old(text)@ + value_text(*v) =~= start.push('{') + fields_text(pairs@, pairs.len() as int)
                    + seq!['}']);
            }
        },
    }
}

impl<'a> Value<'a> {
    /// The value as GraphQL text; see [`value_text`].
    pub fn to_string(&self) -> (text: String)
        ensures
            text@ == value_text(*self),
    {
        let mut text = String::new();
        write_value(&mut text, self);
        proof {
            assert(Seq::<char>::empty() + value_text(*self) =~= value_text(*self));
        }
        text
    }
}

/// How the value stored at `index` is written; see [`value_text`].  A
/// child stored at or after its parent is left out.
pub open spec fn value_text_at(c: ExecutableContents, index: int) -> Seq<char>
    decreases index, 1int, 0int,
{
    if index < 0 || index >= c.values.len() {
        Seq::empty()
    } else {
        match c.values[index] {
            ValueRecord::Variable(s) => seq!['$'] + c.text(s),
            ValueRecord::Int(n) => int_text(n as int),
            ValueRecord::Float(s) => c.text(s),
            ValueRecord::String(s) => seq!['"'] + escaped(c.text(s)) + seq!['"'],
            ValueRecord::Boolean(b) => if b {
                "true"@
            } else {
                "false"@
            },
            ValueRecord::Null => "null"@,
            ValueRecord::Enum(s) => c.text(s),
            ValueRecord::List(ids) => seq!['['] + stored_items_text(c, index, ids@, ids.len() as int)
                + seq![']'],
            ValueRecord::Object(fields) => seq!['{'] + stored_fields_text(
                c,
                index,
                fields@,
                fields.len() as int,
            ) + seq!['}'],
        }
    }
}

/// The first `k` items of the list stored at `index`, separated by commas.
pub open spec fn stored_items_text(c: ExecutableContents, index: int, ids: Seq<ValueId>, k: int) -> Seq<char>
    decreases index, 0int, k,
{
    if k <= 0 || k > ids.len() || index < 0 {
        Seq::empty()
    } else {
        stored_items_text(c, index, ids, k - 1) + (if k > 1 {
            seq![',', ' ']
        } else {
            Seq::empty()
        }) + (if ids[k - 1].index() < index {
            value_text_at(c, ids[k - 1].index() as int)
        } else {
            Seq::empty()
        })
    }
}

/// The first `k` fields of the object stored at `index`, each as
/// `name: value`, separated by commas.
pub open spec fn stored_fields_text(
    c: ExecutableContents,
    index: int,
    fields: Seq<(super::ids::StringId, ValueId)>,
    k: int,
) -> Seq<char>
    decreases index, 0int, k,
{
    if k <= 0 || k > fields.len() || index < 0 {
        Seq::empty()
    } else {
        stored_fields_text(c, index, fields, k - 1) + (if k > 1 {
            seq![',', ' ']
        } else {
            Seq::empty()
        }) + c.text(fields[k - 1].0) + seq![':', ' '] + (if fields[k - 1].1.index() < index {
            value_text_at(c, fields[k - 1].1.index() as int)
        } else {
            Seq::empty()
        })
    }
}

/// A value read from a document is written as the value stored there.
pub proof fn lemma_value_text_at(c: ExecutableContents, index: nat, v: Value)
    requires
        reads_as(c, index, v),
    ensures
        value_text(v) == value_text_at(c, index as int),
    decreases index, 1int, 0int,
{
    match c.values[index as int] {
        ValueRecord::List(ids) => {
            let items = v->List_0;
            lemma_items_text_at(c, index, ids@, items@, ids.len() as int);
        },
        ValueRecord::Object(fields) => {
            let pairs = v->Object_0;
            lemma_fields_text_at(c, index, fields@, pairs@, fields.len() as int);
        },
        _ => {},
    }
}

proof fn lemma_items_text_at(c: ExecutableContents, index: nat, ids: Seq<ValueId>, items: Seq<Value>, k: int)
    requires
        0 <= k <= ids.len(),
        items.len() == ids.len(),
        forall|m: int|
            0 <= m < ids.len() ==> (#[trigger] ids[m]).index() < index && reads_as(
                c,
                ids[m].index(),
                items[m],
            ),
    ensures
        items_text(items, k) == stored_items_text(c, index as int, ids, k),
    decreases index, 0int, k,
{
    if k > 0 {
        lemma_items_text_at(c, index, ids, items, k - 1);
        assert(ids[k - 1].index() < index);
        lemma_value_text_at(c, ids[k - 1].index(), items[k - 1]);
    }
}

proof fn lemma_fields_text_at(
    c: ExecutableContents,
    index: nat,
    fields: Seq<(super::ids::StringId, ValueId)>,
    pairs: Seq<(&str, Value)>,
    k: int,
)
    requires
        0 <= k <= fields.len(),
        pairs.len() == fields.len(),
        forall|m: int|
            0 <= m < fields.len() ==> (#[trigger] fields[m]).1.index() < index && pairs[m].0@
                == c.text(fields[m].0) && reads_as(c, fields[m].1.index(), pairs[m].1),
    ensures
        fields_text(pairs, k) == stored_fields_text(c, index as int, fields, k),
    decreases index, 0int, k,
{
    if k > 0 {
        lemma_fields_text_at(c, index, fields, pairs, k - 1);
        assert(fields[k - 1].1.index() < index);
        lemma_value_text_at(c, fields[k - 1].1.index(), pairs[k - 1].1);
    }
}

} // verus!

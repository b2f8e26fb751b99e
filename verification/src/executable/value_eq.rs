//! Equality of values: lists item by item, objects field by field whatever
//! the order of their fields.
use vstd::prelude::*;

use super::display::value_text;
use super::value::Value;
use crate::text::law_escaped_injective;

verus! {

/// Whether `a` and `b` are the same value.  Two objects are equal where
/// they have as many fields and every field of the first equals the first
/// field of the second with the same name.  Floats compare by the text of
/// their literals.
pub open spec fn values_equal(a: Value, b: Value) -> bool
    decreases a, 0int,
{
    match (a, b) {
        (Value::Int(x), Value::Int(y)) => x == y,
        (Value::Variable(x), Value::Variable(y)) => x@ == y@,
        (Value::Float(x), Value::Float(y)) => x@ == y@,
        (Value::String(x), Value::String(y)) => x@ == y@,
        (Value::Boolean(x), Value::Boolean(y)) => x == y,
        (Value::Null, Value::Null) => true,
        (Value::Enum(x), Value::Enum(y)) => x@ == y@,
        (Value::List(xs), Value::List(ys)) => xs.len() == ys.len() && items_equal(
            xs@,
            ys@,
            xs.len() as int,
        ),
        (Value::Object(xs), Value::Object(ys)) => xs.len() == ys.len() && fields_found(
            xs@,
            ys@,
            xs.len() as int,
        ),
        _ => false,
    }
}

/// Whether the first `k` items of `xs` equal those of `ys`.
pub open spec fn items_equal(xs: Seq<Value>, ys: Seq<Value>, k: int) -> bool
    decreases xs, k,
{
    if k <= 0 || k > xs.len() {
        true
    } else {
        items_equal(xs, ys, k - 1) && k <= ys.len() && values_equal(xs[k - 1], ys[k - 1])
    }
}

/// The position of the first field of `fields`, from `j` on, named `name`.
pub open spec fn field_named(fields: Seq<(&str, Value)>, name: Seq<char>, j: int) -> Option<int>
    decreases fields.len() - j,
{
    if j < 0 || j >= fields.len() {
        None
    } else if fields[j].0@ == name {
        Some(j)
    } else {
        field_named(fields, name, j + 1)
    }
}

/// Whether each of the first `k` fields of `xs` equals the first field of
/// `ys` with its name.
pub open spec fn fields_found(xs: Seq<(&str, Value)>, ys: Seq<(&str, Value)>, k: int) -> bool
    decreases xs, k,
{
    if k <= 0 || k > xs.len() {
        true
    } else {
        fields_found(xs, ys, k - 1) && match field_named(ys, xs[k - 1].0@, 0) {
            Some(j) => 0 <= j < ys.len() && values_equal(xs[k - 1].1, ys[j].1),
            None => false,
        }
    }
}

fn same_text(a: &str, b: &str) -> (r: bool)
    ensures
        r == (a@ == b@),
{
    let a = a.to_owned();
    let b = b.to_owned();
    a == b
}

/// The position of the first field of `fields`, from `j` on, named `name`.
fn find_field(fields: &Vec<(&str, Value)>, name: &str, j: usize) -> (found: Option<usize>)
    requires
        j <= fields.len(),
    ensures
        match found {
            Some(i) => field_named(fields@, name@, j as int) == Some(i as int),
            None => field_named(fields@, name@, j as int) is None,
        },
    decreases fields.len() - j,
{
    if j == fields.len() {
        None
    } else if same_text(fields[j].0, name) {
        Some(j)
    } else {
        find_field(fields, name, j + 1)
    }
}

proof fn lemma_field_named_in_bounds(fields: Seq<(&str, Value)>, name: Seq<char>, j: int)
    ensures
        field_named(fields, name, j) matches Some(i) ==> j <= i < fields.len(),
    decreases fields.len() - j,
{
    if 0 <= j < fields.len() {
        lemma_field_named_in_bounds(fields, name, j + 1);
    }
}

fn equal_values(a: &Value, b: &Value) -> (r: bool)
    ensures
        r == values_equal(*a, *b),
    decreases a,
{
    match (a, b) {
        (Value::Int(x), Value::Int(y)) => *x == *y,
        (Value::Variable(x), Value::Variable(y)) => same_text(x, y),
        (Value::Float(x), Value::Float(y)) => same_text(x, y),
        (Value::String(x), Value::String(y)) => same_text(x, y),
        (Value::Boolean(x), Value::Boolean(y)) => *x == *y,
        (Value::Null, Value::Null) => true,
        (Value::Enum(x), Value::Enum(y)) => same_text(x, y),
        (Value::List(xs), Value::List(ys)) => {
            if xs.len() != ys.len() {
                return false;
            }
            let mut k: usize = 0;
            while k < xs.len()
                invariant
                    *a == Value::List(*xs),
                    *b == Value::List(*ys),
                    xs.len() == ys.len(),
                    k <= xs.len(),
                    items_equal(xs@, ys@, k as int),
                decreases xs.len() - k,
            {
                proof {
                    assert(decreases_to!(*a => (*a)->List_0));
                    assert((*a)->List_0 == *xs);
                    assert(decreases_to!(*xs => xs@));
                    assert(decreases_to!(xs@ => xs@[k as int]));
                    assert(decreases_to!(*a => xs@[k as int]));
                }
                if !equal_values(&xs[k], &ys[k]) {
                    proof {
                        if items_equal(xs@, ys@, xs.len() as int) {
                            lemma_items_prefix(xs@, ys@, k + 1, xs.len() as int);
                        }
                    }
                    return false;
                }
                k = k + 1;
            }
            true
        },
        (Value::Object(xs), Value::Object(ys)) => {
            if xs.len() != ys.len() {
                return false;
            }
            let mut k: usize = 0;
            while k < xs.len()
                invariant
                    *a == Value::Object(*xs),
                    *b == Value::Object(*ys),
                    xs.len() == ys.len(),
                    k <= xs.len(),
                    fields_found(xs@, ys@, k as int),
                decreases xs.len() - k,
            {
                proof {
                    lemma_field_named_in_bounds(ys@, xs@[k as int].0@, 0);
                }
                let found = find_field(ys, xs[k].0, 0);
                match found {
                    Some(j) => {
                        proof {
                            assert(decreases_to!(*a => (*a)->Object_0));
                            assert((*a)->Object_0 == *xs);
                            assert(decreases_to!(*xs => xs@));
                            assert(decreases_to!(xs@ => xs@[k as int]));
                            assert(decreases_to!(xs@[k as int] => xs@[k as int].1));
                            assert(decreases_to!(*a => xs@[k as int].1));
                        }
                        if !equal_values(&xs[k].1, &ys[j].1) {
                            proof {
                                if fields_found(xs@, ys@, xs.len() as int) {
                                    if fields_found(xs@, ys@, xs.len() as int) {
                                lemma_fields_prefix(xs@, ys@, k + 1, xs.len() as int);
                            }
                                }
                            }
                            return false;
                        }
                    },
                    None => {
                        proof {
                            if fields_found(xs@, ys@, xs.len() as int) {
                                lemma_fields_prefix(xs@, ys@, k + 1, xs.len() as int);
                            }
                        }
                        return false;
                    },
                }
                k = k + 1;
            }
            true
        },
        _ => false,
    }
}

/// Items that all equal include each prefix that all equal.
proof fn lemma_items_prefix(xs: Seq<Value>, ys: Seq<Value>, k: int, n: int)
    requires
        0 <= k <= n <= xs.len(),
        items_equal(xs, ys, n),
    ensures
        items_equal(xs, ys, k),
    decreases n - k,
{
    if k < n {
        lemma_items_prefix(xs, ys, k, n - 1);
    }
}

/// Fields that are all found include each prefix that is all found.
proof fn lemma_fields_prefix(xs: Seq<(&str, Value)>, ys: Seq<(&str, Value)>, k: int, n: int)
    requires
        0 <= k <= n <= xs.len(),
        fields_found(xs, ys, n),
    ensures
        fields_found(xs, ys, k),
    decreases n - k,
{
    if k < n {
        lemma_fields_prefix(xs, ys, k, n - 1);
    }
}

impl<'a> PartialEq for Value<'a> {
    fn eq(&self, other: &Self) -> (r: bool) {
        equal_values(self, other)
    }
}

impl<'a> vstd::std_specs::cmp::PartialEqSpecImpl for Value<'a> {
    open spec fn obeys_eq_spec() -> bool {
        true
    }

    open spec fn eq_spec(&self, other: &Self) -> bool {
        values_equal(*self, *other)
    }
}

/// Equal values are written alike: two values that are neither lists nor
/// objects and compare equal have the same GraphQL text.
pub proof fn law_equal_values_print_alike(a: Value, b: Value)
    requires
        !(a is List),
        !(a is Object),
        values_equal(a, b),
    ensures
        value_text(a) == value_text(b),
{
}

/// Two variables, floats, strings, booleans, nulls or enum values of the
/// same kind are equal exactly when they are written alike: equality of
/// such values is equality of what they hold.
pub proof fn law_plain_values_equal_by_text(a: Value, b: Value)
    requires
        (a is Variable && b is Variable) || (a is Float && b is Float) || (a is String && b is String)
            || (a is Boolean && b is Boolean) || (a is Null && b is Null) || (a is Enum && b is Enum),
    ensures
        values_equal(a, b) <==> value_text(a) == value_text(b),
{
    match (a, b) {
        (Value::Variable(x), Value::Variable(y)) => {
            if value_text(a) == value_text(b) {
                assert(x@ =~= value_text(a).drop_first());
                assert(y@ =~= value_text(b).drop_first());
            }
        },
        (Value::String(x), Value::String(y)) => {
            if value_text(a) == value_text(b) {
                let ta = value_text(a);
                assert(crate::text::escaped(x@) =~= ta.subrange(1, ta.len() - 1));
                assert(crate::text::escaped(y@) =~= ta.subrange(1, ta.len() - 1));
                law_escaped_injective(x@, y@);
            }
        },
        (Value::Boolean(x), Value::Boolean(y)) => {
            if x != y {
                reveal_strlit("true");
                reveal_strlit("false");
                assert("true"@.len() != "false"@.len());
            }
        },
        _ => {},
    }
}

} // verus!

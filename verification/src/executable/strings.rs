//! The interned strings of a document, kept in an [`IndexSet`]: each string
//! once, in the order in which it was first interned.
use indexmap::IndexSet;
use vstd::prelude::*;

verus! {

#[verifier::external_type_specification]
#[verifier::external_body]
#[verifier::reject_recursive_types(T)]
#[verifier::reject_recursive_types(S)]
pub struct ExIndexSet<T, S>(IndexSet<T, S>);

/// The strings that `set` holds, in insertion order.
pub uninterp spec fn string_set_contents(set: IndexSet<String>) -> Seq<Seq<char>>;

/// No string occurs twice.
pub open spec fn all_distinct(strings: Seq<Seq<char>>) -> bool {
    forall|i: int, j: int|
        0 <= i < strings.len() && 0 <= j < strings.len() && i != j ==> strings[i] != strings[j]
}

/// `IndexSet::new`: an empty set.
#[verifier::external_body]
pub fn new_string_set() -> (set: IndexSet<String>)
    ensures
        string_set_contents(set) == Seq::<Seq<char>>::empty(),
{
    IndexSet::new()
}

/// `IndexSet::insert_full`: where an equal string is in the set, its index and
/// `false`, with the set unchanged; otherwise the string is appended, and its
/// index (the old length) and `true` come back.
#[verifier::external_body]
pub fn insert_full(set: &mut IndexSet<String>, value: String) -> (r: (usize, bool))
    ensures
        string_set_contents(*old(set)).contains(value@) ==> {
            &&& !r.1
            &&& r.0 < string_set_contents(*old(set)).len()
            &&& string_set_contents(*old(set))[r.0 as int] == value@
            &&& string_set_contents(*final(set)) == string_set_contents(*old(set))
        },
        !string_set_contents(*old(set)).contains(value@) ==> {
            &&& r.1
            &&& r.0 == string_set_contents(*old(set)).len()
            &&& string_set_contents(*final(set)) == string_set_contents(*old(set)).push(value@)
        },
{
    set.insert_full(value)
}

/// `IndexSet::get_index`: the string at `index`, `None` past the end.
#[verifier::external_body]
pub fn get_index(set: &IndexSet<String>, index: usize) -> (found: Option<&String>)
    ensures
        index < string_set_contents(*set).len() ==> found.is_some() && found.unwrap()@
            == string_set_contents(*set)[index as int],
        index >= string_set_contents(*set).len() ==> found.is_none(),
{
    set.get_index(index)
}

/// `IndexSet::len`: the number of strings.
#[verifier::external_body]
pub fn string_count(set: &IndexSet<String>) -> (n: usize)
    ensures
        n == string_set_contents(*set).len(),
{
    set.len()
}

} // verus!

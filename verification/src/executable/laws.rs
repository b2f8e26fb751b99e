//! What holds of every executable document and of every sequence of writes.
use vstd::prelude::*;

use super::contents::{fragment_ids_of, interned, operation_ids_of, ExecutableContents};
use super::ids::{FragmentDefinitionId, OperationDefinitionId};
use super::storage::{ExecutableDefinitionRecord, FragmentDefinitionRecord, OperationDefinitionRecord};
use super::strings::all_distinct;
use super::document::{lemma_fragment_ids_valid, lemma_operation_ids_valid};

verus! {

/// Interning is idempotent: interning a string a second time leaves the pool
/// as it is and gives the same index, and the pool holds the string at that
/// index.  No string ever occurs twice in the pool.
pub proof fn law_intern_idempotent(pool: Seq<Seq<char>>, s: Seq<char>)
    requires
        all_distinct(pool),
    ensures
        interned(interned(pool, s).0, s) == interned(pool, s),
        interned(pool, s).1 < interned(pool, s).0.len(),
        interned(pool, s).0[interned(pool, s).1 as int] == s,
        all_distinct(interned(pool, s).0),
{
    let (p1, i1) = interned(pool, s);
    if pool.contains(s) {
        let c = choose|i: nat| i < pool.len() && pool[i as int] == s;
        assert(c < pool.len() && pool[c as int] == s);
    } else {
        assert(p1[pool.len() as int] == s);
        assert(p1.contains(s));
        let c = choose|i: nat| i < p1.len() && p1[i as int] == s;
        assert(c < p1.len() && p1[c as int] == s);
        assert forall|i: int, j: int|
            0 <= i < p1.len() && 0 <= j < p1.len() && i != j implies p1[i] != p1[j] by {
            if i == pool.len() {
                assert(pool[j] != s);
            } else if j == pool.len() {
                assert(pool[i] != s);
            }
        }
        assert(c == pool.len());
    }
}

/// Every definition is either an operation or a fragment: the operations and
/// the fragments of a document together are as many as its definitions.
pub proof fn law_definitions_partition(definitions: Seq<ExecutableDefinitionRecord>)
    ensures
        operation_ids_of(definitions).len() + fragment_ids_of(definitions).len()
            == definitions.len(),
    decreases definitions.len(),
{
    if definitions.len() > 0 {
        law_definitions_partition(definitions.drop_last());
    }
}

/// What one writes as an operation is read back: the new definition refers to
/// the new operation, which holds the record; it is the last operation, and
/// the fragments stay as they were.
pub proof fn law_operation_read_after_write(
    contents: ExecutableContents,
    record: OperationDefinitionRecord,
)
    requires
        contents.wf(),
        contents.operations.len() < u32::MAX,
    ensures
        ({
            let after = contents.with_operation(record);
            let op = OperationDefinitionId::at(contents.operations.len());
            &&& after.wf()
            &&& after.definitions[contents.definitions.len() as int]
                == ExecutableDefinitionRecord::Operation(op)
            &&& after.operations[op.index() as int] == record
            &&& after.operation_ids() == contents.operation_ids().push(op)
            &&& after.fragment_ids() == contents.fragment_ids()
        }),
{
    let after = contents.with_operation(record);
    OperationDefinitionId::lemma_at(contents.operations.len());
    assert(after.definitions.drop_last() =~= contents.definitions);
    assert forall|i: int| #![trigger after.definitions[i]] 0 <= i < after.definitions.len() implies match after.definitions[i] {
        ExecutableDefinitionRecord::Operation(id) => id.wf() && id.index() < after.operations.len(),
        ExecutableDefinitionRecord::Fragment(id) => id.wf() && id.index() < after.fragments.len(),
    } by {
        if i < contents.definitions.len() {
            assert(after.definitions[i] == contents.definitions[i]);
        }
    }
}

/// What one writes as a fragment is read back: the new definition refers to
/// the new fragment, which holds the record; it is the last fragment, and the
/// operations stay as they were.
pub proof fn law_fragment_read_after_write(
    contents: ExecutableContents,
    record: FragmentDefinitionRecord,
)
    requires
        contents.wf(),
        contents.fragments.len() < u32::MAX,
    ensures
        ({
            let after = contents.with_fragment(record);
            let fragment = FragmentDefinitionId::at(contents.fragments.len());
            &&& after.wf()
            &&& after.definitions[contents.definitions.len() as int]
                == ExecutableDefinitionRecord::Fragment(fragment)
            &&& after.fragments[fragment.index() as int] == record
            &&& after.fragment_ids() == contents.fragment_ids().push(fragment)
            &&& after.operation_ids() == contents.operation_ids()
        }),
{
    let after = contents.with_fragment(record);
    FragmentDefinitionId::lemma_at(contents.fragments.len());
    assert(after.definitions.drop_last() =~= contents.definitions);
    assert forall|i: int| #![trigger after.definitions[i]] 0 <= i < after.definitions.len() implies match after.definitions[i] {
        ExecutableDefinitionRecord::Operation(id) => id.wf() && id.index() < after.operations.len(),
        ExecutableDefinitionRecord::Fragment(id) => id.wf() && id.index() < after.fragments.len(),
    } by {
        if i < contents.definitions.len() {
            assert(after.definitions[i] == contents.definitions[i]);
        }
    }
}

/// Every operation and every fragment that a well-formed document lists is
/// stored in it.
pub proof fn law_listed_definitions_are_stored(contents: ExecutableContents)
    requires
        contents.wf(),
    ensures
        forall|k: int|
            0 <= k < contents.operation_ids().len() ==> (#[trigger] contents.operation_ids()[k]).wf()
                && contents.operation_ids()[k].index() < contents.operations.len(),
        forall|k: int|
            0 <= k < contents.fragment_ids().len() ==> (#[trigger] contents.fragment_ids()[k]).wf()
                && contents.fragment_ids()[k].index() < contents.fragments.len(),
{
    lemma_operation_ids_valid(contents.definitions, contents.operations.len());
    lemma_fragment_ids_valid(contents.definitions, contents.fragments.len());
}

/// One write to a document: a string interned, or an operation or a
/// fragment stored as a definition.
pub enum Write {
    Intern(Seq<char>),
    Operation(OperationDefinitionRecord),
    Fragment(FragmentDefinitionRecord),
}

/// The document after `write`.
pub open spec fn apply_write(contents: ExecutableContents, write: Write) -> ExecutableContents {
    match write {
        Write::Intern(s) => contents.with_string(s),
        Write::Operation(record) => contents.with_operation(record),
        Write::Fragment(record) => contents.with_fragment(record),
    }
}

/// The document after `writes`, in order.
pub open spec fn apply_writes(contents: ExecutableContents, writes: Seq<Write>) -> ExecutableContents
    decreases writes.len(),
{
    if writes.len() == 0 {
        contents
    } else {
        apply_write(apply_writes(contents, writes.drop_last()), writes.last())
    }
}

/// The writes of `writes` that store a definition, in order.
pub open spec fn definition_writes(writes: Seq<Write>) -> Seq<Write>
    decreases writes.len(),
{
    if writes.len() == 0 {
        Seq::empty()
    } else {
        let before = definition_writes(writes.drop_last());
        match writes.last() {
            Write::Intern(_) => before,
            _ => before.push(writes.last()),
        }
    }
}

/// The definition `definition` of `contents` refers to the record that
/// `write` stored.
pub open spec fn reads_back(contents: ExecutableContents, definition: ExecutableDefinitionRecord, write: Write) -> bool {
    match (definition, write) {
        (ExecutableDefinitionRecord::Operation(id), Write::Operation(record)) => id.index()
            < contents.operations.len() && contents.operations[id.index() as int] == record,
        (ExecutableDefinitionRecord::Fragment(id), Write::Fragment(record)) => id.index()
            < contents.fragments.len() && contents.fragments[id.index() as int] == record,
        _ => false,
    }
}

/// Any sequence of writes into an empty document gives back what was
/// written: the document is well formed, its definitions are those written,
/// in order, each referring to the record that was written, and it holds
/// every string that was interned.
pub proof fn law_writes_read_back(writes: Seq<Write>)
    requires
        writes.len() < u32::MAX,
    ensures
        ({
            let c = apply_writes(ExecutableContents::empty(), writes);
            &&& c.wf()
            &&& c.definitions.len() == definition_writes(writes).len()
            &&& c.operations.len() + c.fragments.len() == c.definitions.len()
            &&& forall|j: int|
                0 <= j < c.definitions.len() ==> reads_back(
                    c,
                    #[trigger] c.definitions[j],
                    definition_writes(writes)[j],
                )
            &&& forall|i: int|
                0 <= i < writes.len() ==> (#[trigger] writes[i] matches Write::Intern(s)
                    ==> c.strings.contains(s))
        }),
    decreases writes.len(),
{
    if writes.len() > 0 {
        let rest = writes.drop_last();
        law_writes_read_back(rest);
        let c0 = apply_writes(ExecutableContents::empty(), rest);
        let c = apply_writes(ExecutableContents::empty(), writes);
        let defs0 = definition_writes(rest);
        let defs = definition_writes(writes);
        assert(c0.definitions.len() <= rest.len()) by {
            lemma_definition_writes_len(rest);
        }
        match writes.last() {
            Write::Intern(t) => {
                law_intern_idempotent(c0.strings, t);
                assert(c.wf()) by {
                    assert forall|i: int| #![trigger c.definitions[i]] 0 <= i < c.definitions.len() implies match c.definitions[i] {
                        ExecutableDefinitionRecord::Operation(id) => id.wf() && id.index() < c.operations.len(),
                        ExecutableDefinitionRecord::Fragment(id) => id.wf() && id.index() < c.fragments.len(),
                    } by {
                        assert(c0.definitions[i] == c.definitions[i]);
                    }
                }
                assert forall|j: int| 0 <= j < c.definitions.len() implies reads_back(
                    c,
                    #[trigger] c.definitions[j],
                    defs[j],
                ) by {
                    assert(reads_back(c0, c0.definitions[j], defs0[j]));
                }
                assert forall|i: int|
                    0 <= i < writes.len() implies (#[trigger] writes[i] matches Write::Intern(s)
                    ==> c.strings.contains(s)) by {
                    if i < rest.len() {
                        assert(writes[i] == rest[i]);
                        if let Write::Intern(s) = writes[i] {
                            assert(c0.strings.contains(s));
                            let k = choose|k: int| 0 <= k < c0.strings.len() && c0.strings[k] == s;
                            assert(c.strings[k] == s);
                        }
                    } else {
                        let k = interned(c0.strings, t).1 as int;
                        assert(c.strings[k] == t);
                    }
                }
            },
            Write::Operation(record) => {
                law_operation_read_after_write(c0, record);
                assert(defs == defs0.push(writes.last()));
                assert forall|j: int| 0 <= j < c.definitions.len() implies reads_back(
                    c,
                    #[trigger] c.definitions[j],
                    defs[j],
                ) by {
                    if j < c0.definitions.len() {
                        assert(c.definitions[j] == c0.definitions[j]);
                        assert(reads_back(c0, c0.definitions[j], defs0[j]));
                    }
                }
                assert forall|i: int|
                    0 <= i < writes.len() implies (#[trigger] writes[i] matches Write::Intern(s)
                    ==> c.strings.contains(s)) by {
                    if i < rest.len() {
                        assert(writes[i] == rest[i]);
                    }
                }
            },
            Write::Fragment(record) => {
                law_fragment_read_after_write(c0, record);
                assert(defs == defs0.push(writes.last()));
                assert forall|j: int| 0 <= j < c.definitions.len() implies reads_back(
                    c,
                    #[trigger] c.definitions[j],
                    defs[j],
                ) by {
                    if j < c0.definitions.len() {
                        assert(c.definitions[j] == c0.definitions[j]);
                        assert(reads_back(c0, c0.definitions[j], defs0[j]));
                    }
                }
                assert forall|i: int|
                    0 <= i < writes.len() implies (#[trigger] writes[i] matches Write::Intern(s)
                    ==> c.strings.contains(s)) by {
                    if i < rest.len() {
                        assert(writes[i] == rest[i]);
                    }
                }
            },
        }
    }
}

/// There are at most as many definition writes as writes.
proof fn lemma_definition_writes_len(writes: Seq<Write>)
    ensures
        definition_writes(writes).len() <= writes.len(),
    decreases writes.len(),
{
    if writes.len() > 0 {
        lemma_definition_writes_len(writes.drop_last());
    }
}

/// Interning gives equal identifiers exactly for equal strings: interning
/// `s` and then `t` gives the same index twice exactly where `s` and `t`
/// are the same string.  A string not seen before gets the number of
/// strings interned before it as its index.
pub proof fn law_intern_ids_match(pool: Seq<Seq<char>>, s: Seq<char>, t: Seq<char>)
    requires
        all_distinct(pool),
    ensures
        ({
            let (p1, a) = interned(pool, s);
            let (p2, b) = interned(p1, t);
            &&& (a == b) <==> (s == t)
            &&& !pool.contains(s) ==> a == pool.len()
            &&& p2[a as int] == s
            &&& p2[b as int] == t
        }),
{
    law_intern_idempotent(pool, s);
    let (p1, a) = interned(pool, s);
    law_intern_idempotent(p1, t);
    let (p2, b) = interned(p1, t);
    if p1.contains(t) {
        assert(p2 == p1);
    } else {
        assert(p2 == p1.push(t));
        assert(p2[a as int] == p1[a as int]);
    }
    if s == t {
        assert(interned(p1, s) == interned(pool, s));
    }
}

/// The strings of a document only ever grow at the end: those after the
/// first `k` of `writes` are the first ones of those after all of them.
proof fn lemma_strings_grow(writes: Seq<Write>, k: int)
    requires
        0 <= k <= writes.len(),
    ensures
        ({
            let early = apply_writes(ExecutableContents::empty(), writes.take(k)).strings;
            let late = apply_writes(ExecutableContents::empty(), writes).strings;
            &&& early.len() <= late.len()
            &&& forall|j: int| 0 <= j < early.len() ==> #[trigger] late[j] == early[j]
        }),
    decreases writes.len(),
{
    if k == writes.len() {
        assert(writes.take(k) =~= writes);
    } else {
        let rest = writes.drop_last();
        assert(writes.take(k) =~= rest.take(k));
        lemma_strings_grow(rest, k);
    }
}

/// An identifier that interning hands out reads its string ever after: where
/// the write at `i` interns `s`, the index it gives holds `s` in the
/// document after all of `writes`, whatever was written later.
pub proof fn law_interned_id_reads_back(writes: Seq<Write>, i: int, s: Seq<char>)
    requires
        0 <= i < writes.len(),
        writes[i] == Write::Intern(s),
    ensures
        ({
            let before = apply_writes(ExecutableContents::empty(), writes.take(i));
            let id = interned(before.strings, s).1;
            let c = apply_writes(ExecutableContents::empty(), writes);
            &&& id < c.strings.len()
            &&& c.strings[id as int] == s
        }),
{
    let before = apply_writes(ExecutableContents::empty(), writes.take(i));
    let after = apply_writes(ExecutableContents::empty(), writes.take(i + 1));
    assert(writes.take(i + 1).drop_last() =~= writes.take(i));
    assert(after == apply_write(before, Write::Intern(s)));
    let (p1, id) = interned(before.strings, s);
    if before.strings.contains(s) {
        let c = choose|k: nat| k < before.strings.len() && before.strings[k as int] == s;
        assert(c < before.strings.len() && before.strings[c as int] == s);
    }
    assert(after.strings == p1);
    assert(id < p1.len() && p1[id as int] == s);
    lemma_strings_grow(writes, i + 1);
}

} // verus!

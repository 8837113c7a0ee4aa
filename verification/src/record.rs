//! Records: ordered maps from column name to escaped value, held in an
//! `IndexMap`.

use indexmap::IndexMap;
use vstd::prelude::*;

verus! {

/// `indexmap::IndexMap`, a map that keeps its entries in the order in which
/// their keys came. Nothing inside it is visible to proofs: what a map
/// holds is named by [`record_entries`] and, for the rules of a mapping, by
/// `mapping_entries`.
#[verifier::external_type_specification]
#[verifier::external_body]
#[verifier::reject_recursive_types(K)]
#[verifier::reject_recursive_types(V)]
#[verifier::reject_recursive_types(S)]
pub struct ExIndexMap<K, V, S>(IndexMap<K, V, S>);

/// One fully assembled output row: column names with their escaped values,
/// in output order.
pub type Record = IndexMap<String, String>;

/// The entries of a record as characters: name and value, in order.
pub type Entries = Seq<(Seq<char>, Seq<char>)>;

/// The entries that a record holds, in its order.
pub uninterp spec fn record_entries(record: IndexMap<String, String>) -> Seq<(Seq<char>, Seq<char>)>;

/// Whether some entry has the name `key`.
pub open spec fn has_key<V>(entries: Seq<(Seq<char>, V)>, key: Seq<char>) -> bool {
    exists|i: int| 0 <= i < entries.len() && (#[trigger] entries[i]).0 == key
}

/// Whether `i` is the first position at which `key` stands.
pub open spec fn is_first_position<V>(entries: Seq<(Seq<char>, V)>, key: Seq<char>, i: int) -> bool {
    &&& 0 <= i < entries.len()
    &&& entries[i].0 == key
    &&& forall|j: int| 0 <= j < i ==> (#[trigger] entries[j]).0 != key
}

/// The first position at which `key` stands, where it stands at all.
pub open spec fn key_position<V>(entries: Seq<(Seq<char>, V)>, key: Seq<char>) -> int {
    choose|i: int| is_first_position(entries, key, i)
}

/// Whether no name stands twice.
pub open spec fn distinct_keys<V>(entries: Seq<(Seq<char>, V)>) -> bool {
    forall|i: int, j: int|
        0 <= i < j < entries.len() ==> (#[trigger] entries[i]).0 != (#[trigger] entries[j]).0
}

/// The entries after `key` was set to `value`: an entry of that name keeps
/// its place and takes the value, a new name goes to the end.
pub open spec fn upsert(entries: Entries, key: Seq<char>, value: Seq<char>) -> Entries {
    if has_key(entries, key) {
        entries.update(key_position(entries, key), (key, value))
    } else {
        entries.push((key, value))
    }
}

/// The value under `key`, if the name stands in `entries`.
pub open spec fn value_of(entries: Entries, key: Seq<char>) -> Option<Seq<char>> {
    if has_key(entries, key) {
        Some(entries[key_position(entries, key)].1)
    } else {
        None
    }
}

/// Where a name stands at all, it stands at a first position.
pub proof fn lemma_first_position<V>(entries: Seq<(Seq<char>, V)>, key: Seq<char>)
    requires
        has_key(entries, key),
    ensures
        is_first_position(entries, key, key_position(entries, key)),
{
    let some = choose|i: int| 0 <= i < entries.len() && (#[trigger] entries[i]).0 == key;
    lemma_first_position_below(entries, key, some);
}

/// A name that stands at `at` has a first position, at `at` or before it.
proof fn lemma_first_position_below<V>(entries: Seq<(Seq<char>, V)>, key: Seq<char>, at: int)
    requires
        0 <= at < entries.len(),
        entries[at].0 == key,
    ensures
        exists|i: int| is_first_position(entries, key, i),
    decreases at,
{
    if exists|j: int| 0 <= j < at && (#[trigger] entries[j]).0 == key {
        let j = choose|j: int| 0 <= j < at && (#[trigger] entries[j]).0 == key;
        lemma_first_position_below(entries, key, j);
    } else {
        assert(is_first_position(entries, key, at));
    }
}

/// A first position is the position of its name.
pub proof fn lemma_position_unique<V>(entries: Seq<(Seq<char>, V)>, key: Seq<char>, i: int)
    requires
        is_first_position(entries, key, i),
    ensures
        has_key(entries, key),
        key_position(entries, key) == i,
{
    let p = key_position(entries, key);
    assert(is_first_position(entries, key, p));
    if p < i {
        assert(entries[p].0 != key);
    } else if i < p {
        assert(entries[i].0 != key);
    }
}

/// What setting a name does to the names that a record has and to their
/// values: the name is there with the new value, every other name is there
/// as before with the value it had, and no name comes to stand twice.
pub proof fn lemma_upsert(entries: Entries, key: Seq<char>, value: Seq<char>)
    ensures
        has_key(upsert(entries, key, value), key),
        value_of(upsert(entries, key, value), key) == Some(value),
        forall|name: Seq<char>|
            name != key ==> {
                &&& #[trigger] has_key(upsert(entries, key, value), name) == has_key(entries, name)
                &&& value_of(upsert(entries, key, value), name) == value_of(entries, name)
            },
        distinct_keys(entries) ==> distinct_keys(upsert(entries, key, value)),
        upsert(entries, key, value).len() == if has_key(entries, key) {
            entries.len()
        } else {
            entries.len() + 1
        },
{
    let after = upsert(entries, key, value);
    if has_key(entries, key) {
        lemma_first_position(entries, key);
        let at = key_position(entries, key);
        assert(after[at] == (key, value));
        assert forall|i: int| 0 <= i < entries.len() implies (#[trigger] after[i]).0
            == entries[i].0 by {}
        assert(is_first_position(after, key, at)) by {
            assert forall|j: int| 0 <= j < at implies (#[trigger] after[j]).0 != key by {
                assert(entries[j].0 != key);
            }
        }
        lemma_position_unique(after, key, at);
        assert forall|name: Seq<char>| name != key implies {
            &&& #[trigger] has_key(after, name) == has_key(entries, name)
            &&& value_of(after, name) == value_of(entries, name)
        } by {
            lemma_same_names(entries, after, name);
            if has_key(entries, name) {
                lemma_first_position(entries, name);
                let p = key_position(entries, name);
                assert(entries[p].0 == name);
                assert(p != at);
                assert(after[p] == entries[p]);
            }
        }
        if distinct_keys(entries) {
            assert forall|i: int, j: int| 0 <= i < j < after.len() implies (#[trigger] after[i]).0
                != (#[trigger] after[j]).0 by {
                assert(entries[i].0 != entries[j].0);
            }
        }
    } else {
        let at = entries.len() as int;
        assert(after[at] == (key, value));
        assert(is_first_position(after, key, at)) by {
            assert forall|j: int| 0 <= j < at implies (#[trigger] after[j]).0 != key by {
                assert(entries[j] == after[j]);
            }
        }
        lemma_position_unique(after, key, at);
        assert forall|name: Seq<char>| name != key implies {
            &&& #[trigger] has_key(after, name) == has_key(entries, name)
            &&& value_of(after, name) == value_of(entries, name)
        } by {
            if has_key(entries, name) {
                lemma_first_position(entries, name);
                let p = key_position(entries, name);
                assert(is_first_position(after, name, p)) by {
                    assert(after[p] == entries[p]);
                    assert forall|j: int| 0 <= j < p implies (#[trigger] after[j]).0 != name by {
                        assert(after[j] == entries[j]);
                    }
                }
                lemma_position_unique(after, name, p);
            } else if has_key(after, name) {
                let q = choose|q: int| 0 <= q < after.len() && (#[trigger] after[q]).0 == name;
                assert(q < at);
                assert(entries[q] == after[q]);
            }
        }
        if distinct_keys(entries) {
            assert forall|i: int, j: int| 0 <= i < j < after.len() implies (#[trigger] after[i]).0
                != (#[trigger] after[j]).0 by {
                if j < at {
                    assert(entries[i].0 != entries[j].0);
                } else {
                    assert(entries[i] == after[i]);
                }
            }
        }
    }
}

/// Two lists that hold the same names at the same positions have each
/// name at the same first position.
proof fn lemma_same_names(a: Entries, b: Entries, name: Seq<char>)
    requires
        a.len() == b.len(),
        forall|i: int| 0 <= i < a.len() ==> (#[trigger] b[i]).0 == a[i].0,
    ensures
        has_key(a, name) == has_key(b, name),
        has_key(a, name) ==> key_position(a, name) == key_position(b, name),
{
    if has_key(a, name) {
        lemma_first_position(a, name);
        let p = key_position(a, name);
        assert(is_first_position(b, name, p)) by {
            assert(b[p].0 == a[p].0);
            assert forall|j: int| 0 <= j < p implies (#[trigger] b[j]).0 != name by {
                assert(a[j].0 != name);
            }
        }
        lemma_position_unique(b, name, p);
    } else if has_key(b, name) {
        let q = choose|q: int| 0 <= q < b.len() && (#[trigger] b[q]).0 == name;
        assert(a[q].0 == name);
    }
}

/// An empty record.
///
/// Wraps `IndexMap::new`.
#[verifier::external_body]
pub(crate) fn empty_record() -> (record: Record)
    ensures
        record_entries(record) == Seq::<(Seq<char>, Seq<char>)>::empty(),
{
    IndexMap::new()
}

/// The number of entries.
///
/// Wraps `IndexMap::len`.
#[verifier::external_body]
pub(crate) fn record_len(record: &Record) -> (n: usize)
    ensures
        n == record_entries(*record).len(),
{
    record.len()
}

/// The entry at position `i`, if there is one.
///
/// Wraps `IndexMap::get_index`: positions below the length are taken, all
/// others are not.
#[verifier::external_body]
pub(crate) fn record_entry(record: &Record, i: usize) -> (entry: Option<(&String, &String)>)
    ensures
        match entry {
            Some(e) => {
                &&& i < record_entries(*record).len()
                &&& e.0@ == record_entries(*record)[i as int].0
                &&& e.1@ == record_entries(*record)[i as int].1
            },
            None => i >= record_entries(*record).len(),
        },
{
    record.get_index(i)
}

/// The position of `key`, if the record has that name.
///
/// Wraps `IndexMap::get_index_of`.
#[verifier::external_body]
pub(crate) fn record_position(record: &Record, key: &str) -> (found: Option<usize>)
    ensures
        match found {
            Some(i) => is_first_position(record_entries(*record), key@, i as int),
            None => !has_key(record_entries(*record), key@),
        },
{
    record.get_index_of(key)
}

/// Sets `key` to `value` and hands back the value that stood there.
///
/// Wraps `IndexMap::insert`: a name that the record has keeps its place and
/// takes the new value; a new name is added last.
#[verifier::external_body]
pub(crate) fn record_insert(record: &mut Record, key: String, value: String) -> (previous: Option<String>)
    ensures
        record_entries(*final(record)) == upsert(record_entries(*old(record)), key@, value@),
        match previous {
            Some(v) => value_of(record_entries(*old(record)), key@) == Some(v@),
            None => !has_key(record_entries(*old(record)), key@),
        },
{
    record.insert(key, value)
}

} // verus!

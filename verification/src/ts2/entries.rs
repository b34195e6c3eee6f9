//! The entries of a scope: an insertion-ordered map from a name to what
//! was declared under it.
use vstd::prelude::*;
use indexmap::IndexMap;
use crate::ts2::symbols::TableEntry;

verus! {

#[verifier::external_type_specification]
#[verifier::external_body]
#[verifier::reject_recursive_types(K)]
#[verifier::reject_recursive_types(V)]
#[verifier::reject_recursive_types(S)]
pub struct ExIndexMap<K, V, S>(IndexMap<K, V, S>);

/// The names and entries of a map, in the map's order.
pub uninterp spec fn entries_of(map: IndexMap<String, TableEntry>) -> Seq<(Seq<char>, TableEntry)>;

/// The position of the first entry named `key`.
pub open spec fn key_index(entries: Seq<(Seq<char>, TableEntry)>, key: Seq<char>) -> Option<int>
    decreases entries.len(),
{
    if entries.len() == 0 {
        None
    } else if entries.last().0 == key && key_index(entries.drop_last(), key) is None {
        Some(entries.len() - 1)
    } else {
        key_index(entries.drop_last(), key)
    }
}

/// The entry named `key`.
pub open spec fn entry_named(entries: Seq<(Seq<char>, TableEntry)>, key: Seq<char>) -> Option<TableEntry> {
    match key_index(entries, key) {
        Some(i) => Some(entries[i].1),
        None => None,
    }
}

/// `entries` with `value` stored under `key`: in place where the name is
/// present, last where it is not.
pub open spec fn entries_inserted(
    entries: Seq<(Seq<char>, TableEntry)>,
    key: Seq<char>,
    value: TableEntry,
) -> Seq<(Seq<char>, TableEntry)> {
    match key_index(entries, key) {
        Some(i) => entries.update(i, (key, value)),
        None => entries.push((key, value)),
    }
}

/// No two entries share a name.
pub open spec fn keys_unique(entries: Seq<(Seq<char>, TableEntry)>) -> bool {
    forall|i: int, j: int| 0 <= i < j < entries.len() ==> entries[i].0 != entries[j].0
}

/// Two entry lists with the same names at the same positions.
pub open spec fn same_keys(a: Seq<(Seq<char>, TableEntry)>, b: Seq<(Seq<char>, TableEntry)>) -> bool {
    &&& a.len() == b.len()
    &&& forall|j: int| 0 <= j < a.len() ==> (#[trigger] a[j]).0 == b[j].0
}

pub proof fn lemma_key_index(entries: Seq<(Seq<char>, TableEntry)>, key: Seq<char>)
    ensures
        match key_index(entries, key) {
            Some(i) => 0 <= i < entries.len() && entries[i].0 == key
                && forall|j: int| 0 <= j < i ==> (#[trigger] entries[j]).0 != key,
            None => forall|j: int| 0 <= j < entries.len() ==> (#[trigger] entries[j]).0 != key,
        },
    decreases entries.len(),
{
    if entries.len() > 0 {
        let rest = entries.drop_last();
        lemma_key_index(rest, key);
        assert forall|j: int| 0 <= j < rest.len() implies rest[j] == entries[j] by {}
    }
}

/// In a list without repeated names, each entry is found by its own name.
pub proof fn lemma_key_index_unique(entries: Seq<(Seq<char>, TableEntry)>, i: int)
    requires
        keys_unique(entries),
        0 <= i < entries.len(),
    ensures
        key_index(entries, entries[i].0) == Some(i),
{
    lemma_key_index(entries, entries[i].0);
}

/// Where a name sits depends on the names alone.
pub proof fn lemma_key_index_same_keys(
    a: Seq<(Seq<char>, TableEntry)>,
    b: Seq<(Seq<char>, TableEntry)>,
    key: Seq<char>,
)
    requires
        same_keys(a, b),
    ensures
        key_index(a, key) == key_index(b, key),
    decreases a.len(),
{
    if a.len() > 0 {
        assert(a.last().0 == b.last().0);
        assert forall|j: int| 0 <= j < a.len() - 1 implies (#[trigger] a.drop_last()[j]).0 == b.drop_last()[j].0 by {
            assert(a[j].0 == b[j].0);
        }
        lemma_key_index_same_keys(a.drop_last(), b.drop_last(), key);
    }
}

/// Storing under a name keeps the names distinct, finds the new entry by
/// that name, and finds every other name as before.
pub proof fn lemma_inserted(
    entries: Seq<(Seq<char>, TableEntry)>,
    key: Seq<char>,
    value: TableEntry,
)
    requires
        keys_unique(entries),
    ensures
        keys_unique(entries_inserted(entries, key, value)),
        entry_named(entries_inserted(entries, key, value), key) == Some(value),
        forall|other: Seq<char>|
            other != key ==> #[trigger] entry_named(entries_inserted(entries, key, value), other)
                == entry_named(entries, other),
{
    let after = entries_inserted(entries, key, value);
    lemma_key_index(entries, key);
    lemma_key_index(after, key);
    match key_index(entries, key) {
        Some(i) => {
            assert forall|j: int| 0 <= j < entries.len() implies (#[trigger] after[j]).0 == entries[j].0 by {}
            lemma_key_index_same_keys(entries, after, key);
        },
        None => {
            if let Some(k) = key_index(after, key) {
                if k < entries.len() {
                    assert(after[k] == entries[k]);
                }
            }
        },
    }
    assert forall|other: Seq<char>| other != key implies #[trigger] entry_named(after, other)
        == entry_named(entries, other) by {
        lemma_key_index(entries, other);
        lemma_key_index(after, other);
        match key_index(entries, key) {
            Some(i) => {
                assert forall|j: int| 0 <= j < entries.len() implies (#[trigger] after[j]).0 == entries[j].0 by {}
                lemma_key_index_same_keys(entries, after, other);
            },
            None => {
                match key_index(entries, other) {
                    Some(i) => {
                        assert(after[i] == entries[i]);
                        if let Some(k) = key_index(after, other) {
                            assert(k <= i);
                            assert(after[k] == entries[k]);
                        }
                    },
                    None => {
                        assert(after.last().0 == key);
                    },
                }
            },
        }
    }
}

/// An empty map, from `IndexMap::new`.
#[verifier::external_body]
pub(crate) fn new_entries() -> (r: IndexMap<String, TableEntry>)
    ensures
        entries_of(r) == Seq::<(Seq<char>, TableEntry)>::empty(),
{
    IndexMap::new()
}

/// The entry stored under `key`, from `IndexMap::get`.
#[verifier::external_body]
pub(crate) fn entry_get<'a>(map: &'a IndexMap<String, TableEntry>, key: &str) -> (r: Option<&'a TableEntry>)
    ensures
        match r {
            Some(e) => entry_named(entries_of(*map), key@) == Some(*e),
            None => entry_named(entries_of(*map), key@) is None,
        },
{
    map.get(key)
}

/// A mutable reference to the entry stored under `key`, from
/// `IndexMap::get_mut`; what is written through it lands in that entry.
#[verifier::external_body]
pub(crate) fn entry_get_mut<'a>(map: &'a mut IndexMap<String, TableEntry>, key: &str) -> (r: Option<&'a mut TableEntry>)
    ensures
        match r {
            Some(e) => match key_index(entries_of(*old(map)), key@) {
                Some(i) => *e == entries_of(*old(map))[i].1
                    && entries_of(*final(map)) == entries_of(*old(map)).update(i, (entries_of(*old(map))[i].0, *final(e))),
                None => false,
            },
            None => key_index(entries_of(*old(map)), key@) is None && *final(map) == *old(map),
        },
{
    map.get_mut(key)
}

/// Stores `value` under `key`, from `IndexMap::insert`.
#[verifier::external_body]
pub(crate) fn entry_insert(map: &mut IndexMap<String, TableEntry>, key: String, value: TableEntry)
    ensures
        entries_of(*final(map)) == entries_inserted(entries_of(*old(map)), key@, value),
{
    map.insert(key, value);
}

/// The names of the entries, in order, from `IndexMap::keys`.
#[verifier::external_body]
pub(crate) fn entry_names(map: &IndexMap<String, TableEntry>) -> (r: Vec<String>)
    ensures
        r@.len() == entries_of(*map).len(),
        forall|i: int| 0 <= i < r@.len() ==> (#[trigger] r@[i])@ == entries_of(*map)[i].0,
{
    map.keys().cloned().collect()
}

/// The entries, in order, from `IndexMap::values`.
#[verifier::external_body]
pub(crate) fn entry_values<'a>(map: &'a IndexMap<String, TableEntry>) -> (r: Vec<&'a TableEntry>)
    ensures
        r@.len() == entries_of(*map).len(),
        forall|i: int| 0 <= i < r@.len() ==> *(#[trigger] r@[i]) == entries_of(*map)[i].1,
{
    map.values().collect()
}

} // verus!

//! The entries of a JSON object as a sequence of keys and values: finding a
//! key, and storing a value under one.

use crate::json::Json;
use vstd::prelude::*;

verus! {

/// The keys of a sequence of entries, in order.
pub open spec fn entry_keys(entries: Seq<(Seq<char>, Json)>) -> Seq<Seq<char>> {
    entries.map_values(|e: (Seq<char>, Json)| e.0)
}

/// The position of the entry with the given key, if there is one. The keys
/// of an object are distinct; in a sequence that repeats a key this is the
/// last position that holds it.
pub open spec fn key_index(entries: Seq<(Seq<char>, Json)>, key: Seq<char>) -> Option<int>
    decreases entries.len(),
{
    if entries.len() == 0 {
        None
    } else if entries.last().0 == key {
        Some(entries.len() - 1)
    } else {
        key_index(entries.drop_last(), key)
    }
}

/// The value stored under a key, if any.
pub open spec fn lookup(entries: Seq<(Seq<char>, Json)>, key: Seq<char>) -> Option<Json> {
    match key_index(entries, key) {
        Some(i) => Some(entries[i].1),
        None => None,
    }
}

/// The entries after storing `value` under `key`: an entry that already has
/// the key keeps its place and takes the new value, a new key is added at
/// the end.
pub open spec fn with_entry(entries: Seq<(Seq<char>, Json)>, key: Seq<char>, value: Json) -> Seq<(Seq<char>, Json)> {
    match key_index(entries, key) {
        Some(i) => entries.update(i, (key, value)),
        None => entries.push((key, value)),
    }
}

/// What `key_index` finds holds the key, and is the last position that
/// does; it finds nothing only where no entry holds the key.
pub proof fn lemma_key_index(entries: Seq<(Seq<char>, Json)>, key: Seq<char>)
    ensures
        match key_index(entries, key) {
            Some(i) => 0 <= i < entries.len() && entries[i].0 == key && forall|j: int|
                i < j < entries.len() ==> (#[trigger] entries[j]).0 != key,
            None => forall|j: int| 0 <= j < entries.len() ==> (#[trigger] entries[j]).0 != key,
        },
    decreases entries.len(),
{
    if entries.len() > 0 && entries.last().0 != key {
        lemma_key_index(entries.drop_last(), key);
        match key_index(entries.drop_last(), key) {
            Some(i) => {
                assert forall|j: int| i < j < entries.len() implies (#[trigger] entries[j]).0 != key by {
                    if j < entries.len() - 1 {
                        assert(entries.drop_last()[j] == entries[j]);
                    }
                }
            },
            None => {
                assert forall|j: int| 0 <= j < entries.len() implies (#[trigger] entries[j]).0 != key by {
                    if j < entries.len() - 1 {
                        assert(entries.drop_last()[j] == entries[j]);
                    }
                }
            },
        }
    }
}

/// Where no key occurs twice, each key is found at its own position.
pub proof fn lemma_key_index_distinct(entries: Seq<(Seq<char>, Json)>, i: int)
    requires
        entry_keys(entries).no_duplicates(),
        0 <= i < entries.len(),
    ensures
        key_index(entries, entries[i].0) == Some(i),
        lookup(entries, entries[i].0) == Some(entries[i].1),
{
    lemma_key_index(entries, entries[i].0);
    let found = key_index(entries, entries[i].0)->0;
    assert(entry_keys(entries)[i] == entries[i].0);
    assert(entry_keys(entries)[found] == entries[found].0);
}

/// A key that no entry holds is stored at the end.
pub proof fn lemma_with_new_entry(entries: Seq<(Seq<char>, Json)>, key: Seq<char>, value: Json)
    requires
        forall|j: int| 0 <= j < entries.len() ==> (#[trigger] entries[j]).0 != key,
    ensures
        with_entry(entries, key, value) == entries.push((key, value)),
{
    lemma_key_index(entries, key);
}

} // verus!

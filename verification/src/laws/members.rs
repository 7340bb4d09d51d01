//! An object as a mapping: what storing a member does to its members.

use vstd::prelude::*;
use crate::value::{insert_entry, key_index, well_formed, JsonView};

verus! {

/// Where `key_index` stops: at a member with the key, behind members
/// without it.
pub proof fn lemma_key_index(entries: Seq<(Seq<char>, JsonView)>, key: Seq<char>, from: int)
    requires
        0 <= from <= entries.len(),
    ensures
        from <= key_index(entries, key, from) <= entries.len(),
        forall|i: int| from <= i < key_index(entries, key, from) ==> entries[i].0 != key,
        key_index(entries, key, from) < entries.len() ==> entries[key_index(entries, key, from)].0
            == key,
    decreases entries.len() - from,
{
    if from < entries.len() && entries[from].0 != key {
        lemma_key_index(entries, key, from + 1);
    }
}

/// Storing a member keeps an object well formed: its keys stay distinct.
pub proof fn lemma_insert_entry(
    entries: Seq<(Seq<char>, JsonView)>,
    key: Seq<char>,
    value: JsonView,
)
    requires
        well_formed(JsonView::Object(entries)),
        well_formed(value),
    ensures
        well_formed(JsonView::Object(insert_entry(entries, key, value))),
{
    lemma_key_index(entries, key, 0);
    let at = key_index(entries, key, 0);
    let after = insert_entry(entries, key, value);
    assert forall|i: int, j: int| 0 <= i < j < after.len() implies (#[trigger] after[i]).0 != (
    #[trigger] after[j]).0 by {
        if j < entries.len() {
            assert(entries[i].0 != entries[j].0);
        }
    }
    assert forall|i: int| 0 <= i < after.len() implies well_formed((#[trigger] after[i]).1) by {
        if i != at {
            assert(well_formed(entries[i].1));
        }
    }
}

/// The value of the first member with the key `key`, if there is one.
pub open spec fn member(entries: Seq<(Seq<char>, JsonView)>, key: Seq<char>) -> Option<JsonView> {
    if key_index(entries, key, 0) < entries.len() {
        Some(entries[key_index(entries, key, 0)].1)
    } else {
        None
    }
}

/// An object is a mapping: a member that was stored is found under its
/// key, and the members under every other key are what they were. Storing
/// under a key that is there adds no member and moves none.
pub proof fn lemma_insert_then_find(
    entries: Seq<(Seq<char>, JsonView)>,
    key: Seq<char>,
    value: JsonView,
    other: Seq<char>,
)
    ensures
        member(insert_entry(entries, key, value), key) == Some(value),
        other != key ==> member(insert_entry(entries, key, value), other) == member(
            entries,
            other,
        ),
        member(entries, key) is Some ==> insert_entry(entries, key, value).len() == entries.len(),
        member(entries, key) is None ==> insert_entry(entries, key, value) == entries.push(
            (key, value),
        ),
{
    let after = insert_entry(entries, key, value);
    lemma_key_index(entries, key, 0);
    lemma_key_index(entries, other, 0);
    lemma_key_index(after, key, 0);
    lemma_key_index(after, other, 0);
    let at = key_index(entries, key, 0);
    assert(after[at].0 == key);
    let found = key_index(after, key, 0);
    if found < at {
        assert(after[found].0 == entries[found].0);
    }
    if other != key {
        let before = key_index(entries, other, 0);
        let then = key_index(after, other, 0);
        if before < entries.len() {
            assert(after[before].0 == other);
        }
        if then < before && then < entries.len() {
            assert(after[then].0 == entries[then].0);
        }
    }
}

} // verus!

//! The tree of values.

use vstd::prelude::*;
use crate::number::is_number;

verus! {

/// A value: a scalar, or a container that owns its members.
///
/// A number is held as its decimal text (see the module `number`), a string
/// as its raw characters. The members of an object keep the order in which
/// their keys were first inserted.
#[derive(Debug, PartialEq, Eq)]
pub enum Json {
    Null,
    Bool(bool),
    Number(String),
    String(String),
    Array(Vec<Box<Json>>),
    Object(Vec<(String, Box<Json>)>),
}

/// A `Json` over mathematical sequences.
pub enum JsonView {
    Null,
    Bool(bool),
    Number(Seq<char>),
    String(Seq<char>),
    Array(Seq<JsonView>),
    Object(Seq<(Seq<char>, JsonView)>),
}

/// The value that `json` holds, over mathematical sequences.
pub open spec fn json_view(json: Json) -> JsonView
    decreases json,
{
    match json {
        Json::Null => JsonView::Null,
        Json::Bool(b) => JsonView::Bool(b),
        Json::Number(text) => JsonView::Number(text@),
        Json::String(text) => JsonView::String(text@),
        Json::Array(items) => JsonView::Array(
            Seq::new(
                items@.len(),
                |i: int|
                    if 0 <= i < items@.len() {
                        json_view(*items@[i])
                    } else {
                        JsonView::Null
                    },
            ),
        ),
        Json::Object(entries) => JsonView::Object(
            Seq::new(
                entries@.len(),
                |i: int|
                    if 0 <= i < entries@.len() {
                        (entries@[i].0@, json_view(*entries@[i].1))
                    } else {
                        (Seq::empty(), JsonView::Null)
                    },
            ),
        ),
    }
}

impl View for Json {
    type V = JsonView;

    open spec fn view(&self) -> JsonView {
        json_view(*self)
    }
}

/// The views of the members of an array.
pub open spec fn items_view(items: Seq<Box<Json>>) -> Seq<JsonView> {
    Seq::new(items.len(), |i: int| items[i]@)
}

/// The views of the members of an object, each with its key.
pub open spec fn entries_view(entries: Seq<(String, Box<Json>)>) -> Seq<(Seq<char>, JsonView)> {
    Seq::new(entries.len(), |i: int| (entries[i].0@, entries[i].1@))
}

/// The view of an array is the array of the views of its members.
pub proof fn lemma_array_view(items: Vec<Box<Json>>)
    ensures
        Json::Array(items)@ == JsonView::Array(items_view(items@)),
{
    assert(Json::Array(items)@->Array_0 =~= items_view(items@));
}

/// The view of an object is the object of the views of its members.
pub proof fn lemma_object_view(entries: Vec<(String, Box<Json>)>)
    ensures
        Json::Object(entries)@ == JsonView::Object(entries_view(entries@)),
{
    assert(Json::Object(entries)@->Object_0 =~= entries_view(entries@));
}

/// The index of the first member at or after `from` whose key is `key`, or
/// the number of members where there is none.
pub open spec fn key_index(
    entries: Seq<(Seq<char>, JsonView)>,
    key: Seq<char>,
    from: int,
) -> int
    decreases entries.len() - from,
{
    if 0 <= from < entries.len() && entries[from].0 != key {
        key_index(entries, key, from + 1)
    } else {
        from
    }
}

/// The members of an object after `value` is stored under `key`: where a
/// member has that key its value is replaced, else the new member comes last.
pub open spec fn insert_entry(
    entries: Seq<(Seq<char>, JsonView)>,
    key: Seq<char>,
    value: JsonView,
) -> Seq<(Seq<char>, JsonView)> {
    let at = key_index(entries, key, 0);
    if at < entries.len() {
        entries.update(at, (key, value))
    } else {
        entries.push((key, value))
    }
}

/// No two members have the same key.
pub open spec fn distinct_keys(entries: Seq<(Seq<char>, JsonView)>) -> bool {
    forall|i: int, j: int|
        0 <= i < j < entries.len() ==> (#[trigger] entries[i]).0 != (#[trigger] entries[j]).0
}

/// Every number in the tree is a number literal, and no object in it has
/// two members with the same key.
pub open spec fn well_formed(value: JsonView) -> bool
    decreases value,
{
    match value {
        JsonView::Number(text) => is_number(text),
        JsonView::Array(items) => forall|i: int|
            0 <= i < items.len() ==> well_formed(#[trigger] items[i]),
        JsonView::Object(entries) => {
            &&& distinct_keys(entries)
            &&& forall|i: int| 0 <= i < entries.len() ==> well_formed((#[trigger] entries[i]).1)
        },
        _ => true,
    }
}

/// Moves a value out of its box.
pub fn unbox<T>(value: Box<T>) -> (inner: T)
    ensures
        inner == *value,
{
    *value
}

/// Stores `value` under `key` among the members of an object.
pub fn insert_member(entries: &mut Vec<(String, Box<Json>)>, key: String, value: Json)
    ensures
        entries_view(final(entries)@) == insert_entry(entries_view(old(entries)@), key@, value@),
{
    let ghost before = entries_view(entries@);
    let mut at: usize = 0;
    while at < entries.len() && entries[at].0 != key
        invariant
            at <= entries.len(),
            before == entries_view(entries@),
            key_index(before, key@, 0) == key_index(before, key@, at as int),
        decreases entries.len() - at,
    {
        at = at + 1;
    }
    if at < entries.len() {
        entries.set(at, (key, Box::new(value)));
    } else {
        entries.push((key, Box::new(value)));
    }
}

impl Clone for Json {
    /// A copy of the whole tree.
    fn clone(&self) -> (copy: Json)
        ensures
            copy@ == self@,
        decreases self,
    {
        match self {
            Json::Null => Json::Null,
            Json::Bool(b) => Json::Bool(*b),
            Json::Number(text) => Json::Number(text.clone()),
            Json::String(text) => Json::String(text.clone()),
            Json::Array(items) => {
                let mut copies: Vec<Box<Json>> = Vec::new();
                let mut i: usize = 0;
                while i < items.len()
                    invariant
                        i <= items.len(),
                        copies@.len() == i,
                        *self == Json::Array(*items),
                        forall|j: int| 0 <= j < i ==> copies@[j]@ == items@[j]@,
                    decreases items.len() - i,
                {
                    assert(self->Array_0 == *items);
                    let copy = (&*items[i]).clone();
                    copies.push(Box::new(copy));
                    i = i + 1;
                }
                proof {
                    lemma_array_view(copies);
                    lemma_array_view(*items);
                    assert(items_view(copies@) =~= items_view(items@));
                }
                Json::Array(copies)
            },
            Json::Object(entries) => {
                let mut copies: Vec<(String, Box<Json>)> = Vec::new();
                let mut i: usize = 0;
                while i < entries.len()
                    invariant
                        i <= entries.len(),
                        copies@.len() == i,
                        *self == Json::Object(*entries),
                        forall|j: int|
                            0 <= j < i ==> copies@[j].0@ == entries@[j].0@ && copies@[j].1@
                                == entries@[j].1@,
                    decreases entries.len() - i,
                {
                    assert(self->Object_0 == *entries);
                    let key = entries[i].0.clone();
                    let copy = (&*entries[i].1).clone();
                    copies.push((key, Box::new(copy)));
                    i = i + 1;
                }
                proof {
                    lemma_object_view(copies);
                    lemma_object_view(*entries);
                    assert(entries_view(copies@) =~= entries_view(entries@));
                }
                Json::Object(copies)
            },
        }
    }
}

} // verus!

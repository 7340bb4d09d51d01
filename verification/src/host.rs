//! The bridge to the host: a model of the Python objects that can be
//! encoded or that a decoded value becomes, and the conversions between
//! that model and the tree of values.
//!
//! The model holds what the conversions read of an object and nothing else.
//! A number crosses the bridge as decimal text, in both directions.

use vstd::prelude::*;
use crate::decoder::{decode, string_to_json};
use crate::encoder::{json_to_string, render};
use crate::error::{Failure, JsonError};
use crate::number::{is_number, is_number_text};
use crate::text::{chars_of, spells};
use crate::value::{entries_view, insert_entry, insert_member, items_view, lemma_array_view, lemma_object_view, unbox, Json, JsonView};

verus! {

/// The seven types of Python objects that can be encoded.
#[derive(Clone, Copy, Debug, PartialEq, Eq, Structural)]
pub enum Shape {
    Dict,
    List,
    Str,
    Bool,
    Int,
    Float,
    NoneType,
}

/// The shape that goes by the type name `name`, if any. An object has a
/// shape only by the exact name of its own type: an object of a subclass
/// of `dict` has none.
pub open spec fn shape_named(name: Seq<char>) -> Option<Shape> {
    if name == "dict"@ {
        Some(Shape::Dict)
    } else if name == "list"@ {
        Some(Shape::List)
    } else if name == "str"@ {
        Some(Shape::Str)
    } else if name == "bool"@ {
        Some(Shape::Bool)
    } else if name == "int"@ {
        Some(Shape::Int)
    } else if name == "float"@ {
        Some(Shape::Float)
    } else if name == "NoneType"@ {
        Some(Shape::NoneType)
    } else {
        None
    }
}

/// The shape of an object whose type is named `name`, if it has one.
pub fn shape_of(name: &str) -> (shape: Option<Shape>)
    ensures
        shape == shape_named(name@),
{
    let letters = chars_of(name);
    assert(letters@.skip(0) =~= name@);
    if spells(&letters, 0, "dict") {
        Some(Shape::Dict)
    } else if spells(&letters, 0, "list") {
        Some(Shape::List)
    } else if spells(&letters, 0, "str") {
        Some(Shape::Str)
    } else if spells(&letters, 0, "bool") {
        Some(Shape::Bool)
    } else if spells(&letters, 0, "int") {
        Some(Shape::Int)
    } else if spells(&letters, 0, "float") {
        Some(Shape::Float)
    } else if spells(&letters, 0, "NoneType") {
        Some(Shape::NoneType)
    } else {
        None
    }
}

/// A Python object, as far as the conversions read it.
#[derive(Debug, PartialEq, Eq)]
pub enum PyValue {
    /// `None`.
    NoneType,
    Bool(bool),
    /// An `int`, as the decimal text of the floating-point number nearest
    /// to it.
    Int(String),
    /// A `float`, as its decimal text.
    Float(String),
    Str(String),
    /// A `list`: its members in order.
    List(Vec<PyValue>),
    /// A `dict`: its items in order, each key as the text of the key object.
    Dict(Vec<(String, PyValue)>),
    /// An object of any other type, with the name of its type.
    Other(String),
}

/// A `PyValue` over mathematical sequences.
pub enum PyValueView {
    NoneType,
    Bool(bool),
    Int(Seq<char>),
    Float(Seq<char>),
    Str(Seq<char>),
    List(Seq<PyValueView>),
    Dict(Seq<(Seq<char>, PyValueView)>),
    Other(Seq<char>),
}

/// The object that `value` describes, over mathematical sequences.
pub open spec fn py_view(value: PyValue) -> PyValueView
    decreases value,
{
    match value {
        PyValue::NoneType => PyValueView::NoneType,
        PyValue::Bool(b) => PyValueView::Bool(b),
        PyValue::Int(number) => PyValueView::Int(number@),
        PyValue::Float(number) => PyValueView::Float(number@),
        PyValue::Str(text) => PyValueView::Str(text@),
        PyValue::List(members) => PyValueView::List(
            Seq::new(
                members@.len(),
                |i: int|
                    if 0 <= i < members@.len() {
                        py_view(members@[i])
                    } else {
                        PyValueView::NoneType
                    },
            ),
        ),
        PyValue::Dict(items) => PyValueView::Dict(
            Seq::new(
                items@.len(),
                |i: int|
                    if 0 <= i < items@.len() {
                        (items@[i].0@, py_view(items@[i].1))
                    } else {
                        (Seq::empty(), PyValueView::NoneType)
                    },
            ),
        ),
        PyValue::Other(name) => PyValueView::Other(name@),
    }
}

impl View for PyValue {
    type V = PyValueView;

    open spec fn view(&self) -> PyValueView {
        py_view(*self)
    }
}

/// The views of the members of a list.
pub open spec fn members_view(members: Seq<PyValue>) -> Seq<PyValueView> {
    Seq::new(members.len(), |i: int| members[i]@)
}

/// The views of the items of a dict, each with its key.
pub open spec fn pairs_view(items: Seq<(String, PyValue)>) -> Seq<(Seq<char>, PyValueView)> {
    Seq::new(items.len(), |i: int| (items[i].0@, items[i].1@))
}

/// The view of a list is the list of the views of its members.
pub proof fn lemma_list_view(members: Vec<PyValue>)
    ensures
        PyValue::List(members)@ == PyValueView::List(members_view(members@)),
{
    assert(PyValue::List(members)@->List_0 =~= members_view(members@));
}

/// The view of a dict is the dict of the views of its items.
pub proof fn lemma_dict_view(items: Vec<(String, PyValue)>)
    ensures
        PyValue::Dict(items)@ == PyValueView::Dict(pairs_view(items@)),
{
    assert(PyValue::Dict(items)@->Dict_0 =~= pairs_view(items@));
}

/// The value that a host object is encoded from. An `int` and a `float`
/// both become a number. The items of a dict are stored one after the
/// other, so that of two items with the same key text the later one stays.
/// An object of another type fails the whole conversion, and where there
/// are several the first one met, members in order and depth first, is the
/// one named.
pub open spec fn to_json(object: PyValueView) -> Result<JsonView, Failure>
    decreases object, 0nat,
{
    match object {
        PyValueView::NoneType => Ok(JsonView::Null),
        PyValueView::Bool(b) => Ok(JsonView::Bool(b)),
        PyValueView::Int(number) => Ok(JsonView::Number(number)),
        PyValueView::Float(number) => Ok(JsonView::Number(number)),
        PyValueView::Str(text) => Ok(JsonView::String(text)),
        PyValueView::List(members) => match to_json_members(members, members.len() as int) {
            Ok(items) => Ok(JsonView::Array(items)),
            Err(failure) => Err(failure),
        },
        PyValueView::Dict(items) => match to_json_items(items, items.len() as int) {
            Ok(entries) => Ok(JsonView::Object(entries)),
            Err(failure) => Err(failure),
        },
        PyValueView::Other(name) => Err(Failure::UnsupportedHostShape(name)),
    }
}

/// The values of the first `count` members of a list.
pub open spec fn to_json_members(members: Seq<PyValueView>, count: int) -> Result<
    Seq<JsonView>,
    Failure,
>
    decreases members, count,
{
    if 0 < count <= members.len() {
        match to_json_members(members, count - 1) {
            Err(failure) => Err(failure),
            Ok(items) => match to_json(members[count - 1]) {
                Err(failure) => Err(failure),
                Ok(item) => Ok(items.push(item)),
            },
        }
    } else {
        Ok(Seq::empty())
    }
}

/// The members of the object that the first `count` items of a dict make.
pub open spec fn to_json_items(items: Seq<(Seq<char>, PyValueView)>, count: int) -> Result<
    Seq<(Seq<char>, JsonView)>,
    Failure,
>
    decreases items, count,
{
    if 0 < count <= items.len() {
        match to_json_items(items, count - 1) {
            Err(failure) => Err(failure),
            Ok(entries) => match to_json(items[count - 1].1) {
                Err(failure) => Err(failure),
                Ok(value) => Ok(insert_entry(entries, items[count - 1].0, value)),
            },
        }
    } else {
        Ok(Seq::empty())
    }
}

/// Converts a host object into the value that it is encoded from: see
/// `to_json`.
pub fn python_to_json(obj: PyValue) -> (result: Result<Json, JsonError>)
    ensures
        match to_json(obj@) {
            Ok(value) => result matches Ok(json) && json@ == value,
            Err(failure) => result matches Err(error) && error@ == failure,
        },
    decreases obj,
{
    match obj {
        PyValue::NoneType => Ok(Json::Null),
        PyValue::Bool(b) => Ok(Json::Bool(b)),
        PyValue::Int(number) => Ok(Json::Number(number)),
        PyValue::Float(number) => Ok(Json::Number(number)),
        PyValue::Str(text) => Ok(Json::String(text)),
        PyValue::List(list) => {
            let ghost whole = list;
            let ghost members = members_view(whole@);
            proof {
                lemma_list_view(whole);
            }
            let mut items: Vec<Box<Json>> = Vec::new();
            assert(items_view(items@) =~= Seq::empty());
            for member in it: list.into_iter()
                invariant
                    it.seq() == whole@,
                    obj == PyValue::List(whole),
                    members == members_view(whole@),
                    to_json_members(members, it.index()) == Ok::<Seq<JsonView>, Failure>(
                        items_view(items@),
                    ),
            {
                let ghost before = items_view(items@);
                match python_to_json(member) {
                    Err(error) => {
                        proof {
                            lemma_list_view(whole);
                            lemma_members_failure(members, it.index() + 1);
                        }
                        return Err(error);
                    },
                    Ok(item) => {
                        items.push(Box::new(item));
                        assert(items_view(items@) =~= before.push(item@));
                    },
                }
            }
            proof {
                lemma_array_view(items);
            }
            Ok(Json::Array(items))
        },
        PyValue::Dict(dict) => {
            let ghost whole = dict;
            let ghost pairs = pairs_view(whole@);
            proof {
                lemma_dict_view(whole);
            }
            let mut entries: Vec<(String, Box<Json>)> = Vec::new();
            assert(entries_view(entries@) =~= Seq::empty());
            for item in it: dict.into_iter()
                invariant
                    it.seq() == whole@,
                    obj == PyValue::Dict(whole),
                    pairs == pairs_view(whole@),
                    to_json_items(pairs, it.index()) == Ok::<Seq<(Seq<char>, JsonView)>, Failure>(
                        entries_view(entries@),
                    ),
            {
                let (key, member) = item;
                match python_to_json(member) {
                    Err(error) => {
                        proof {
                            lemma_dict_view(whole);
                            lemma_items_failure(pairs, it.index() + 1);
                        }
                        return Err(error);
                    },
                    Ok(value) => {
                        insert_member(&mut entries, key, value);
                    },
                }
            }
            proof {
                lemma_object_view(entries);
            }
            Ok(Json::Object(entries))
        },
        PyValue::Other(name) => Err(JsonError::UnsupportedHostShape(name)),
    }
}

/// The host object that a value becomes. A number becomes a `float`,
/// whatever its text looks like, and a value that holds a number whose text
/// is no number literal has no counterpart: the first such number, members
/// in order and depth first, fails the conversion. An object becomes a dict
/// of its members in order.
pub open spec fn to_python(value: JsonView) -> Result<PyValueView, Failure>
    decreases value, 0nat,
{
    match value {
        JsonView::Null => Ok(PyValueView::NoneType),
        JsonView::Bool(b) => Ok(PyValueView::Bool(b)),
        JsonView::Number(number) => if is_number(number) {
            Ok(PyValueView::Float(number))
        } else {
            Err(Failure::HostConversionFailure(number))
        },
        JsonView::String(text) => Ok(PyValueView::Str(text)),
        JsonView::Array(items) => match to_python_members(items, items.len() as int) {
            Ok(members) => Ok(PyValueView::List(members)),
            Err(failure) => Err(failure),
        },
        JsonView::Object(entries) => match to_python_items(entries, entries.len() as int) {
            Ok(items) => Ok(PyValueView::Dict(items)),
            Err(failure) => Err(failure),
        },
    }
}

/// The host objects of the first `count` members of an array.
pub open spec fn to_python_members(items: Seq<JsonView>, count: int) -> Result<
    Seq<PyValueView>,
    Failure,
>
    decreases items, count,
{
    if 0 < count <= items.len() {
        match to_python_members(items, count - 1) {
            Err(failure) => Err(failure),
            Ok(members) => match to_python(items[count - 1]) {
                Err(failure) => Err(failure),
                Ok(member) => Ok(members.push(member)),
            },
        }
    } else {
        Ok(Seq::empty())
    }
}

/// The items of the dict that the first `count` members of an object make.
pub open spec fn to_python_items(entries: Seq<(Seq<char>, JsonView)>, count: int) -> Result<
    Seq<(Seq<char>, PyValueView)>,
    Failure,
>
    decreases entries, count,
{
    if 0 < count <= entries.len() {
        match to_python_items(entries, count - 1) {
            Err(failure) => Err(failure),
            Ok(items) => match to_python(entries[count - 1].1) {
                Err(failure) => Err(failure),
                Ok(member) => Ok(items.push((entries[count - 1].0, member))),
            },
        }
    } else {
        Ok(Seq::empty())
    }
}

/// Converts a value into the host object that it becomes: see `to_python`.
pub fn json_to_python(json: Json) -> (result: Result<PyValue, JsonError>)
    ensures
        match to_python(json@) {
            Ok(object) => result matches Ok(obj) && obj@ == object,
            Err(failure) => result matches Err(error) && error@ == failure,
        },
    decreases json,
{
    match json {
        Json::Null => Ok(PyValue::NoneType),
        Json::Bool(b) => Ok(PyValue::Bool(b)),
        Json::Number(number) => if is_number_text(number.as_str()) {
            Ok(PyValue::Float(number))
        } else {
            Err(JsonError::HostConversionFailure(number))
        },
        Json::String(text) => Ok(PyValue::Str(text)),
        Json::Array(arr) => {
            let ghost whole = arr;
            let ghost items = items_view(whole@);
            proof {
                lemma_array_view(whole);
            }
            let mut list: Vec<PyValue> = Vec::new();
            assert(members_view(list@) =~= Seq::empty());
            for value in it: arr.into_iter()
                invariant
                    it.seq() == whole@,
                    json == Json::Array(whole),
                    items == items_view(whole@),
                    to_python_members(items, it.index()) == Ok::<Seq<PyValueView>, Failure>(
                        members_view(list@),
                    ),
            {
                let ghost before = members_view(list@);
                match json_to_python(unbox(value)) {
                    Err(error) => {
                        proof {
                            lemma_array_view(whole);
                            lemma_python_members_failure(items, it.index() + 1);
                        }
                        return Err(error);
                    },
                    Ok(member) => {
                        list.push(member);
                        assert(members_view(list@) =~= before.push(member@));
                    },
                }
            }
            proof {
                lemma_list_view(list);
            }
            Ok(PyValue::List(list))
        },
        Json::Object(obj) => {
            let ghost whole = obj;
            let ghost entries = entries_view(whole@);
            proof {
                lemma_object_view(whole);
            }
            let mut dict: Vec<(String, PyValue)> = Vec::new();
            assert(pairs_view(dict@) =~= Seq::empty());
            for entry in it: obj.into_iter()
                invariant
                    it.seq() == whole@,
                    json == Json::Object(whole),
                    entries == entries_view(whole@),
                    to_python_items(entries, it.index()) == Ok::<
                        Seq<(Seq<char>, PyValueView)>,
                        Failure,
                    >(pairs_view(dict@)),
            {
                let ghost before = pairs_view(dict@);
                let (key, value) = entry;
                match json_to_python(unbox(value)) {
                    Err(error) => {
                        proof {
                            lemma_object_view(whole);
                            lemma_python_items_failure(entries, it.index() + 1);
                        }
                        return Err(error);
                    },
                    Ok(member) => {
                        dict.push((key, member));
                        assert(pairs_view(dict@) =~= before.push((key@, member@)));
                    },
                }
            }
            proof {
                lemma_dict_view(dict);
            }
            Ok(PyValue::Dict(dict))
        },
    }
}

/// The text that a host object is encoded as, or why it cannot be encoded.
pub open spec fn dumped(object: PyValueView) -> Result<Seq<char>, Failure> {
    match to_json(object) {
        Ok(value) => Ok(render(value, 0, false)),
        Err(failure) => Err(failure),
    }
}

/// The host object that a text is decoded to, or why it cannot be decoded.
pub open spec fn loaded(text: Seq<char>) -> Result<PyValueView, Failure> {
    match decode(text) {
        Ok(value) => to_python(value),
        Err(failure) => Err(failure),
    }
}

/// Encodes a host object: the text of the value that it converts into, laid
/// out from the left margin.
pub fn dumps(obj: PyValue) -> (result: Result<String, JsonError>)
    ensures
        match dumped(obj@) {
            Ok(text) => result matches Ok(s) && s@ == text,
            Err(failure) => result matches Err(error) && error@ == failure,
        },
{
    let json = python_to_json(obj)?;
    Ok(json_to_string(&json, 0, false))
}

/// Decodes a text into a host object.
pub fn loads(s: &str) -> (result: Result<PyValue, JsonError>)
    ensures
        match loaded(s@) {
            Ok(object) => result matches Ok(obj) && obj@ == object,
            Err(failure) => result matches Err(error) && error@ == failure,
        },
{
    let json = string_to_json(s)?;
    json_to_python(json)
}

/// A failure among the first members of an array is the failure of the
/// array.
proof fn lemma_python_members_failure(items: Seq<JsonView>, count: int)
    requires
        0 <= count <= items.len(),
        to_python_members(items, count) is Err,
    ensures
        to_python_members(items, items.len() as int) == to_python_members(items, count),
    decreases items.len() - count,
{
    if count < items.len() {
        lemma_python_members_failure(items, count + 1);
    }
}

/// A failure among the first members of an object is the failure of the
/// object.
proof fn lemma_python_items_failure(entries: Seq<(Seq<char>, JsonView)>, count: int)
    requires
        0 <= count <= entries.len(),
        to_python_items(entries, count) is Err,
    ensures
        to_python_items(entries, entries.len() as int) == to_python_items(entries, count),
    decreases entries.len() - count,
{
    if count < entries.len() {
        lemma_python_items_failure(entries, count + 1);
    }
}

/// A failure among the first members of a list is the failure of the list.
proof fn lemma_members_failure(members: Seq<PyValueView>, count: int)
    requires
        0 <= count <= members.len(),
        to_json_members(members, count) is Err,
    ensures
        to_json_members(members, members.len() as int) == to_json_members(members, count),
    decreases members.len() - count,
{
    if count < members.len() {
        lemma_members_failure(members, count + 1);
    }
}

/// A failure among the first items of a dict is the failure of the dict.
proof fn lemma_items_failure(items: Seq<(Seq<char>, PyValueView)>, count: int)
    requires
        0 <= count <= items.len(),
        to_json_items(items, count) is Err,
    ensures
        to_json_items(items, items.len() as int) == to_json_items(items, count),
    decreases items.len() - count,
{
    if count < items.len() {
        lemma_items_failure(items, count + 1);
    }
}

} // verus!

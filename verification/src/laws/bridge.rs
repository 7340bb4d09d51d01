//! The conversions between values and host objects: when they fail, and
//! that decoding into a host object fails only where decoding does.

use vstd::prelude::*;
use crate::decoder::decode;
use crate::error::Failure;
use crate::host::{loaded, to_json, to_json_items, to_json_members, to_python, to_python_items, to_python_members, PyValueView};
use crate::laws::form::lemma_decode_well_formed;
use crate::number::is_number;
use crate::value::{well_formed, JsonView};

verus! {

/// Whether an object, or one of the objects that it holds, is of a type
/// that cannot be encoded.
pub open spec fn holds_other(object: PyValueView) -> bool
    decreases object,
{
    match object {
        PyValueView::Other(_) => true,
        PyValueView::List(members) => exists|i: int|
            0 <= i < members.len() && holds_other(#[trigger] members[i]),
        PyValueView::Dict(items) => exists|i: int|
            0 <= i < items.len() && holds_other((#[trigger] items[i]).1),
        _ => false,
    }
}

proof fn lemma_to_json_members(members: Seq<PyValueView>, count: int)
    requires
        0 <= count <= members.len(),
    ensures
        to_json_members(members, count) is Err <==> exists|i: int|
            0 <= i < count && holds_other(#[trigger] members[i]),
        to_json_members(members, count) matches Err(failure) ==> failure is UnsupportedHostShape,
    decreases members, count,
{
    if count > 0 {
        lemma_to_json_members(members, count - 1);
        lemma_to_json(members[count - 1]);
        if to_json_members(members, count) is Err {
            if to_json_members(members, count - 1) is Err {
                let i = choose|i: int| 0 <= i < count - 1 && holds_other(#[trigger] members[i]);
                assert(0 <= i < count && holds_other(members[i]));
            } else {
                assert(holds_other(members[count - 1]));
            }
        }
    }
}

proof fn lemma_to_json_items(items: Seq<(Seq<char>, PyValueView)>, count: int)
    requires
        0 <= count <= items.len(),
    ensures
        to_json_items(items, count) is Err <==> exists|i: int|
            0 <= i < count && holds_other((#[trigger] items[i]).1),
        to_json_items(items, count) matches Err(failure) ==> failure is UnsupportedHostShape,
    decreases items, count,
{
    if count > 0 {
        lemma_to_json_items(items, count - 1);
        lemma_to_json(items[count - 1].1);
        if to_json_items(items, count) is Err {
            if to_json_items(items, count - 1) is Err {
                let i = choose|i: int| 0 <= i < count - 1 && holds_other((#[trigger] items[i]).1);
                assert(0 <= i < count && holds_other(items[i].1));
            } else {
                assert(holds_other(items[count - 1].1));
            }
        }
    }
}

/// A host object can be encoded if and only if neither it nor any object
/// that it holds is of another type than the seven, and the conversion
/// fails in no other way than by naming such a type.
pub proof fn lemma_to_json(object: PyValueView)
    ensures
        to_json(object) is Err <==> holds_other(object),
        to_json(object) matches Err(failure) ==> failure is UnsupportedHostShape,
    decreases object, 0nat,
{
    match object {
        PyValueView::List(members) => {
            lemma_to_json_members(members, members.len() as int);
        },
        PyValueView::Dict(items) => {
            lemma_to_json_items(items, items.len() as int);
        },
        _ => {},
    }
}

/// Whether every number in a value is a number literal.
pub open spec fn numbers_are_literals(value: JsonView) -> bool
    decreases value,
{
    match value {
        JsonView::Number(text) => is_number(text),
        JsonView::Array(items) => forall|i: int|
            0 <= i < items.len() ==> numbers_are_literals(#[trigger] items[i]),
        JsonView::Object(entries) => forall|i: int|
            0 <= i < entries.len() ==> numbers_are_literals((#[trigger] entries[i]).1),
        _ => true,
    }
}

/// The numbers of a well-formed value are number literals.
pub proof fn lemma_well_formed_numbers(value: JsonView)
    requires
        well_formed(value),
    ensures
        numbers_are_literals(value),
    decreases value,
{
    match value {
        JsonView::Array(items) => {
            assert forall|i: int| 0 <= i < items.len() implies numbers_are_literals(
                #[trigger] items[i],
            ) by {
                assert(well_formed(items[i]));
                lemma_well_formed_numbers(items[i]);
            }
        },
        JsonView::Object(entries) => {
            assert forall|i: int| 0 <= i < entries.len() implies numbers_are_literals(
                (#[trigger] entries[i]).1,
            ) by {
                assert(well_formed(entries[i].1));
                lemma_well_formed_numbers(entries[i].1);
            }
        },
        _ => {},
    }
}

proof fn lemma_to_python_members(items: Seq<JsonView>, count: int)
    requires
        0 <= count <= items.len(),
    ensures
        to_python_members(items, count) is Ok <==> forall|i: int|
            0 <= i < count ==> numbers_are_literals(#[trigger] items[i]),
        to_python_members(items, count) matches Err(failure) ==> failure is HostConversionFailure,
        to_python_members(items, count) matches Ok(members) ==> members.len() == count,
    decreases items, count,
{
    if count > 0 {
        lemma_to_python_members(items, count - 1);
        lemma_to_python(items[count - 1]);
    }
}

proof fn lemma_to_python_items(entries: Seq<(Seq<char>, JsonView)>, count: int)
    requires
        0 <= count <= entries.len(),
    ensures
        to_python_items(entries, count) is Ok <==> forall|i: int|
            0 <= i < count ==> numbers_are_literals((#[trigger] entries[i]).1),
        to_python_items(entries, count) matches Err(failure) ==> failure is HostConversionFailure,
        to_python_items(entries, count) matches Ok(items) ==> items.len() == count,
    decreases entries, count,
{
    if count > 0 {
        lemma_to_python_items(entries, count - 1);
        lemma_to_python(entries[count - 1].1);
    }
}

/// A value has a counterpart among the host's objects if and only if each
/// of its numbers is a number literal, and the conversion fails in no
/// other way than by naming a number that is none.
pub proof fn lemma_to_python(value: JsonView)
    ensures
        to_python(value) is Ok <==> numbers_are_literals(value),
        to_python(value) matches Err(failure) ==> failure is HostConversionFailure,
    decreases value, 0nat,
{
    match value {
        JsonView::Array(items) => {
            lemma_to_python_members(items, items.len() as int);
        },
        JsonView::Object(entries) => {
            lemma_to_python_items(entries, entries.len() as int);
        },
        _ => {},
    }
}

/// Decoding a text into a host object fails only where decoding the text
/// fails: what was decoded always has a counterpart.
pub proof fn lemma_loaded(text: Seq<char>)
    ensures
        decode(text) is Ok ==> loaded(text) is Ok,
        decode(text) matches Err(failure) ==> loaded(text) == Err::<PyValueView, Failure>(failure),
{
    lemma_decode_well_formed(text);
    if let Ok(value) = decode(text) {
        lemma_well_formed_numbers(value);
        lemma_to_python(value);
    }
}

} // verus!

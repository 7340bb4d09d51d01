//! Opening and closing: when a pass fails, and what it hands out when it
//! does not.

use vstd::prelude::*;
use crate::decoder::{decode, flush, initial_state, literal_value, scan, step, ScanState};
use crate::encoder::render;
use crate::error::Failure;
use crate::value::JsonView;

verus! {

/// How many more containers the first `count` characters of a text open
/// than they close.
pub open spec fn depth(text: Seq<char>, count: int) -> int
    decreases count,
{
    if count <= 0 {
        0
    } else {
        let c = text[count - 1];
        depth(text, count - 1) + if c == '{' || c == '[' {
            1int
        } else if c == '}' || c == ']' {
            -1int
        } else {
            0int
        }
    }
}

/// A closing brace where no container is open is an underflow at that
/// character, and it is the only way in which a closing brace fails.
pub proof fn lemma_brace_underflow(state: ScanState, offset: int)
    ensures
        state.stack.len() == 0 ==> step(state, '}', offset) == Err::<ScanState, Failure>(
            Failure::StructuralUnderflow(offset),
        ),
        state.stack.len() > 0 ==> step(state, '}', offset) is Ok,
{
}

/// A closing bracket or a comma where no container is open fails at that
/// character: with the failure of the literal that was to be stored, if it
/// has one, else with an underflow.
pub proof fn lemma_flush_underflow(state: ScanState, c: char, offset: int)
    requires
        c == ']' || c == ',',
        state.stack.len() == 0,
    ensures
        step(state, c, offset) == match literal_value(state.kind, state.buffer, offset) {
            Err(failure) => Err::<ScanState, Failure>(failure),
            Ok(_) => Err(Failure::StructuralUnderflow(offset)),
        },
{
}

proof fn lemma_scan_depth(state: ScanState, text: Seq<char>, from: int)
    requires
        0 <= from <= text.len(),
        state.stack.len() == depth(text, from),
        scan(state, text, from) is Ok,
    ensures
        forall|count: int| from <= count <= text.len() ==> depth(text, count) >= 0,
        scan(state, text, from)->Ok_0.stack.len() == depth(text, text.len() as int),
    decreases text.len() - from,
{
    if from < text.len() {
        let next = step(state, text[from], from)->Ok_0;
        assert(next.stack.len() == depth(text, from + 1));
        lemma_scan_depth(next, text, from + 1);
    }
}

/// Whatever decodes is balanced up to each of its characters: a text that
/// closes, at some character, more containers than it has opened fails,
/// and does so without handing out any part of a tree.
pub proof fn lemma_decoded_is_balanced(text: Seq<char>)
    requires
        decode(text) is Ok,
    ensures
        forall|count: int| 0 <= count <= text.len() ==> depth(text, count) >= 0,
{
    lemma_scan_depth(initial_state(), text, 0);
}

proof fn lemma_scan_unmatched(state: ScanState, text: Seq<char>, from: int, at: int)
    requires
        0 <= from <= at < text.len(),
        text[at] == '}' || text[at] == ']',
        depth(text, at) == 0,
        state.stack.len() == depth(text, from),
    ensures
        scan(state, text, from) matches Err(failure) && failure.offset() matches Some(offset)
            && from <= offset <= at && (offset == at && text[at] == '}'
            ==> failure is StructuralUnderflow),
    decreases at - from,
{
    if from < at {
        if let Ok(next) = step(state, text[from], from) {
            assert(next.stack.len() == depth(text, from + 1));
            lemma_scan_unmatched(next, text, from + 1, at);
        }
    }
}

/// A bracket that closes what was never opened fails the text: decoding
/// fails at that bracket or before it, and where it fails at a closing
/// brace it fails with an underflow.
pub proof fn lemma_unmatched_close(text: Seq<char>, at: int)
    requires
        0 <= at < text.len(),
        text[at] == '}' || text[at] == ']',
        depth(text, at) == 0,
    ensures
        decode(text) matches Err(failure) && failure.offset() matches Some(offset) && offset <= at
            && (offset == at && text[at] == '}' ==> failure is StructuralUnderflow),
{
    lemma_scan_unmatched(initial_state(), text, 0, at);
}

proof fn lemma_scan_nothing_closed(state: ScanState, text: Seq<char>, from: int)
    requires
        0 <= from,
        forall|i: int| from <= i < text.len() ==> text[i] != '}' && text[i] != ']',
    ensures
        scan(state, text, from) matches Ok(end) ==> end.last == state.last,
    decreases text.len() - from,
{
    if from < text.len() {
        if let Ok(next) = step(state, text[from], from) {
            lemma_scan_nothing_closed(next, text, from + 1);
        }
    }
}

/// A text in which no container is closed decodes to `Null`, if it decodes
/// at all: a container that is open at the end is dropped, with whatever
/// it holds.
pub proof fn lemma_nothing_closed(text: Seq<char>)
    requires
        forall|i: int| 0 <= i < text.len() ==> text[i] != '}' && text[i] != ']',
    ensures
        decode(text) matches Ok(value) ==> value == JsonView::Null,
{
    lemma_scan_nothing_closed(initial_state(), text, 0);
}

/// Whether what a pass holds is what it can hold: containers on the stack,
/// and a container or `Null` as the container closed last.
spec fn holds_containers(state: ScanState) -> bool {
    &&& state.last is Null || state.last is Array || state.last is Object
    &&& forall|i: int|
        0 <= i < state.stack.len() ==> (#[trigger] state.stack[i]) is Array || state.stack[i]
            is Object
}

proof fn lemma_step_containers(state: ScanState, c: char, offset: int)
    requires
        holds_containers(state),
    ensures
        step(state, c, offset) matches Ok(next) ==> holds_containers(next),
{
    if c == ']' {
        if let Ok(flushed) = flush(state, offset) {
            assert(holds_containers(flushed));
        }
    }
}

proof fn lemma_scan_containers(state: ScanState, text: Seq<char>, from: int)
    requires
        holds_containers(state),
    ensures
        scan(state, text, from) matches Ok(end) ==> holds_containers(end),
    decreases text.len() - from,
{
    if 0 <= from < text.len() {
        lemma_step_containers(state, text[from], from);
        if let Ok(next) = step(state, text[from], from) {
            lemma_scan_containers(next, text, from + 1);
        }
    }
}

/// What a text decodes to is a container, or `Null`: no text decodes to a
/// boolean, a number or a string.
pub proof fn lemma_decode_gives_container(text: Seq<char>)
    ensures
        decode(text) matches Ok(value) ==> value is Null || value is Array || value is Object,
{
    lemma_scan_containers(initial_state(), text, 0);
}

/// Encoding and then decoding does not give the value back: a boolean, a
/// number or a string never comes back, however it was laid out.
pub proof fn lemma_scalar_does_not_come_back(value: JsonView, indent: nat, comma: bool)
    requires
        value is Bool || value is Number || value is String,
    ensures
        decode(render(value, indent, comma)) != Ok::<JsonView, Failure>(value),
{
    lemma_decode_gives_container(render(value, indent, comma));
}

/// A failure of the decoder: one of the three that a step can meet.
pub open spec fn is_decode_failure(failure: Failure) -> bool {
    failure is MalformedNumber || failure is MalformedBoolean || failure is StructuralUnderflow
}

proof fn lemma_scan_failure(state: ScanState, text: Seq<char>, from: int)
    ensures
        scan(state, text, from) matches Err(failure) ==> is_decode_failure(failure),
    decreases text.len() - from,
{
    if 0 <= from < text.len() {
        if let Ok(next) = step(state, text[from], from) {
            lemma_scan_failure(next, text, from + 1);
        }
    }
}

/// Decoding fails in no other way than with a malformed number, a
/// malformed boolean or an underflow.
pub proof fn lemma_decode_failure(text: Seq<char>)
    ensures
        decode(text) matches Err(failure) ==> is_decode_failure(failure),
{
    lemma_scan_failure(initial_state(), text, 0);
}

} // verus!

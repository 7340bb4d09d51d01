//! Whatever a text decodes to is well formed.

use vstd::prelude::*;
use crate::decoder::{attach, close, decode, flush, initial_state, literal_value, scan, step, store, ScanState};
use crate::laws::members::lemma_insert_entry;
use crate::value::{well_formed, JsonView};

verus! {

/// Every container that a pass holds is well formed.
pub open spec fn state_well_formed(state: ScanState) -> bool {
    &&& well_formed(state.last)
    &&& forall|i: int| 0 <= i < state.stack.len() ==> well_formed(#[trigger] state.stack[i])
}

proof fn lemma_store_well_formed(top: JsonView, key: Option<Seq<char>>, item: JsonView)
    requires
        well_formed(top),
        well_formed(item),
    ensures
        well_formed(store(top, key, item)),
{
    match top {
        JsonView::Object(entries) => {
            if let Some(key) = key {
                lemma_insert_entry(entries, key, item);
            }
        },
        _ => {},
    }
}

proof fn lemma_attach_well_formed(parent: JsonView, key: Option<Seq<char>>, item: JsonView)
    requires
        well_formed(parent),
        well_formed(item),
    ensures
        well_formed(attach(parent, key, item)),
{
    match parent {
        JsonView::Object(entries) => {
            let key = match key {
                Some(key) => key,
                None => "ERROR"@,
            };
            lemma_insert_entry(entries, key, item);
        },
        _ => {},
    }
}

proof fn lemma_flush_well_formed(state: ScanState, offset: int)
    requires
        state_well_formed(state),
    ensures
        flush(state, offset) matches Ok(next) ==> state_well_formed(next),
{
    if let Ok(next) = flush(state, offset) {
        let item = literal_value(state.kind, state.buffer, offset)->Ok_0;
        let top = state.stack.last();
        let key = if top is Object && state.keys.len() > 0 {
            Some(state.keys.last())
        } else {
            None
        };
        lemma_store_well_formed(top, key, item);
    }
}

proof fn lemma_close_well_formed(state: ScanState, offset: int)
    requires
        state_well_formed(state),
    ensures
        close(state, offset) matches Ok(next) ==> state_well_formed(next),
{
    if let Ok(next) = close(state, offset) {
        let item = state.stack.last();
        let rest = state.stack.drop_last();
        if rest.len() > 0 {
            let key = if state.keys.len() > 0 {
                Some(state.keys.last())
            } else {
                None
            };
            lemma_attach_well_formed(rest.last(), key, item);
        }
    }
}

/// A step keeps every container of the pass well formed.
pub proof fn lemma_step_well_formed(state: ScanState, c: char, offset: int)
    requires
        state_well_formed(state),
    ensures
        step(state, c, offset) matches Ok(next) ==> state_well_formed(next),
{
    if c == '}' {
        lemma_close_well_formed(state, offset);
    } else if c == ']' {
        lemma_flush_well_formed(state, offset);
        if let Ok(flushed) = flush(state, offset) {
            lemma_close_well_formed(flushed, offset);
        }
    } else if c == ',' {
        lemma_flush_well_formed(state, offset);
    }
}

proof fn lemma_scan_well_formed(state: ScanState, text: Seq<char>, from: int)
    requires
        state_well_formed(state),
    ensures
        scan(state, text, from) matches Ok(end) ==> state_well_formed(end),
    decreases text.len() - from,
{
    if 0 <= from < text.len() {
        lemma_step_well_formed(state, text[from], from);
        if let Ok(next) = step(state, text[from], from) {
            lemma_scan_well_formed(next, text, from + 1);
        }
    }
}

/// Whatever a text decodes to is well formed: each of its numbers is a
/// number literal, and none of its objects has two members with one key.
pub proof fn lemma_decode_well_formed(text: Seq<char>)
    ensures
        decode(text) matches Ok(value) ==> well_formed(value),
{
    lemma_scan_well_formed(initial_state(), text, 0);
}

} // verus!

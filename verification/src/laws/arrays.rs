//! Decoding the text of an array: every member is kept, in its place.

use vstd::prelude::*;
use crate::decoder::{decode, flush, initial_state, scan, step, ScanState};
use crate::error::Failure;
use crate::laws::elements::{lemma_parts, lemma_scan_element, Element};
use crate::value::JsonView;

verus! {

/// The values of the first `count` members.
pub open spec fn values(elements: Seq<Element>, count: int) -> Seq<JsonView> {
    Seq::new(count as nat, |i: int| elements[i].value()->Ok_0)
}

/// The texts of the first `count` members with a comma between each two.
pub open spec fn listed(elements: Seq<Element>, count: int) -> Seq<char>
    decreases count,
{
    if count <= 0 {
        Seq::empty()
    } else if count == 1 {
        elements[0].text()
    } else {
        listed(elements, count - 1) + seq![','] + elements[count - 1].text()
    }
}

/// The text of an array: its members with a comma between each two, in
/// square brackets.
pub open spec fn array_text(elements: Seq<Element>) -> Seq<char> {
    seq!['['] + listed(elements, elements.len() as int) + seq![']']
}

/// The state of a pass that stands outside a string, with one array open
/// and a member read.
spec fn in_array(members: Seq<JsonView>, element: Element) -> ScanState {
    ScanState {
        stack: seq![JsonView::Array(members)],
        keys: Seq::empty(),
        buffer: element.kept(),
        kind: element.kind(),
        in_string: false,
        last: JsonView::Null,
    }
}

proof fn lemma_scan_listed(elements: Seq<Element>, text: Seq<char>, count: int)
    requires
        1 <= count <= elements.len(),
        forall|i: int|
            0 <= i < elements.len() ==> (#[trigger] elements[i]).is_readable()
                && elements[i].value() is Ok,
        1 + listed(elements, count).len() <= text.len(),
        text.subrange(0, 1 + listed(elements, count).len() as int) == seq!['['] + listed(
            elements,
            count,
        ),
    ensures
        scan(initial_state(), text, 0) == scan(
            in_array(values(elements, count - 1), elements[count - 1]),
            text,
            1 + listed(elements, count).len() as int,
        ),
    decreases count,
{
    let element = elements[count - 1];
    assert(element.is_readable());
    if count == 1 {
        lemma_parts(text, 0, seq!['['], element.text());
        assert(text[0] == text.subrange(0, 1)[0]);
        let opened = step(initial_state(), '[', 0)->Ok_0;
        lemma_scan_element(opened, text, 1, element);
        assert(values(elements, 0) =~= Seq::empty());
        assert(opened.stack =~= seq![JsonView::Array(values(elements, 0))]);
    } else {
        let before = listed(elements, count - 1);
        let at = 1 + before.len() as int;
        assert(seq!['['] + listed(elements, count) =~= (seq!['['] + before) + (seq![',']
            + element.text()));
        lemma_parts(text, 0, seq!['['] + before, seq![','] + element.text());
        lemma_parts(text, at, seq![','], element.text());
        lemma_scan_listed(elements, text, count - 1);
        let earlier = elements[count - 2];
        assert(earlier.is_readable() && earlier.value() is Ok);
        let state = in_array(values(elements, count - 2), earlier);
        assert(text[at] == text.subrange(at, at + 1)[0]);
        let flushed = step(state, ',', at)->Ok_0;
        assert(flushed.stack =~= seq![JsonView::Array(values(elements, count - 1))]) by {
            assert(values(elements, count - 2).push(earlier.value()->Ok_0) =~= values(
                elements,
                count - 1,
            ));
        }
        lemma_scan_element(flushed, text, at + 1, element);
    }
}

/// Decoding an array keeps the order of its members: where the members
/// between the brackets each have a value, the text decodes to the array of
/// those values, in the order in which the members stand. The last member
/// is stored like all the others, though no comma follows it.
pub proof fn lemma_array_keeps_order(elements: Seq<Element>)
    requires
        elements.len() > 0,
        forall|i: int|
            0 <= i < elements.len() ==> (#[trigger] elements[i]).is_readable()
                && elements[i].value() is Ok,
    ensures
        decode(array_text(elements)) == Ok::<JsonView, Failure>(
            JsonView::Array(values(elements, elements.len() as int)),
        ),
{
    let text = array_text(elements);
    let count = elements.len() as int;
    let at = 1 + listed(elements, count).len() as int;
    assert(text.subrange(0, at) =~= seq!['['] + listed(elements, count));
    lemma_scan_listed(elements, text, count);
    let element = elements[count - 1];
    assert(element.is_readable() && element.value() is Ok);
    let state = in_array(values(elements, count - 1), element);
    assert(text[at] == ']');
    let flushed = flush(state, at)->Ok_0;
    assert(flushed.stack =~= seq![JsonView::Array(values(elements, count))]) by {
        assert(values(elements, count - 1).push(element.value()->Ok_0) =~= values(
            elements,
            count,
        ));
    }
    let closed = step(state, ']', at)->Ok_0;
    assert(closed.last == JsonView::Array(values(elements, count)));
    assert(scan(closed, text, at + 1) == Ok::<ScanState, Failure>(closed));
}

} // verus!

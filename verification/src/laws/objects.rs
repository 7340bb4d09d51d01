//! Decoding the text of an object: a member is stored by the comma behind
//! it, so the member before the closing brace is lost.

use vstd::prelude::*;
use crate::decoder::{decode, initial_state, scan, step, LiteralKind, ScanState};
use crate::error::Failure;
use crate::laws::elements::{is_plain, lemma_parts, lemma_scan_element, lemma_scan_quoted, Element};
use crate::value::{insert_entry, JsonView};

verus! {

/// A member of an object as it stands in a text: the characters of the key,
/// which stand between quotes, and the value.
pub struct Member {
    pub key: Seq<char>,
    pub value: Element,
}

impl Member {
    /// Whether the pass reads the member as it stands.
    pub open spec fn is_readable(self) -> bool {
        is_plain(self.key) && self.value.is_readable()
    }

    /// The characters of the member in the text: the key between quotes, a
    /// colon, and the value.
    pub open spec fn text(self) -> Seq<char> {
        seq!['"'] + self.key + seq!['"'] + seq![':'] + self.value.text()
    }
}

/// The texts of the first `count` members with a comma between each two.
pub open spec fn members_listed(members: Seq<Member>, count: int) -> Seq<char>
    decreases count,
{
    if count <= 0 {
        Seq::empty()
    } else if count == 1 {
        members[0].text()
    } else {
        members_listed(members, count - 1) + seq![','] + members[count - 1].text()
    }
}

/// The text of an object: its members with a comma between each two, in
/// braces.
pub open spec fn object_text(members: Seq<Member>) -> Seq<char> {
    seq!['{'] + members_listed(members, members.len() as int) + seq!['}']
}

/// The text of an object in which a comma follows the last member too.
pub open spec fn closed_object_text(members: Seq<Member>) -> Seq<char> {
    seq!['{'] + members_listed(members, members.len() as int) + seq![',', '}']
}

/// The members of the object in which the first `count` members of a text
/// were stored, one after the other.
pub open spec fn stored(members: Seq<Member>, count: int) -> Seq<(Seq<char>, JsonView)>
    decreases count,
{
    if count <= 0 {
        Seq::empty()
    } else {
        insert_entry(
            stored(members, count - 1),
            members[count - 1].key,
            members[count - 1].value.value()->Ok_0,
        )
    }
}

/// The state of a pass that stands outside a string, with one object open,
/// a key waiting and a value read.
spec fn in_object(entries: Seq<(Seq<char>, JsonView)>, member: Member) -> ScanState {
    ScanState {
        stack: seq![JsonView::Object(entries)],
        keys: seq![member.key],
        buffer: member.value.kept(),
        kind: member.value.kind(),
        in_string: false,
        last: JsonView::Null,
    }
}

/// A member is read into a waiting key and the characters of a value.
proof fn lemma_scan_member(state: ScanState, text: Seq<char>, from: int, member: Member)
    requires
        0 <= from,
        from + member.text().len() <= text.len(),
        text.subrange(from, from + member.text().len()) == member.text(),
        member.is_readable(),
        !state.in_string,
        state.buffer.len() == 0,
        state.kind == LiteralKind::Text,
    ensures
        scan(state, text, from) == scan(
            ScanState {
                keys: state.keys.push(member.key),
                buffer: member.value.kept(),
                kind: member.value.kind(),
                ..state
            },
            text,
            from + member.text().len(),
        ),
{
    let quoted = seq!['"'] + member.key + seq!['"'];
    let colon = seq![':'];
    assert(member.text() =~= quoted + (colon + member.value.text()));
    lemma_parts(text, from, quoted, colon + member.value.text());
    let at = from + quoted.len();
    lemma_parts(text, at, colon, member.value.text());
    lemma_scan_quoted(state, text, from, member.key);
    let read = ScanState { buffer: state.buffer + member.key, ..state };
    assert(read.buffer =~= member.key);
    assert(text[at] == text.subrange(at, at + 1)[0]);
    let keyed = step(read, ':', at)->Ok_0;
    assert(scan(read, text, at) == scan(keyed, text, at + 1));
    lemma_scan_element(keyed, text, at + 1, member.value);
}

proof fn lemma_scan_members(members: Seq<Member>, text: Seq<char>, count: int)
    requires
        1 <= count <= members.len(),
        forall|i: int| 0 <= i < members.len() ==> (#[trigger] members[i]).is_readable(),
        forall|i: int| 0 <= i < count - 1 ==> (#[trigger] members[i]).value.value() is Ok,
        1 + members_listed(members, count).len() <= text.len(),
        text.subrange(0, 1 + members_listed(members, count).len() as int) == seq!['{']
            + members_listed(members, count),
    ensures
        scan(initial_state(), text, 0) == scan(
            in_object(stored(members, count - 1), members[count - 1]),
            text,
            1 + members_listed(members, count).len() as int,
        ),
    decreases count,
{
    let member = members[count - 1];
    assert(member.is_readable());
    if count == 1 {
        lemma_parts(text, 0, seq!['{'], member.text());
        assert(text[0] == text.subrange(0, 1)[0]);
        let opened = step(initial_state(), '{', 0)->Ok_0;
        lemma_scan_member(opened, text, 1, member);
        assert(opened.keys.push(member.key) =~= seq![member.key]);
        assert(opened.stack =~= seq![JsonView::Object(stored(members, 0))]);
    } else {
        let before = members_listed(members, count - 1);
        let at = 1 + before.len() as int;
        assert(seq!['{'] + members_listed(members, count) =~= (seq!['{'] + before) + (seq![',']
            + member.text()));
        lemma_parts(text, 0, seq!['{'] + before, seq![','] + member.text());
        lemma_parts(text, at, seq![','], member.text());
        lemma_scan_members(members, text, count - 1);
        let earlier = members[count - 2];
        assert(earlier.is_readable() && earlier.value.value() is Ok);
        let state = in_object(stored(members, count - 2), earlier);
        assert(text[at] == text.subrange(at, at + 1)[0]);
        let flushed = step(state, ',', at)->Ok_0;
        assert(flushed.stack =~= seq![JsonView::Object(stored(members, count - 1))]);
        assert(flushed.keys =~= Seq::empty());
        lemma_scan_member(flushed, text, at + 1, member);
        assert(flushed.keys.push(member.key) =~= seq![member.key]);
    }
}

/// The last member of an object is dropped: a closing brace stores
/// nothing, so the text of an object decodes to the object of all its
/// members but the last, stored in the order in which they stand. The last
/// member need not even have a value.
pub proof fn lemma_object_drops_last_member(members: Seq<Member>)
    requires
        members.len() > 0,
        forall|i: int| 0 <= i < members.len() ==> (#[trigger] members[i]).is_readable(),
        forall|i: int| 0 <= i < members.len() - 1 ==> (#[trigger] members[i]).value.value() is Ok,
    ensures
        decode(object_text(members)) == Ok::<JsonView, Failure>(
            JsonView::Object(stored(members, members.len() - 1)),
        ),
{
    let text = object_text(members);
    let count = members.len() as int;
    let at = 1 + members_listed(members, count).len() as int;
    assert(text.subrange(0, at) =~= seq!['{'] + members_listed(members, count));
    lemma_scan_members(members, text, count);
    let state = in_object(stored(members, count - 1), members[count - 1]);
    assert(text[at] == '}');
    let closed = step(state, '}', at)->Ok_0;
    assert(closed.last == JsonView::Object(stored(members, count - 1)));
    assert(scan(closed, text, at + 1) == Ok::<ScanState, Failure>(closed));
}

/// A member that a comma follows is kept: where a comma stands behind each
/// member, the last one too, the text of an object decodes to the object of
/// all its members, stored in the order in which they stand.
pub proof fn lemma_object_keeps_members_before_commas(members: Seq<Member>)
    requires
        members.len() > 0,
        forall|i: int|
            0 <= i < members.len() ==> (#[trigger] members[i]).is_readable()
                && members[i].value.value() is Ok,
    ensures
        decode(closed_object_text(members)) == Ok::<JsonView, Failure>(
            JsonView::Object(stored(members, members.len() as int)),
        ),
{
    let text = closed_object_text(members);
    let count = members.len() as int;
    let at = 1 + members_listed(members, count).len() as int;
    assert(text.subrange(0, at) =~= seq!['{'] + members_listed(members, count));
    lemma_scan_members(members, text, count);
    let last = members[count - 1];
    assert(last.is_readable() && last.value.value() is Ok);
    let state = in_object(stored(members, count - 1), last);
    assert(text[at] == ',');
    assert(text[at + 1] == '}');
    let flushed = step(state, ',', at)->Ok_0;
    assert(flushed.stack =~= seq![JsonView::Object(stored(members, count))]);
    let closed = step(flushed, '}', at + 1)->Ok_0;
    assert(closed.last == JsonView::Object(stored(members, count)));
    assert(scan(state, text, at) == scan(closed, text, at + 2)) by {
        assert(scan(state, text, at) == scan(flushed, text, at + 1));
    }
    assert(scan(closed, text, at + 2) == Ok::<ScanState, Failure>(closed));
}

} // verus!

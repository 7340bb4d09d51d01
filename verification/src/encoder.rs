//! The encoder: a value laid out as indented text, one line for each scalar
//! and for each bracket.
//!
//! The text is meant to be read, not to be decoded again: a string stands
//! between single quotes with nothing escaped, every line ends in a line
//! feed, and every member of a container but the last is followed by a
//! comma.

use vstd::prelude::*;
use crate::text::{push_spaces, spaces};
use crate::value::{entries_view, items_view, lemma_array_view, lemma_object_view, Json, JsonView};

verus! {

/// The lines of `value`. The first line is not indented: it starts where the
/// caller stands. `indent` is the width at which the closing bracket of a
/// container is put, and `comma` says whether a comma follows the value.
///
/// The members of a container stand at `indent + 4`. A member of an array
/// is laid out at `indent + 8`, one level deeper than where it stands; a
/// member of an object is laid out at `indent + 4`.
pub open spec fn render(value: JsonView, indent: nat, comma: bool) -> Seq<char>
    decreases value, 0nat,
{
    let body = match value {
        JsonView::Null => "null"@,
        JsonView::Bool(b) => if b {
            "true"@
        } else {
            "false"@
        },
        JsonView::Number(text) => text,
        JsonView::String(text) => "'"@ + text + "'"@,
        JsonView::Array(items) => "[\n"@ + render_items(items, indent + 4, 0) + spaces(indent)
            + "]"@,
        JsonView::Object(entries) => "{\n"@ + render_entries(entries, indent + 4, 0) + spaces(
            indent,
        ) + "}"@,
    };
    body + (if comma {
        ","@
    } else {
        Seq::empty()
    }) + "\n"@
}

/// The lines of the members of an array from the member `from` on, each
/// member behind `indent` spaces.
pub open spec fn render_items(items: Seq<JsonView>, indent: nat, from: int) -> Seq<char>
    decreases items, items.len() - from,
{
    if 0 <= from < items.len() {
        spaces(indent) + render(items[from], indent + 4, from < items.len() - 1) + render_items(
            items,
            indent,
            from + 1,
        )
    } else {
        Seq::empty()
    }
}

/// The lines of the members of an object from the member `from` on, each
/// member behind `indent` spaces, its key between single quotes, and a
/// colon and a space.
pub open spec fn render_entries(
    entries: Seq<(Seq<char>, JsonView)>,
    indent: nat,
    from: int,
) -> Seq<char>
    decreases entries, entries.len() - from,
{
    if 0 <= from < entries.len() {
        spaces(indent) + "'"@ + entries[from].0 + "': "@ + render(
            entries[from].1,
            indent,
            from < entries.len() - 1,
        ) + render_entries(entries, indent, from + 1)
    } else {
        Seq::empty()
    }
}

/// The text of a scalar does not depend on the indent.
pub proof fn lemma_render_scalar(value: JsonView, indent: nat, other: nat, comma: bool)
    requires
        !(value is Array),
        !(value is Object),
    ensures
        render(value, indent, comma) == render(value, other, comma),
{
}

/// `pad` with four more spaces.
fn deeper(pad: &str, Ghost(indent): Ghost<nat>) -> (more: String)
    requires
        pad@ == spaces(indent),
    ensures
        more@ == spaces(indent + 4),
{
    let more = String::from_str(pad).concat("    ");
    proof {
        reveal_strlit("    ");
    }
    more
}

fn render_value(json: &Json, pad: &str, Ghost(indent): Ghost<nat>, comma: bool) -> (text: String)
    requires
        pad@ == spaces(indent),
    ensures
        text@ == render(json@, indent, comma),
    decreases json,
{
    let mut text = String::new();
    match json {
        Json::Null => {
            text.append("null");
        },
        Json::Bool(b) => {
            if *b {
                text.append("true");
            } else {
                text.append("false");
            }
        },
        Json::Number(number) => {
            text.append(number.as_str());
        },
        Json::String(string) => {
            text.append("'");
            text.append(string.as_str());
            text.append("'");
        },
        Json::Array(items) => {
            let inner = deeper(pad, Ghost(indent));
            let below = deeper(inner.as_str(), Ghost(indent + 4));
            let ghost members = items_view(items@);
            proof {
                lemma_array_view(*items);
            }
            text.append("[\n");
            let mut i: usize = 0;
            while i < items.len()
                invariant
                    i <= items.len(),
                    *json == Json::Array(*items),
                    members == items_view(items@),
                    inner@ == spaces(indent + 4),
                    below@ == spaces(indent + 8),
                    text@ + render_items(members, indent + 4, i as int) == "[\n"@ + render_items(
                        members,
                        indent + 4,
                        0,
                    ),
                decreases items.len() - i,
            {
                let ghost before = text@;
                assert(json->Array_0 == *items);
                let member = render_value(&*items[i], below.as_str(), Ghost(indent + 8), i + 1 < items.len());
                text.append(inner.as_str());
                text.append(member.as_str());
                assert(text@ + render_items(members, indent + 4, i + 1) =~= before + render_items(
                    members,
                    indent + 4,
                    i as int,
                ));
                i = i + 1;
            }
            text.append(pad);
            text.append("]");
        },
        Json::Object(entries) => {
            let inner = deeper(pad, Ghost(indent));
            let ghost members = entries_view(entries@);
            proof {
                lemma_object_view(*entries);
            }
            text.append("{\n");
            let mut i: usize = 0;
            while i < entries.len()
                invariant
                    i <= entries.len(),
                    *json == Json::Object(*entries),
                    members == entries_view(entries@),
                    inner@ == spaces(indent + 4),
                    text@ + render_entries(members, indent + 4, i as int) == "{\n"@
                        + render_entries(members, indent + 4, 0),
                decreases entries.len() - i,
            {
                let ghost before = text@;
                assert(json->Object_0 == *entries);
                let member = render_value(
                    &*entries[i].1,
                    inner.as_str(),
                    Ghost(indent + 4),
                    i + 1 < entries.len(),
                );
                text.append(inner.as_str());
                text.append("'");
                text.append(entries[i].0.as_str());
                text.append("': ");
                text.append(member.as_str());
                assert(text@ + render_entries(members, indent + 4, i + 1) =~= before
                    + render_entries(members, indent + 4, i as int));
                i = i + 1;
            }
            text.append(pad);
            text.append("}");
            assert(text@ =~= "{\n"@ + render_entries(members, indent + 4, 0) + spaces(indent)
                + "}"@);
        },
    }
    let ghost body = text@;
    if comma {
        text.append(",");
    }
    text.append("\n");
    assert(text@ =~= body + (if comma {
        ","@
    } else {
        Seq::empty()
    }) + "\n"@);
    text
}

/// Lays `json` out as text: see `render`. A caller that wants the whole
/// text of a value asks for `indent` 0 and no comma.
pub fn json_to_string(json: &Json, indent: usize, comma: bool) -> (text: String)
    ensures
        text@ == render(json@, indent as nat, comma),
{
    let mut pad = String::new();
    push_spaces(&mut pad, indent);
    render_value(json, pad.as_str(), Ghost(indent as nat), comma)
}

} // verus!

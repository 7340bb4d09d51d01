//! Members as they stand in a text, bare or between quotes, and how a pass
//! reads them.

use vstd::prelude::*;
use crate::decoder::{class_of, literal_value, scan, step, LiteralKind, ScanState};
use crate::error::Failure;
use crate::value::JsonView;

verus! {

/// A token: characters that each belong to a class of literal, so that a
/// pass outside a string keeps them all.
pub open spec fn is_token(token: Seq<char>) -> bool {
    forall|i: int| 0 <= i < token.len() ==> class_of(#[trigger] token[i]) is Some
}

/// What a pass has taken a token for when it has read it through: what its
/// last character is taken for.
pub open spec fn token_kind(token: Seq<char>) -> LiteralKind {
    if token.len() == 0 {
        LiteralKind::Text
    } else {
        class_of(token.last())->0
    }
}

/// A character that the pass gives a meaning of its own, inside a string
/// too: the quote, a bracket, the colon or the comma.
pub open spec fn is_mark(c: char) -> bool {
    c == '"' || c == '{' || c == '}' || c == '[' || c == ']' || c == ':' || c == ','
}

/// Characters that can stand between quotes: none of them is a mark.
pub open spec fn is_plain(text: Seq<char>) -> bool {
    forall|i: int| 0 <= i < text.len() ==> !is_mark(#[trigger] text[i])
}

/// A member as it stands in a text: a token, or characters between quotes.
pub enum Element {
    Bare(Seq<char>),
    Quoted(Seq<char>),
}

impl Element {
    /// Whether the pass reads the member as it stands.
    pub open spec fn is_readable(self) -> bool {
        match self {
            Element::Bare(token) => is_token(token),
            Element::Quoted(inner) => is_plain(inner),
        }
    }

    /// The characters of the member in the text.
    pub open spec fn text(self) -> Seq<char> {
        match self {
            Element::Bare(token) => token,
            Element::Quoted(inner) => seq!['"'] + inner + seq!['"'],
        }
    }

    /// The characters that the pass keeps of the member.
    pub open spec fn kept(self) -> Seq<char> {
        match self {
            Element::Bare(token) => token,
            Element::Quoted(inner) => inner,
        }
    }

    /// What the pass has taken the member for when it has read it through.
    /// Quotes give no kind: what stands between them is a string.
    pub open spec fn kind(self) -> LiteralKind {
        match self {
            Element::Bare(token) => token_kind(token),
            Element::Quoted(_) => LiteralKind::Text,
        }
    }

    /// The value of the member, where it stands alone between two
    /// separators.
    pub open spec fn value(self) -> Result<JsonView, Failure> {
        literal_value(self.kind(), self.kept(), 0)
    }
}

/// A part of a text that is made of two parts holds each of them.
pub proof fn lemma_parts(text: Seq<char>, from: int, first: Seq<char>, second: Seq<char>)
    requires
        0 <= from,
        from + first.len() + second.len() <= text.len(),
        text.subrange(from, from + first.len() + second.len()) == first + second,
    ensures
        text.subrange(from, from + first.len()) == first,
        text.subrange(from + first.len(), from + first.len() + second.len()) == second,
{
    let whole = text.subrange(from, from + first.len() + second.len());
    assert forall|i: int| 0 <= i < first.len() implies text[from + i] == first[i] by {
        assert(text[from + i] == whole[i]);
    }
    assert forall|i: int| 0 <= i < second.len() implies text[from + first.len() + i]
        == second[i] by {
        assert(text[from + first.len() + i] == whole[first.len() + i]);
    }
    assert(text.subrange(from, from + first.len()) =~= first);
    assert(text.subrange(from + first.len(), from + first.len() + second.len()) =~= second);
}

/// Outside a string the characters of a token are kept one after the
/// other, and the last one decides what the token is taken for.
pub proof fn lemma_scan_token(state: ScanState, text: Seq<char>, from: int, token: Seq<char>)
    requires
        0 <= from,
        from + token.len() <= text.len(),
        text.subrange(from, from + token.len()) == token,
        is_token(token),
        !state.in_string,
    ensures
        scan(state, text, from) == scan(
            ScanState {
                buffer: state.buffer + token,
                kind: if token.len() == 0 {
                    state.kind
                } else {
                    token_kind(token)
                },
                ..state
            },
            text,
            from + token.len(),
        ),
    decreases token.len(),
{
    if token.len() > 0 {
        let next = step(state, token[0], from)->Ok_0;
        let rest = token.drop_first();
        assert(text.subrange(from + 1, from + 1 + rest.len()) =~= rest);
        assert(is_token(rest)) by {
            assert forall|i: int| 0 <= i < rest.len() implies class_of(#[trigger] rest[i])
                is Some by {
                assert(rest[i] == token[i + 1]);
            }
        }
        lemma_scan_token(next, text, from + 1, rest);
        assert(next.buffer + rest =~= state.buffer + token);
    }
}

/// Inside a string the characters that are no marks are kept one after the
/// other, whatever they are, and change nothing else.
pub proof fn lemma_scan_inside(state: ScanState, text: Seq<char>, from: int, inner: Seq<char>)
    requires
        0 <= from,
        from + inner.len() <= text.len(),
        text.subrange(from, from + inner.len()) == inner,
        is_plain(inner),
        state.in_string,
    ensures
        scan(state, text, from) == scan(
            ScanState { buffer: state.buffer + inner, ..state },
            text,
            from + inner.len(),
        ),
    decreases inner.len(),
{
    if inner.len() > 0 {
        let next = step(state, inner[0], from)->Ok_0;
        let rest = inner.drop_first();
        assert(text.subrange(from + 1, from + 1 + rest.len()) =~= rest);
        assert(is_plain(rest)) by {
            assert forall|i: int| 0 <= i < rest.len() implies !is_mark(#[trigger] rest[i]) by {
                assert(rest[i] == inner[i + 1]);
            }
        }
        lemma_scan_inside(next, text, from + 1, rest);
        assert(next.buffer + rest =~= state.buffer + inner);
    }
}

/// Characters between quotes are kept as they are, without the quotes, and
/// leave the kind of the literal as it was.
pub proof fn lemma_scan_quoted(state: ScanState, text: Seq<char>, from: int, inner: Seq<char>)
    requires
        0 <= from,
        from + inner.len() + 2 <= text.len(),
        text.subrange(from, from + inner.len() + 2) == seq!['"'] + inner + seq!['"'],
        is_plain(inner),
        !state.in_string,
    ensures
        scan(state, text, from) == scan(
            ScanState { buffer: state.buffer + inner, ..state },
            text,
            from + inner.len() + 2,
        ),
{
    let quote = seq!['"'];
    assert(quote + inner + quote =~= quote + (inner + quote));
    lemma_parts(text, from, quote, inner + quote);
    lemma_parts(text, from + 1, inner, quote);
    assert(text[from] == '"') by {
        assert(text[from] == text.subrange(from, from + 1)[0]);
    }
    let opened = step(state, '"', from)->Ok_0;
    lemma_scan_inside(opened, text, from + 1, inner);
    let at = from + 1 + inner.len();
    let read = ScanState { buffer: opened.buffer + inner, ..opened };
    assert(text[at] == '"') by {
        assert(text[at] == text.subrange(at, at + 1)[0]);
    }
    assert(scan(read, text, at) == scan(step(read, '"', at)->Ok_0, text, at + 1));
}

/// A member that starts where nothing has been read since the last
/// separator is read into the characters that are kept of it and its kind.
pub proof fn lemma_scan_element(state: ScanState, text: Seq<char>, from: int, element: Element)
    requires
        0 <= from,
        from + element.text().len() <= text.len(),
        text.subrange(from, from + element.text().len()) == element.text(),
        element.is_readable(),
        !state.in_string,
        state.buffer.len() == 0,
        state.kind == LiteralKind::Text,
    ensures
        scan(state, text, from) == scan(
            ScanState { buffer: element.kept(), kind: element.kind(), ..state },
            text,
            from + element.text().len(),
        ),
{
    match element {
        Element::Bare(token) => {
            lemma_scan_token(state, text, from, token);
        },
        Element::Quoted(inner) => {
            lemma_scan_quoted(state, text, from, inner);
        },
    }
}

} // verus!

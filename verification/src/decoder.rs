//! The decoder: one pass over the characters of a text, from left to right,
//! that builds the tree of the containers it sees opened and closed.
//!
//! The pass keeps a stack of the containers that are open, a stack of the
//! keys that wait for their value, the characters of the literal that is
//! being read, what kind of literal they were taken for, and whether the
//! pass is inside a quoted string. Nothing is validated ahead: a character
//! that means nothing where it stands is passed over.
//!
//! This is not a parser of the JSON grammar, and three things about it are
//! worth knowing before it surprises:
//!
//! - A literal is stored by the comma or the closing bracket behind it, and
//!   a closing brace stores nothing. So `[1,2]` decodes to an array of two
//!   members, and `{"a":1,"b":2}` to an object of one: the member before the
//!   brace is lost unless a comma follows it.
//! - A comma and a closing bracket store the literal read so far even where
//!   nothing was read, as an empty string: `[]` decodes to an array of one
//!   empty string.
//! - What a bare literal is taken for goes by its last classified character
//!   alone, and the classes of letters overlap. Inside quotes no escape is
//!   interpreted, and the brackets, the colon and the comma act as they do
//!   outside.

use vstd::prelude::*;
use crate::error::{Failure, JsonError};
use crate::number::{is_digit, is_number, is_number_text};
use crate::text::{chars_of, spells};
use crate::value::{entries_view, insert_entry, insert_member, items_view, lemma_array_view, lemma_object_view, Json, JsonView};

verus! {

/// What the characters read so far were taken for.
#[derive(Clone, Copy, Debug, PartialEq, Eq, Structural)]
pub enum LiteralKind {
    /// Nothing in particular: the characters are a string.
    Text,
    Numeric,
    Boolean,
    Null,
}

/// The state of a pass between two characters.
pub struct ScanState {
    /// The open containers, the innermost last.
    pub stack: Seq<JsonView>,
    /// The keys that wait for their value, the latest last.
    pub keys: Seq<Seq<char>>,
    /// The characters of the literal that is being read.
    pub buffer: Seq<char>,
    /// What the last classified character was taken for.
    pub kind: LiteralKind,
    /// Whether the pass is inside a quoted string.
    pub in_string: bool,
    /// The container that was closed last.
    pub last: JsonView,
}

/// The state before the first character.
pub open spec fn initial_state() -> ScanState {
    ScanState {
        stack: Seq::empty(),
        keys: Seq::empty(),
        buffer: Seq::empty(),
        kind: LiteralKind::Text,
        in_string: false,
        last: JsonView::Null,
    }
}

/// The kind of literal that a character outside a string belongs to. The
/// three classes are tried in this order: a digit, the point and the minus
/// sign are numeric; `t r u e f a s` are boolean; `n u l` are null, of which
/// `u` is taken by the class before. Any other character belongs to none.
pub open spec fn class_of(c: char) -> Option<LiteralKind> {
    if is_digit(c) || c == '.' || c == '-' {
        Some(LiteralKind::Numeric)
    } else if c == 't' || c == 'r' || c == 'u' || c == 'e' || c == 'f' || c == 'a' || c == 's' {
        Some(LiteralKind::Boolean)
    } else if c == 'n' || c == 'l' {
        Some(LiteralKind::Null)
    } else {
        None
    }
}

/// The value of a literal: the characters `text`, read as `kind` says.
pub open spec fn literal_value(kind: LiteralKind, text: Seq<char>, offset: int) -> Result<
    JsonView,
    Failure,
> {
    match kind {
        LiteralKind::Numeric => if is_number(text) {
            Ok(JsonView::Number(text))
        } else {
            Err(Failure::MalformedNumber(offset))
        },
        LiteralKind::Boolean => if text == "true"@ {
            Ok(JsonView::Bool(true))
        } else if text == "false"@ {
            Ok(JsonView::Bool(false))
        } else {
            Err(Failure::MalformedBoolean(offset))
        },
        LiteralKind::Null => Ok(JsonView::Null),
        LiteralKind::Text => Ok(JsonView::String(text)),
    }
}

/// The container `top` after a literal was stored in it: an array takes it
/// as its last member; an object takes it under `key`, and drops it where
/// no key waits.
pub open spec fn store(top: JsonView, key: Option<Seq<char>>, item: JsonView) -> JsonView {
    match top {
        JsonView::Array(items) => JsonView::Array(items.push(item)),
        JsonView::Object(entries) => match key {
            Some(key) => JsonView::Object(insert_entry(entries, key, item)),
            None => top,
        },
        _ => top,
    }
}

/// The container `parent` after a closed container was added to it: an
/// array takes it as its last member; an object takes it under `key`, and
/// under the key `ERROR` where no key waits.
pub open spec fn attach(parent: JsonView, key: Option<Seq<char>>, item: JsonView) -> JsonView {
    match parent {
        JsonView::Array(items) => JsonView::Array(items.push(item)),
        JsonView::Object(entries) => JsonView::Object(
            insert_entry(
                entries,
                match key {
                    Some(key) => key,
                    None => "ERROR"@,
                },
                item,
            ),
        ),
        _ => parent,
    }
}

/// Flush: the literal read so far is stored in the innermost open
/// container. It is read first, so a malformed literal fails before a
/// missing container does. Only an object uses up a waiting key.
pub open spec fn flush(state: ScanState, offset: int) -> Result<ScanState, Failure> {
    match literal_value(state.kind, state.buffer, offset) {
        Err(failure) => Err(failure),
        Ok(item) => if state.stack.len() == 0 {
            Err(Failure::StructuralUnderflow(offset))
        } else {
            let top = state.stack.last();
            let keyed = top is Object && state.keys.len() > 0;
            let key = if keyed {
                Some(state.keys.last())
            } else {
                None
            };
            Ok(
                ScanState {
                    stack: state.stack.drop_last().push(store(top, key, item)),
                    keys: if keyed {
                        state.keys.drop_last()
                    } else {
                        state.keys
                    },
                    buffer: Seq::empty(),
                    kind: LiteralKind::Text,
                    ..state
                },
            )
        },
    }
}

/// Close: the innermost open container leaves the stack, becomes the
/// container closed last, and is added to the container that is innermost
/// now, if there is one. A waiting key is used up in any case.
pub open spec fn close(state: ScanState, offset: int) -> Result<ScanState, Failure> {
    if state.stack.len() == 0 {
        Err(Failure::StructuralUnderflow(offset))
    } else {
        let item = state.stack.last();
        let rest = state.stack.drop_last();
        let key = if state.keys.len() > 0 {
            Some(state.keys.last())
        } else {
            None
        };
        Ok(
            ScanState {
                stack: if rest.len() == 0 {
                    rest
                } else {
                    rest.drop_last().push(attach(rest.last(), key, item))
                },
                keys: if state.keys.len() > 0 {
                    state.keys.drop_last()
                } else {
                    state.keys
                },
                last: item,
                ..state
            },
        )
    }
}

/// What a character other than the quote does, inside a string and outside.
pub open spec fn act(state: ScanState, c: char, offset: int) -> Result<ScanState, Failure> {
    if c == '{' {
        Ok(ScanState { stack: state.stack.push(JsonView::Object(Seq::empty())), ..state })
    } else if c == '[' {
        Ok(ScanState { stack: state.stack.push(JsonView::Array(Seq::empty())), ..state })
    } else if c == '}' {
        close(state, offset)
    } else if c == ']' {
        match flush(state, offset) {
            Err(failure) => Err(failure),
            Ok(flushed) => close(flushed, offset),
        }
    } else if c == ':' {
        Ok(ScanState { keys: state.keys.push(state.buffer), buffer: Seq::empty(), ..state })
    } else if c == ',' {
        flush(state, offset)
    } else if !state.in_string && class_of(c) is Some {
        Ok(ScanState { buffer: state.buffer.push(c), kind: class_of(c)->0, ..state })
    } else {
        Ok(state)
    }
}

/// One step of the pass: the state after the character `c`, which stands at
/// `offset`. The quote switches between inside and outside a string and is
/// never kept. Any other character acts first, whichever side it is on, and
/// is then kept where the pass is inside a string.
pub open spec fn step(state: ScanState, c: char, offset: int) -> Result<ScanState, Failure> {
    if c == '"' {
        Ok(ScanState { in_string: !state.in_string, ..state })
    } else {
        match act(state, c, offset) {
            Err(failure) => Err(failure),
            Ok(next) => Ok(
                if next.in_string {
                    ScanState { buffer: next.buffer.push(c), ..next }
                } else {
                    next
                },
            ),
        }
    }
}

/// The state after the characters of `text` from `from` on, or the failure
/// of the first step that fails.
pub open spec fn scan(state: ScanState, text: Seq<char>, from: int) -> Result<ScanState, Failure>
    decreases text.len() - from,
{
    if 0 <= from < text.len() {
        match step(state, text[from], from) {
            Err(failure) => Err(failure),
            Ok(next) => scan(next, text, from + 1),
        }
    } else {
        Ok(state)
    }
}

/// What `text` decodes to: the container that was closed last, or `Null`
/// where none was closed. Containers that are still open at the end, and a
/// literal that was not stored, are dropped.
pub open spec fn decode(text: Seq<char>) -> Result<JsonView, Failure> {
    match scan(initial_state(), text, 0) {
        Err(failure) => Err(failure),
        Ok(state) => Ok(state.last),
    }
}

spec fn stack_view(stack: Seq<Json>) -> Seq<JsonView> {
    Seq::new(stack.len(), |i: int| stack[i]@)
}

spec fn keys_view(keys: Seq<String>) -> Seq<Seq<char>> {
    Seq::new(keys.len(), |i: int| keys[i]@)
}

/// The characters of a key, if there is one.
pub open spec fn key_view(key: Option<String>) -> Option<Seq<char>> {
    match key {
        Some(key) => Some(key@),
        None => None,
    }
}

/// A pass over a text, between two characters: the state machine that
/// `string_to_json` runs. A pass is made with `new`, takes the characters
/// one by one with `step`, and gives its result with `finish`. A pass that
/// has failed is of no further use.
pub struct Scanner {
    stack: Vec<Json>,
    keys: Vec<String>,
    buffer: String,
    kind: LiteralKind,
    in_string: bool,
    last: Json,
}

impl View for Scanner {
    type V = ScanState;

    closed spec fn view(&self) -> ScanState {
        ScanState {
            stack: stack_view(self.stack@),
            keys: keys_view(self.keys@),
            buffer: self.buffer@,
            kind: self.kind,
            in_string: self.in_string,
            last: self.last@,
        }
    }
}

/// The kind of literal that `c` belongs to outside a string, if any.
pub fn class_of_char(c: char) -> (kind: Option<LiteralKind>)
    ensures
        kind == class_of(c),
{
    if (c >= '0' && c <= '9') || c == '.' || c == '-' {
        Some(LiteralKind::Numeric)
    } else if c == 't' || c == 'r' || c == 'u' || c == 'e' || c == 'f' || c == 'a' || c == 's' {
        Some(LiteralKind::Boolean)
    } else if c == 'n' || c == 'l' {
        Some(LiteralKind::Null)
    } else {
        None
    }
}

/// The value of the literal `text`, read as `kind` says; `offset` is where
/// a failure is reported.
pub fn literal(kind: LiteralKind, text: String, offset: usize) -> (result: Result<Json, JsonError>)
    ensures
        match literal_value(kind, text@, offset as int) {
            Ok(value) => result matches Ok(json) && json@ == value,
            Err(failure) => result matches Err(error) && error@ == failure,
        },
{
    match kind {
        LiteralKind::Numeric => if is_number_text(text.as_str()) {
            Ok(Json::Number(text))
        } else {
            Err(JsonError::MalformedNumber(offset))
        },
        LiteralKind::Boolean => {
            let chars = chars_of(text.as_str());
            assert(chars@.skip(0) =~= text@);
            if spells(&chars, 0, "true") {
                Ok(Json::Bool(true))
            } else if spells(&chars, 0, "false") {
                Ok(Json::Bool(false))
            } else {
                Err(JsonError::MalformedBoolean(offset))
            }
        },
        LiteralKind::Null => Ok(Json::Null),
        LiteralKind::Text => Ok(Json::String(text)),
    }
}

/// Stores a literal in the container `top`: see `store`.
pub fn store_literal(top: Json, key: Option<String>, item: Json) -> (filled: Json)
    ensures
        filled@ == store(top@, key_view(key), item@),
{
    match top {
        Json::Array(mut items) => {
            let ghost before = items;
            items.push(Box::new(item));
            proof {
                lemma_array_view(before);
                lemma_array_view(items);
                assert(items_view(items@) =~= items_view(before@).push(item@));
            }
            Json::Array(items)
        },
        Json::Object(mut entries) => {
            proof {
                lemma_object_view(entries);
            }
            match key {
                Some(key) => {
                    insert_member(&mut entries, key, item);
                },
                None => {},
            }
            proof {
                lemma_object_view(entries);
            }
            Json::Object(entries)
        },
        scalar => scalar,
    }
}

/// Adds a closed container to the container `parent`: see `attach`.
pub fn add_to_previous(parent: Json, key: Option<String>, item: Json) -> (joined: Json)
    ensures
        joined@ == attach(parent@, key_view(key), item@),
{
    match parent {
        Json::Array(mut items) => {
            let ghost before = items;
            items.push(Box::new(item));
            proof {
                lemma_array_view(before);
                lemma_array_view(items);
                assert(items_view(items@) =~= items_view(before@).push(item@));
            }
            Json::Array(items)
        },
        Json::Object(mut entries) => {
            proof {
                lemma_object_view(entries);
            }
            let key = match key {
                Some(key) => key,
                None => String::from_str("ERROR"),
            };
            insert_member(&mut entries, key, item);
            proof {
                lemma_object_view(entries);
            }
            Json::Object(entries)
        },
        scalar => scalar,
    }
}

impl Scanner {
    /// A pass that has read nothing yet.
    pub fn new() -> (scanner: Scanner)
        ensures
            scanner@ == initial_state(),
    {
        let scanner = Scanner {
            stack: Vec::new(),
            keys: Vec::new(),
            buffer: String::new(),
            kind: LiteralKind::Text,
            in_string: false,
            last: Json::Null,
        };
        assert(scanner@.stack =~= Seq::empty());
        assert(scanner@.keys =~= Seq::empty());
        scanner
    }

    /// Stores the literal read so far in the innermost open container: see
    /// `flush`.
    pub fn flush_buffer(&mut self, offset: usize) -> (result: Result<(), JsonError>)
        ensures
            match flush(old(self)@, offset as int) {
                Ok(state) => result is Ok && final(self)@ == state,
                Err(failure) => result matches Err(error) && error@ == failure,
            },
    {
        let mut text = String::new();
        std::mem::swap(&mut self.buffer, &mut text);
        let kind = self.kind;
        self.kind = LiteralKind::Text;
        let item = literal(kind, text, offset)?;
        match self.stack.pop() {
            None => Err(JsonError::StructuralUnderflow(offset)),
            Some(top) => {
                let ghost rest = stack_view(self.stack@);
                assert(rest =~= old(self)@.stack.drop_last());
                let key = match top {
                    Json::Object(_) => {
                        let key = self.keys.pop();
                        if key.is_some() {
                            assert(keys_view(self.keys@) =~= old(self)@.keys.drop_last());
                        }
                        key
                    },
                    _ => None,
                };
                let top = store_literal(top, key, item);
                self.stack.push(top);
                assert(stack_view(self.stack@) =~= rest.push(top@));
                Ok(())
            },
        }
    }

    /// Closes the innermost open container: see `close`.
    pub fn close_container(&mut self, offset: usize) -> (result: Result<(), JsonError>)
        ensures
            match close(old(self)@, offset as int) {
                Ok(state) => result is Ok && final(self)@ == state,
                Err(failure) => result matches Err(error) && error@ == failure,
            },
    {
        match self.stack.pop() {
            None => Err(JsonError::StructuralUnderflow(offset)),
            Some(item) => {
                assert(stack_view(self.stack@) =~= old(self)@.stack.drop_last());
                let key = self.keys.pop();
                if key.is_some() {
                    assert(keys_view(self.keys@) =~= old(self)@.keys.drop_last());
                }
                match self.stack.pop() {
                    None => {
                        self.last = item;
                    },
                    Some(parent) => {
                        let ghost rest = stack_view(self.stack@);
                        assert(rest =~= old(self)@.stack.drop_last().drop_last());
                        self.last = item.clone();
                        let parent = add_to_previous(parent, key, item);
                        self.stack.push(parent);
                        assert(stack_view(self.stack@) =~= rest.push(parent@));
                    },
                }
                Ok(())
            },
        }
    }

    /// Takes the character `c`, which stands at `offset`: see `step`.
    pub fn step(&mut self, c: char, offset: usize) -> (result: Result<(), JsonError>)
        ensures
            match step(old(self)@, c, offset as int) {
                Ok(state) => result is Ok && final(self)@ == state,
                Err(failure) => result matches Err(error) && error@ == failure,
            },
    {
        if c == '"' {
            self.in_string = !self.in_string;
            return Ok(());
        }
        if c == '{' {
            let entries: Vec<(String, Box<Json>)> = Vec::new();
            proof {
                lemma_object_view(entries);
                assert(entries_view(entries@) =~= Seq::empty());
            }
            self.stack.push(Json::Object(entries));
            assert(stack_view(self.stack@) =~= old(self)@.stack.push(
                JsonView::Object(Seq::empty()),
            ));
        } else if c == '[' {
            let items: Vec<Box<Json>> = Vec::new();
            proof {
                lemma_array_view(items);
                assert(items_view(items@) =~= Seq::empty());
            }
            self.stack.push(Json::Array(items));
            assert(stack_view(self.stack@) =~= old(self)@.stack.push(
                JsonView::Array(Seq::empty()),
            ));
        } else if c == '}' {
            self.close_container(offset)?;
        } else if c == ']' {
            self.flush_buffer(offset)?;
            self.close_container(offset)?;
        } else if c == ':' {
            let mut key = String::new();
            std::mem::swap(&mut self.buffer, &mut key);
            self.keys.push(key);
            assert(keys_view(self.keys@) =~= old(self)@.keys.push(old(self)@.buffer));
        } else if c == ',' {
            self.flush_buffer(offset)?;
        } else if !self.in_string {
            match class_of_char(c) {
                Some(kind) => {
                    self.buffer.push(c);
                    self.kind = kind;
                },
                None => {},
            }
        }
        if self.in_string {
            self.buffer.push(c);
        }
        Ok(())
    }

    /// Ends the pass: the container that was closed last, or `Null`.
    pub fn finish(self) -> (json: Json)
        ensures
            json@ == self@.last,
    {
        self.last
    }
}

/// Decodes `s`: the container that was closed last while its characters
/// were read from left to right, or `Null` where none was closed.
///
/// The call fails at the first character whose step fails: with
/// `MalformedNumber` or `MalformedBoolean` where a literal that is to be
/// stored is not what it was taken for, with `StructuralUnderflow` where a
/// container is to be closed or filled and none is open.
pub fn string_to_json(s: &str) -> (result: Result<Json, JsonError>)
    ensures
        match decode(s@) {
            Ok(value) => result matches Ok(json) && json@ == value,
            Err(failure) => result matches Err(error) && error@ == failure,
        },
{
    let length = s.unicode_len();
    let mut scanner = Scanner::new();
    let mut offset: usize = 0;
    let chars = s.chars();
    for c in it: chars
        invariant
            it.seq() == s@,
            length == s@.len(),
            offset == it.index(),
            scan(initial_state(), s@, 0) == scan(scanner@, s@, offset as int),
    {
        scanner.step(c, offset)?;
        offset = offset + 1;
    }
    Ok(scanner.finish())
}

} // verus!

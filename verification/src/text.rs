//! Helpers on text: the standard strings seen as sequences of characters.

use vstd::prelude::*;

verus! {

/// `String::push` of the standard library appends one character to the end
/// of the string and leaves what was there as it is.
pub assume_specification[ std::string::String::push ](s: &mut std::string::String, ch: char)
    ensures
        final(s)@ == old(s)@.push(ch),
;

/// The characters of `text`, in order.
pub fn chars_of(text: &str) -> (chars: Vec<char>)
    ensures
        chars@ == text@,
{
    let mut chars: Vec<char> = Vec::new();
    let source = text.chars();
    for c in it: source
        invariant
            it.seq() == text@,
            chars@ == text@.take(it.index()),
    {
        chars.push(c);
    }
    chars
}

/// Whether the characters from `from` on are exactly those of `word`.
pub fn spells(chars: &Vec<char>, from: usize, word: &str) -> (same: bool)
    requires
        from <= chars.len(),
    ensures
        same == (chars@.skip(from as int) == word@),
{
    let len = word.unicode_len();
    if chars.len() - from != len {
        return false;
    }
    let mut i: usize = 0;
    while i < len
        invariant
            from <= chars.len(),
            chars.len() - from == len,
            len == word@.len(),
            i <= len,
            forall|j: int| 0 <= j < i ==> chars@[from + j] == word@[j],
        decreases len - i,
    {
        if chars[from + i] != word.get_char(i) {
            return false;
        }
        i = i + 1;
    }
    assert(chars@.skip(from as int) =~= word@);
    true
}

/// `count` spaces.
pub open spec fn spaces(count: nat) -> Seq<char> {
    Seq::new(count, |i: int| ' ')
}

/// Appends `count` spaces to `text`.
pub fn push_spaces(text: &mut String, count: usize)
    ensures
        final(text)@ == old(text)@ + spaces(count as nat),
{
    let mut i: usize = 0;
    while i < count
        invariant
            i <= count,
            text@ == old(text)@ + spaces(i as nat),
        decreases count - i,
    {
        text.push(' ');
        i = i + 1;
    }
}

} // verus!

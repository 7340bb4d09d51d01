//! The grammar of number literals.
//!
//! A number is carried as its decimal text. The text is checked against the
//! grammar below and never evaluated: turning it into a binary floating-point
//! value is left to the caller.
//!
//! ```text
//! Number  ::= Sign? ( Word | Decimal )
//! Word    ::= 'inf' | 'infinity' | 'nan'          (in any letter case)
//! Decimal ::= ( Digit+ | Digit+ '.' Digit* | Digit* '.' Digit+ ) Exp?
//! Exp     ::= ( 'e' | 'E' ) Sign? Digit+
//! Sign    ::= '+' | '-'
//! Digit   ::= '0' ... '9'
//! ```

use vstd::prelude::*;
use crate::text::chars_of;

verus! {

/// `Digit`.
pub open spec fn is_digit(c: char) -> bool {
    '0' <= c && c <= '9'
}

/// `Sign`.
pub open spec fn is_sign(c: char) -> bool {
    c == '+' || c == '-'
}

/// The index of the first character at or after `from` that is no digit,
/// or the length of `text` where only digits follow.
pub open spec fn digits_end(text: Seq<char>, from: int) -> int
    decreases text.len() - from,
{
    if 0 <= from < text.len() && is_digit(text[from]) {
        digits_end(text, from + 1)
    } else {
        from
    }
}

/// `Exp`, from `from` to the end of `text`.
pub open spec fn is_exponent_at(text: Seq<char>, from: int) -> bool {
    let digits = if from + 1 < text.len() && is_sign(text[from + 1]) {
        from + 2
    } else {
        from + 1
    };
    &&& 0 <= from < text.len()
    &&& (text[from] == 'e' || text[from] == 'E')
    &&& digits < text.len()
    &&& digits_end(text, digits) == text.len()
}

/// `Decimal`, from `from` to the end of `text`.
pub open spec fn is_decimal_at(text: Seq<char>, from: int) -> bool {
    let whole_end = digits_end(text, from);
    let point = whole_end < text.len() && text[whole_end] == '.';
    let fraction_end = if point {
        digits_end(text, whole_end + 1)
    } else {
        whole_end
    };
    let digit_count = if point {
        fraction_end - from - 1
    } else {
        fraction_end - from
    };
    &&& 0 <= from
    &&& digit_count > 0
    &&& (fraction_end == text.len() || is_exponent_at(text, fraction_end))
}

/// Whether `word` is `lower` letter for letter, each letter in either case;
/// `upper` is `lower` in capitals.
pub open spec fn is_word(word: Seq<char>, lower: Seq<char>, upper: Seq<char>) -> bool {
    &&& word.len() == lower.len()
    &&& forall|i: int| 0 <= i < word.len() ==> word[i] == lower[i] || word[i] == upper[i]
}

/// `Word`: one of the three names of a value that is no decimal.
pub open spec fn is_special(word: Seq<char>) -> bool {
    ||| is_word(word, "inf"@, "INF"@)
    ||| is_word(word, "nan"@, "NAN"@)
    ||| is_word(word, "infinity"@, "INFINITY"@)
}

/// `Number`: whether `text`, as a whole, is a number literal.
pub open spec fn is_number(text: Seq<char>) -> bool {
    let start: int = if text.len() > 0 && is_sign(text[0]) {
        1
    } else {
        0
    };
    is_decimal_at(text, start) || is_special(text.skip(start))
}

fn skip_digits(chars: &Vec<char>, from: usize) -> (end: usize)
    requires
        from <= chars.len(),
    ensures
        end == digits_end(chars@, from as int),
        from <= end <= chars.len(),
{
    let mut end: usize = from;
    while end < chars.len() && chars[end] >= '0' && chars[end] <= '9'
        invariant
            from <= end <= chars.len(),
            digits_end(chars@, from as int) == digits_end(chars@, end as int),
        decreases chars.len() - end,
    {
        end = end + 1;
    }
    end
}

fn exponent_at(chars: &Vec<char>, from: usize) -> (found: bool)
    requires
        from < chars.len(),
    ensures
        found == is_exponent_at(chars@, from as int),
{
    if chars[from] != 'e' && chars[from] != 'E' {
        return false;
    }
    let signed = from + 1 < chars.len() && (chars[from + 1] == '+' || chars[from + 1] == '-');
    let digits: usize = if signed {
        from + 2
    } else {
        from + 1
    };
    digits < chars.len() && skip_digits(chars, digits) == chars.len()
}

fn decimal_at(chars: &Vec<char>, from: usize) -> (found: bool)
    requires
        from <= chars.len(),
    ensures
        found == is_decimal_at(chars@, from as int),
{
    let whole_end = skip_digits(chars, from);
    let point = whole_end < chars.len() && chars[whole_end] == '.';
    let fraction_end = if point {
        skip_digits(chars, whole_end + 1)
    } else {
        whole_end
    };
    let digit_count = if point {
        fraction_end - from - 1
    } else {
        fraction_end - from
    };
    digit_count > 0 && (fraction_end == chars.len() || exponent_at(chars, fraction_end))
}

fn word_at(chars: &Vec<char>, from: usize, lower: &str, upper: &str) -> (found: bool)
    requires
        from <= chars.len(),
        lower@.len() == upper@.len(),
    ensures
        found == is_word(chars@.skip(from as int), lower@, upper@),
{
    let len = lower.unicode_len();
    if chars.len() - from != len {
        return false;
    }
    let ghost word = chars@.skip(from as int);
    let mut i: usize = 0;
    while i < len
        invariant
            from <= chars.len(),
            chars.len() - from == len,
            len == lower@.len(),
            len == upper@.len(),
            word == chars@.skip(from as int),
            i <= len,
            forall|j: int| 0 <= j < i ==> word[j] == lower@[j] || word[j] == upper@[j],
        decreases len - i,
    {
        let c = chars[from + i];
        if c != lower.get_char(i) && c != upper.get_char(i) {
            return false;
        }
        i = i + 1;
    }
    true
}

/// Whether `text`, as a whole, is a number literal.
pub fn is_number_text(text: &str) -> (valid: bool)
    ensures
        valid == is_number(text@),
{
    let chars = chars_of(text);
    let signed = chars.len() > 0 && (chars[0] == '+' || chars[0] == '-');
    let start: usize = if signed {
        1
    } else {
        0
    };
    proof {
        reveal_strlit("inf");
        reveal_strlit("INF");
        reveal_strlit("nan");
        reveal_strlit("NAN");
        reveal_strlit("infinity");
        reveal_strlit("INFINITY");
    }
    decimal_at(&chars, start) || word_at(&chars, start, "inf", "INF") || word_at(
        &chars,
        start,
        "nan",
        "NAN",
    ) || word_at(&chars, start, "infinity", "INFINITY")
}

} // verus!

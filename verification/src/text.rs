//! Character and string helpers shared by the lexer, the grammar and the
//! validator: ASCII case folding, decimal rendering, and conversions between
//! strings and character vectors.

use vstd::prelude::*;

verus! {

/// `String::push` of the standard library. Taken on trust, not proved: the
/// character is appended to the end of the string, and the characters before
/// it stay as they were.
pub assume_specification[ std::string::String::push ](s: &mut std::string::String, ch: char)
    ensures
        final(s)@ == old(s)@.push(ch),
;

/// The lowercase form of an ASCII letter; every other character is itself.
pub open spec fn ascii_lower(c: char) -> char {
    if 'A' <= c && c <= 'Z' {
        ((c as u8) + 32) as char
    } else {
        c
    }
}

/// A word with its ASCII letters in lowercase.
pub open spec fn folded(word: Seq<char>) -> Seq<char> {
    Seq::new(word.len(), |i: int| ascii_lower(word[i]))
}

/// The character for a decimal digit.
pub open spec fn digit(d: nat) -> char
    recommends
        d < 10,
{
    (48 + d) as char
}

/// The decimal rendering of a number, without leading zeros.
pub open spec fn decimal(n: nat) -> Seq<char>
    decreases n,
{
    if n < 10 {
        seq![digit(n)]
    } else {
        decimal(n / 10).push(digit(n % 10))
    }
}

/// The lowercase form of an ASCII letter; every other character is itself.
pub fn to_ascii_lower(c: char) -> (lower: char)
    ensures
        lower == ascii_lower(c),
{
    if 'A' <= c && c <= 'Z' {
        ((c as u8) + 32u8) as char
    } else {
        c
    }
}

/// The characters of a string, in order.
pub fn chars_of(text: &str) -> (chars: Vec<char>)
    ensures
        chars@ == text@,
{
    let mut chars: Vec<char> = Vec::new();
    for c in it: text.chars()
        invariant
            it.seq() == text@,
            chars@ == it.seq().take(it.index() as int),
    {
        chars.push(c);
    }
    chars
}

/// The string made of the given characters.
pub fn string_of(chars: &[char]) -> (text: String)
    ensures
        text@ == chars@,
{
    let mut text = String::new();
    let mut i: usize = 0;
    while i < chars.len()
        invariant
            i <= chars.len(),
            text@ == chars@.take(i as int),
        decreases chars.len() - i,
    {
        text.push(chars[i]);
        i += 1;
    }
    text
}

/// Appends the characters of `chars` to `text`.
pub fn push_chars(text: &mut String, chars: &[char])
    ensures
        final(text)@ == old(text)@ + chars@,
{
    let mut i: usize = 0;
    while i < chars.len()
        invariant
            i <= chars.len(),
            text@ == old(text)@ + chars@.take(i as int),
        decreases chars.len() - i,
    {
        text.push(chars[i]);
        i += 1;
    }
}

/// Appends the decimal rendering of `n` to `text`.
pub fn push_decimal(text: &mut String, n: usize)
    ensures
        final(text)@ == old(text)@ + decimal(n as nat),
    decreases n,
{
    if n >= 10 {
        push_decimal(text, n / 10);
    }
    let d: u8 = (n % 10) as u8;
    text.push((48u8 + d) as char);
}

/// Whether `word`, with its ASCII letters folded to lowercase, reads `literal`.
pub fn folds_to(word: &[char], literal: &str) -> (same: bool)
    ensures
        same == (folded(word@) == literal@),
{
    let mut i: usize = 0;
    let mut same = true;
    for c in it: literal.chars()
        invariant
            it.seq() == literal@,
            same ==> i == it.index() && i <= word.len(),
            same ==> forall|j: int| 0 <= j < i ==> folded(word@)[j] == literal@[j],
            !same ==> folded(word@) != literal@,
    {
        if same {
            if i < word.len() && to_ascii_lower(word[i]) == c {
                i += 1;
            } else {
                same = false;
            }
        }
    }
    assert(same && i == word.len() ==> folded(word@) =~= literal@);
    same && i == word.len()
}

} // verus!

//! Character sequences: conversion from strings, case folding and substring
//! containment.
//!
//! Every comparison in the crate is made on sequences of characters. A string
//! is turned into its characters once, folded to lower case once, and searched
//! as often as needed.

use vstd::prelude::*;
use vstd::utf8::is_ascii_chars;

verus! {

/// `needle` stands in `hay` at position `i`.
pub open spec fn occurs_at(hay: Seq<char>, needle: Seq<char>, i: int) -> bool {
    &&& 0 <= i
    &&& i + needle.len() <= hay.len()
    &&& hay.subrange(i, i + needle.len()) == needle
}

/// `needle` is a contiguous part of `hay`. The empty sequence is a part of
/// every sequence.
pub open spec fn contains(hay: Seq<char>, needle: Seq<char>) -> bool {
    exists|i: int| occurs_at(hay, needle, i)
}

/// The lower-case form of one ASCII character; any other character is left
/// as it is.
pub open spec fn ascii_lower(c: char) -> char {
    if 'A' <= c <= 'Z' {
        ((c as u8) + 32) as char
    } else {
        c
    }
}

/// The sequence with each character replaced by its `ascii_lower`.
pub open spec fn ascii_lowered(s: Seq<char>) -> Seq<char> {
    Seq::new(s.len(), |i: int| ascii_lower(s[i]))
}

/// What `str::to_lowercase` returns for a string with the characters `s`.
pub uninterp spec fn lowercase(s: Seq<char>) -> Seq<char>;

/// The lower-case form under which names, paths, descriptions and queries are
/// compared: character by character for ASCII text, the Unicode lower-case
/// mapping of the standard library for everything else.
pub open spec fn lowered(s: Seq<char>) -> Seq<char> {
    if is_ascii_chars(s) {
        ascii_lowered(s)
    } else {
        lowercase(s)
    }
}

/// Calls `str::to_lowercase`, whose result is a function of the characters of
/// its argument alone. Nothing is claimed of it beyond its name, `lowercase`.
#[verifier::external_body]
fn unicode_lowercase(s: &str) -> (r: String)
    ensures
        r@ == lowercase(s@),
{
    s.to_lowercase()
}

/// The characters of `s`, in order.
pub fn chars_of(s: &str) -> (r: Vec<char>)
    ensures
        r@ == s@,
{
    let mut out: Vec<char> = Vec::new();
    for c in it: s.chars()
        invariant
            out@ == s@.take(it.index() as int),
            it.seq() == s@,
    {
        out.push(c);
    }
    out
}

/// The lower-case form of one ASCII character.
pub fn lower_ascii_char(c: char) -> (r: char)
    ensures
        r == ascii_lower(c),
{
    if 'A' <= c && c <= 'Z' {
        ((c as u8) + 32) as char
    } else {
        c
    }
}

/// The characters of `s` in lower case.
pub fn lowered_chars(s: &str) -> (r: Vec<char>)
    ensures
        r@ == lowered(s@),
{
    if s.is_ascii() {
        let mut out: Vec<char> = Vec::new();
        for c in it: s.chars()
            invariant
                out@ == ascii_lowered(s@.take(it.index() as int)),
                it.seq() == s@,
        {
            out.push(lower_ascii_char(c));
        }
        out
    } else {
        let folded = unicode_lowercase(s);
        chars_of(folded.as_str())
    }
}

/// Whether `needle` stands in `hay` at `start`.
fn matches_at(hay: &Vec<char>, needle: &Vec<char>, start: usize) -> (b: bool)
    requires
        start + needle.len() <= hay.len(),
    ensures
        b == occurs_at(hay@, needle@, start as int),
{
    let mut j: usize = 0;
    while j < needle.len()
        invariant
            j <= needle.len(),
            start + needle.len() <= hay.len(),
            forall|k: int| 0 <= k < j ==> hay@[start + k] == needle@[k],
        decreases needle.len() - j,
    {
        if hay[start + j] != needle[j] {
            return false;
        }
        j += 1;
    }
    assert(hay@.subrange(start as int, start + needle.len()) =~= needle@);
    true
}

/// Whether `needle` is a contiguous part of `hay`.
pub fn has_substring(hay: &Vec<char>, needle: &Vec<char>) -> (b: bool)
    ensures
        b == contains(hay@, needle@),
{
    if needle.len() > hay.len() {
        return false;
    }
    let last: usize = hay.len() - needle.len();
    let mut i: usize = 0;
    while i < last
        invariant
            i <= last,
            last == hay.len() - needle.len(),
            forall|k: int| 0 <= k < i ==> !occurs_at(hay@, needle@, k),
        decreases last - i,
    {
        if matches_at(hay, needle, i) {
            return true;
        }
        i += 1;
    }
    matches_at(hay, needle, last)
}

/// The empty sequence is a part of every sequence.
pub proof fn lemma_contains_empty(hay: Seq<char>)
    ensures
        contains(hay, Seq::<char>::empty()),
{
    assert(hay.subrange(0, 0) =~= Seq::<char>::empty());
    assert(occurs_at(hay, Seq::<char>::empty(), 0));
}

/// Folding ASCII text to lower case keeps containment: a part of the text,
/// folded, is a part of the folded text.
pub proof fn lemma_ascii_lowered_keeps_contains(hay: Seq<char>, needle: Seq<char>)
    requires
        contains(hay, needle),
    ensures
        contains(ascii_lowered(hay), ascii_lowered(needle)),
{
    let i = choose|i: int| occurs_at(hay, needle, i);
    assert forall|k: int| 0 <= k < needle.len() implies ascii_lowered(hay)[i + k]
        == ascii_lowered(needle)[k] by {
        assert(hay.subrange(i, i + needle.len())[k] == needle[k]);
    }
    assert(ascii_lowered(hay).subrange(i, i + needle.len()) =~= ascii_lowered(needle));
    assert(occurs_at(ascii_lowered(hay), ascii_lowered(needle), i));
}

/// A part of ASCII text is ASCII text.
pub proof fn lemma_part_of_ascii_is_ascii(hay: Seq<char>, needle: Seq<char>)
    requires
        is_ascii_chars(hay),
        contains(hay, needle),
    ensures
        is_ascii_chars(needle),
{
    let i = choose|i: int| occurs_at(hay, needle, i);
    assert forall|k: int| 0 <= k < needle.len() implies '\0' <= #[trigger] needle[k]
        <= '\u{7f}' by {
        assert(hay.subrange(i, i + needle.len())[k] == hay[i + k]);
    }
}

} // verus!

//! Passage between `str`, `String` and rows of characters.

use vstd::prelude::*;
use crate::text::slice;

verus! {

/// The characters of `s`, in order.
pub fn to_chars(s: &str) -> (chars: Vec<char>)
    ensures
        chars@ == s@,
{
    let mut chars: Vec<char> = Vec::new();
    for c in it: s.chars()
        invariant
            chars@ == it.seq().take(it.index() as int),
            it.seq() == s@,
    {
        chars.push(c);
        assert(it.seq().take(it.index() + 1) =~= it.seq().take(it.index() as int).push(c));
    }
    chars
}

/// `String::push` of the standard library: the string afterwards is the
/// string before with `c` appended, and nothing else changes.
#[verifier::external_body]
pub(crate) fn push_char(s: &mut String, c: char)
    ensures
        final(s)@ == old(s)@.push(c),
{
    s.push(c);
}

/// A string of the characters `chars[from..to]`.
pub(crate) fn string_of(chars: &Vec<char>, from: usize, to: usize) -> (s: String)
    requires
        from <= to <= chars.len(),
    ensures
        s@ == slice(chars@, from as int, to as int),
{
    let mut s = String::new();
    let mut i: usize = from;
    while i < to
        invariant
            from <= i <= to <= chars.len(),
            s@ == slice(chars@, from as int, i as int),
        decreases to - i,
    {
        push_char(&mut s, chars[i]);
        assert(slice(chars@, from as int, i + 1) =~= slice(chars@, from as int, i as int).push(
            chars@[i as int],
        ));
        i = i + 1;
    }
    s
}

} // verus!

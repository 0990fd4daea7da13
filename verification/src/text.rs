//! Searching, trimming and splitting of character sequences.
//!
//! The specifications speak of `Seq<char>`; the executable functions work on
//! a `Vec<char>` and hand back positions in it, so that no text is copied
//! before it is known to be wanted.

use vstd::prelude::*;
use crate::chars::{is_whitespace, whitespace};

verus! {

/// Whether `i` is the position of the first `c` in `s`.
pub open spec fn is_first_at(s: Seq<char>, c: char, i: int) -> bool {
    &&& 0 <= i < s.len()
    &&& s[i] == c
    &&& forall|j: int| 0 <= j < i ==> s[j] != c
}

/// The position of the first `c` in `s`, if there is one.
pub open spec fn find(s: Seq<char>, c: char) -> Option<int>
    decreases s.len(),
{
    if s.len() == 0 {
        None
    } else if s[0] == c {
        Some(0)
    } else {
        match find(s.drop_first(), c) {
            Some(i) => Some(i + 1),
            None => None,
        }
    }
}

/// `find` gives the first occurrence, and gives `None` only where there is none.
pub proof fn lemma_find(s: Seq<char>, c: char)
    ensures
        match find(s, c) {
            Some(i) => is_first_at(s, c, i),
            None => forall|j: int| 0 <= j < s.len() ==> s[j] != c,
        },
    decreases s.len(),
{
    if s.len() > 0 && s[0] != c {
        let rest = s.drop_first();
        lemma_find(rest, c);
        assert(forall|j: int| 0 <= j < rest.len() ==> rest[j] == s[j + 1]);
        match find(rest, c) {
            Some(i) => {
                assert forall|j: int| 0 <= j < i + 1 implies s[j] != c by {
                    if j > 0 {
                        assert(rest[j - 1] == s[j]);
                    }
                }
            },
            None => {
                assert forall|j: int| 0 <= j < s.len() implies s[j] != c by {
                    if j > 0 {
                        assert(rest[j - 1] == s[j]);
                    }
                }
            },
        }
    }
}

/// The first occurrence is the one that `find` gives.
pub proof fn lemma_find_first(s: Seq<char>, c: char, i: int)
    requires
        is_first_at(s, c, i),
    ensures
        find(s, c) == Some(i),
{
    lemma_find(s, c);
    match find(s, c) {
        Some(k) => {
            if k < i {
                assert(s[k] != c);
            }
            if i < k {
                assert(s[i] != c);
            }
        },
        None => {
            assert(s[i] != c);
        },
    }
}

/// Where `c` does not occur, `find` gives `None`.
pub proof fn lemma_find_absent(s: Seq<char>, c: char)
    requires
        forall|j: int| 0 <= j < s.len() ==> s[j] != c,
    ensures
        find(s, c) is None,
{
    lemma_find(s, c);
    if let Some(k) = find(s, c) {
        assert(s[k] == c);
    }
}

/// `s` without the whitespace at its start.
pub open spec fn trim_start(s: Seq<char>) -> Seq<char>
    decreases s.len(),
{
    if s.len() > 0 && is_whitespace(s[0]) {
        trim_start(s.drop_first())
    } else {
        s
    }
}

/// `s` without the whitespace at its end.
pub open spec fn trim_end(s: Seq<char>) -> Seq<char>
    decreases s.len(),
{
    if s.len() > 0 && is_whitespace(s.last()) {
        trim_end(s.drop_last())
    } else {
        s
    }
}

/// `s` without the whitespace at its start and at its end.
pub open spec fn trim(s: Seq<char>) -> Seq<char> {
    trim_end(trim_start(s))
}

/// Whether every character of `s` is whitespace.
pub open spec fn is_blank(s: Seq<char>) -> bool {
    forall|i: int| 0 <= i < s.len() ==> is_whitespace(#[trigger] s[i])
}

/// Whether `s` neither starts nor ends with whitespace.
pub open spec fn is_trimmed(s: Seq<char>) -> bool {
    s.len() > 0 ==> !is_whitespace(s[0]) && !is_whitespace(s.last())
}

/// Text that is all whitespace has nothing left once it is trimmed.
pub proof fn lemma_trim_blank(s: Seq<char>)
    requires
        is_blank(s),
    ensures
        trim(s).len() == 0,
    decreases s.len(),
{
    if s.len() > 0 {
        assert(is_whitespace(s[0]));
        let rest = s.drop_first();
        assert forall|i: int| 0 <= i < rest.len() implies is_whitespace(#[trigger] rest[i]) by {
            assert(rest[i] == s[i + 1]);
        }
        lemma_trim_blank(rest);
    }
}

/// Text that neither starts nor ends with whitespace is left as it is.
pub proof fn lemma_trim_trimmed(s: Seq<char>)
    requires
        is_trimmed(s),
    ensures
        trim(s) == s,
{
}

/// `trim_start` takes away a beginning that is all whitespace, and what
/// is left does not start with whitespace.
pub proof fn lemma_trim_start_shape(s: Seq<char>)
    ensures
        exists|k: int|
            0 <= k <= s.len() && #[trigger] s.skip(k) == trim_start(s) && is_blank(s.take(k)),
        trim_start(s).len() > 0 ==> !is_whitespace(trim_start(s)[0]),
    decreases s.len(),
{
    if s.len() > 0 && is_whitespace(s[0]) {
        let rest = s.drop_first();
        lemma_trim_start_shape(rest);
        let k = choose|k: int|
            0 <= k <= rest.len() && #[trigger] rest.skip(k) == trim_start(rest) && is_blank(
                rest.take(k),
            );
        assert(s.skip(k + 1) =~= rest.skip(k));
        assert forall|i: int| 0 <= i < k + 1 implies is_whitespace(#[trigger] s.take(k + 1)[i]) by {
            if i > 0 {
                assert(s.take(k + 1)[i] == rest.take(k)[i - 1]);
            }
        }
    } else {
        assert(s.skip(0) =~= s);
        assert(is_blank(s.take(0)));
    }
}

/// `trim_end` takes away an end that is all whitespace, and what is left
/// does not end with whitespace.
pub proof fn lemma_trim_end_shape(s: Seq<char>)
    ensures
        exists|k: int|
            0 <= k <= s.len() && #[trigger] s.take(k) == trim_end(s) && is_blank(s.skip(k)),
        trim_end(s).len() > 0 ==> !is_whitespace(trim_end(s).last()),
    decreases s.len(),
{
    if s.len() > 0 && is_whitespace(s.last()) {
        let rest = s.drop_last();
        lemma_trim_end_shape(rest);
        let k = choose|k: int|
            0 <= k <= rest.len() && #[trigger] rest.take(k) == trim_end(rest) && is_blank(
                rest.skip(k),
            );
        assert(s.take(k) =~= rest.take(k));
        assert forall|i: int| 0 <= i < s.skip(k).len() implies is_whitespace(
            #[trigger] s.skip(k)[i],
        ) by {
            if i < rest.skip(k).len() {
                assert(s.skip(k)[i] == rest.skip(k)[i]);
            }
        }
    } else {
        assert(s.take(s.len() as int) =~= s);
        assert(is_blank(s.skip(s.len() as int)));
    }
}

/// What trimming leaves is a part of the text that neither starts nor ends
/// with whitespace, and all that stands before and after it is whitespace.
pub proof fn lemma_trim_shape(s: Seq<char>)
    ensures
        exists|from: int, to: int|
            0 <= from <= to <= s.len() && #[trigger] s.subrange(from, to) == trim(s) && is_blank(
                s.take(from),
            ) && is_blank(s.skip(to)),
        is_trimmed(trim(s)),
{
    lemma_trim_start_shape(s);
    let from = choose|k: int|
        0 <= k <= s.len() && #[trigger] s.skip(k) == trim_start(s) && is_blank(s.take(k));
    let t = trim_start(s);
    lemma_trim_end_shape(t);
    let k = choose|k: int| 0 <= k <= t.len() && #[trigger] t.take(k) == trim_end(t) && is_blank(
        t.skip(k),
    );
    assert(s.subrange(from, from + k) =~= t.take(k));
    assert(s.skip(from + k) =~= t.skip(k));
    if trim(s).len() > 0 {
        assert(trim(s)[0] == t[0]);
    }
}

/// The pieces of `s` between the occurrences of `sep`: one more piece than
/// there are separators, each of them free of `sep`.
pub open spec fn split(s: Seq<char>, sep: char) -> Seq<Seq<char>>
    decreases s.len(),
    via split_decreases
{
    match find(s, sep) {
        Some(i) => seq![s.take(i)] + split(s.skip(i + 1), sep),
        None => seq![s],
    }
}

#[via_fn]
proof fn split_decreases(s: Seq<char>, sep: char) {
    lemma_find(s, sep);
}

/// The part of `chars` from `from` up to, not including, `to`.
pub open spec fn slice(chars: Seq<char>, from: int, to: int) -> Seq<char> {
    chars.subrange(from, to)
}

/// Finds the first `c` at or after `from` and before `to`.
pub(crate) fn find_in(chars: &Vec<char>, from: usize, to: usize, c: char) -> (r: Option<usize>)
    requires
        from <= to <= chars.len(),
    ensures
        match find(slice(chars@, from as int, to as int), c) {
            Some(i) => r == Some((from + i) as usize) && from <= from + i < to,
            None => r is None,
        },
{
    let ghost part = slice(chars@, from as int, to as int);
    let mut i: usize = from;
    while i < to
        invariant
            from <= i <= to <= chars.len(),
            part == slice(chars@, from as int, to as int),
            forall|j: int| 0 <= j < i - from ==> part[j] != c,
        decreases to - i,
    {
        if chars[i] == c {
            proof {
                assert(part[i - from] == chars@[i as int]);
                lemma_find_first(part, c, i - from);
            }
            return Some(i);
        }
        assert(part[i - from] == chars@[i as int]);
        i = i + 1;
    }
    proof {
        lemma_find_absent(part, c);
    }
    None
}

/// The bounds of what is left of `chars[from..to]` once the whitespace at
/// both ends is taken away.
pub(crate) fn trim_in(chars: &Vec<char>, from: usize, to: usize) -> (r: (usize, usize))
    requires
        from <= to <= chars.len(),
    ensures
        from <= r.0 <= r.1 <= to,
        slice(chars@, r.0 as int, r.1 as int) == trim(slice(chars@, from as int, to as int)),
{
    let mut lo: usize = from;
    while lo < to && whitespace(chars[lo])
        invariant
            from <= lo <= to <= chars.len(),
            trim_start(slice(chars@, lo as int, to as int)) == trim_start(
                slice(chars@, from as int, to as int),
            ),
        decreases to - lo,
    {
        assert(slice(chars@, lo as int, to as int).drop_first() =~= slice(
            chars@,
            lo + 1,
            to as int,
        ));
        lo = lo + 1;
    }
    let mut hi: usize = to;
    while lo < hi && whitespace(chars[hi - 1])
        invariant
            lo <= hi <= to <= chars.len(),
            trim_end(slice(chars@, lo as int, hi as int)) == trim_end(
                slice(chars@, lo as int, to as int),
            ),
        decreases hi - lo,
    {
        assert(slice(chars@, lo as int, hi as int).drop_last() =~= slice(
            chars@,
            lo as int,
            hi - 1,
        ));
        hi = hi - 1;
    }
    (lo, hi)
}

/// The pieces that a list of bounds cuts out of `chars`.
pub open spec fn slices(chars: Seq<char>, bounds: Seq<(usize, usize)>) -> Seq<Seq<char>> {
    Seq::new(bounds.len(), |k: int| slice(chars, bounds[k].0 as int, bounds[k].1 as int))
}

/// Cuts `chars[from..to]` at every `sep` and gives the bounds of the pieces.
pub(crate) fn split_in(chars: &Vec<char>, from: usize, to: usize, sep: char) -> (r: Vec<(usize, usize)>)
    requires
        from <= to <= chars.len(),
    ensures
        slices(chars@, r@) == split(slice(chars@, from as int, to as int), sep),
        forall|k: int| 0 <= k < r.len() ==> from <= (#[trigger] r[k]).0 <= r[k].1 <= to,
{
    let mut out: Vec<(usize, usize)> = Vec::new();
    let mut start: usize = from;
    loop
        invariant_except_break
            slices(chars@, out@) + split(slice(chars@, start as int, to as int), sep) == split(
                slice(chars@, from as int, to as int),
                sep,
            ),
        invariant
            from <= start <= to <= chars.len(),
            forall|k: int| 0 <= k < out.len() ==> from <= (#[trigger] out[k]).0 <= out[k].1 <= to,
        ensures
            forall|k: int| 0 <= k < out.len() ==> from <= (#[trigger] out[k]).0 <= out[k].1 <= to,
            slices(chars@, out@) == split(slice(chars@, from as int, to as int), sep),
        decreases to - start,
    {
        let ghost rest = slice(chars@, start as int, to as int);
        let ghost before = slices(chars@, out@);
        match find_in(chars, start, to, sep) {
            Some(at) => {
                out.push((start, at));
                proof {
                    assert(rest.take(at - start) =~= slice(chars@, start as int, at as int));
                    assert(rest.skip(at - start + 1) =~= slice(chars@, at + 1, to as int));
                    assert(slices(chars@, out@) =~= before + seq![rest.take(at - start)]);
                    assert(split(rest, sep) == seq![rest.take(at - start)] + split(
                        rest.skip(at - start + 1),
                        sep,
                    ));
                    assert(before + (seq![rest.take(at - start)] + split(
                        rest.skip(at - start + 1),
                        sep,
                    )) =~= (before + seq![rest.take(at - start)]) + split(
                        rest.skip(at - start + 1),
                        sep,
                    ));
                }
                start = at + 1;
            },
            None => {
                out.push((start, to));
                proof {
                    assert(split(rest, sep) == seq![rest]);
                    assert(slices(chars@, out@) =~= before + seq![rest]);
                }
                break;
            },
        }
    }
    out
}

} // verus!

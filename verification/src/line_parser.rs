//! A character-by-character reader for lines of the form
//! `title[,key=value]*`.
//!
//! The reader is a small machine with four states. It is lenient in what
//! it skips between pairs and strict about the title: a letter first, then
//! letters, digits, `_` and `-` up to the first comma.

use vstd::prelude::*;
use crate::chars::{is_whitespace, whitespace};
use crate::strings::{push_char, to_chars};
use crate::topic::pairs_view;

verus! {

/// Whether `c` has the Unicode property `Alphabetic`.
pub uninterp spec fn alphabetic(c: char) -> bool;

/// Whether `c` has the Unicode property `Alphabetic` or is a number of one
/// of the general categories `Nd`, `Nl` and `No`.
pub uninterp spec fn alphanumeric(c: char) -> bool;

/// `char::is_alphabetic` of the standard library. What it returns depends
/// on the character alone; `alphabetic` is the name of that answer.
#[verifier::external_body]
fn is_alphabetic(c: char) -> (b: bool)
    ensures
        b == alphabetic(c),
{
    c.is_alphabetic()
}

/// `char::is_alphanumeric` of the standard library. What it returns
/// depends on the character alone; `alphanumeric` is the name of that answer.
#[verifier::external_body]
fn is_alphanumeric(c: char) -> (b: bool)
    ensures
        b == alphanumeric(c),
{
    c.is_alphanumeric()
}

/// Where the reader stands in a line.
pub enum State {
    /// Before the title.
    Begin,
    /// Inside the title.
    MatchingTitle,
    /// After a comma, reading a key.
    PairKey,
    /// After `=`, reading a value.
    PairValue,
}

/// The reader after some characters of a line.
pub ghost struct Reader {
    pub state: State,
    pub title: Seq<char>,
    pub key: Seq<char>,
    pub value: Seq<char>,
    pub pairs: Seq<(Seq<char>, Seq<char>)>,
}

/// The reader before the first character.
pub open spec fn start() -> Reader {
    Reader { state: State::Begin, title: seq![], key: seq![], value: seq![], pairs: seq![] }
}

/// The reader after one more character, or `None` where the character
/// cannot stand there.
pub open spec fn step(r: Reader, c: char) -> Option<Reader> {
    match r.state {
        State::Begin => if alphabetic(c) {
            Some(Reader { state: State::MatchingTitle, title: r.title.push(c), ..r })
        } else if is_whitespace(c) {
            Some(r)
        } else {
            None
        },
        State::MatchingTitle => if alphanumeric(c) || c == '_' || c == '-' {
            Some(Reader { title: r.title.push(c), ..r })
        } else if c == ',' {
            Some(Reader { state: State::PairKey, ..r })
        } else {
            None
        },
        State::PairKey => if alphanumeric(c) || c == '.' {
            Some(Reader { key: r.key.push(c), ..r })
        } else if c == '=' {
            Some(Reader { state: State::PairValue, ..r })
        } else if r.key.len() > 0 && is_whitespace(c) {
            None
        } else {
            Some(r)
        },
        State::PairValue => if alphanumeric(c) {
            Some(Reader { value: r.value.push(c), ..r })
        } else if c == ',' {
            Some(
                Reader {
                    state: State::PairKey,
                    key: seq![],
                    value: seq![],
                    pairs: r.pairs.push((r.key, r.value)),
                    ..r
                },
            )
        } else if r.key.len() > 0 && !is_whitespace(c) {
            None
        } else {
            Some(r)
        },
    }
}

/// The reader after all of `s`, or `None` where it stopped on the way.
pub open spec fn run(s: Seq<char>) -> Option<Reader>
    decreases s.len(),
{
    if s.len() == 0 {
        Some(start())
    } else {
        match run(s.drop_last()) {
            Some(r) => step(r, s.last()),
            None => None,
        }
    }
}

/// The title and the pairs of a line.
pub ghost struct Scanned {
    pub title: Seq<char>,
    pub pairs: Seq<(Seq<char>, Seq<char>)>,
}

/// What the reader has found when the line ends: the title and the pairs,
/// the pair in hand included where it has both its sides. A line without a
/// title, or one that ends in a key without a value, gives `None`.
pub open spec fn finish(r: Reader) -> Option<Scanned> {
    if r.key.len() > 0 && r.value.len() > 0 {
        Some(Scanned { title: r.title, pairs: r.pairs.push((r.key, r.value)) })
    } else if r.title.len() == 0 || r.key.len() > 0 {
        None
    } else {
        Some(Scanned { title: r.title, pairs: r.pairs })
    }
}

/// The title and the pairs of a line, or `None` where the reader rejects it.
pub open spec fn scan(s: Seq<char>) -> Option<Scanned> {
    match run(s) {
        Some(r) => finish(r),
        None => None,
    }
}

/// Whether `s` is a title: a letter, then letters, digits, `_` and `-`.
pub open spec fn is_title(s: Seq<char>) -> bool {
    &&& s.len() > 0
    &&& alphabetic(s[0])
    &&& forall|i: int|
        1 <= i < s.len() ==> alphanumeric(#[trigger] s[i]) || s[i] == '_' || s[i] == '-'
}

/// Whether `s` holds only letters, digits and `.`.
pub open spec fn is_key_text(s: Seq<char>) -> bool {
    forall|i: int| 0 <= i < s.len() ==> alphanumeric(#[trigger] s[i]) || s[i] == '.'
}

/// Whether `s` holds only letters and digits.
pub open spec fn is_value_text(s: Seq<char>) -> bool {
    forall|i: int| 0 <= i < s.len() ==> alphanumeric(#[trigger] s[i])
}

/// What holds of the reader wherever it stands.
pub open spec fn is_sound(r: Reader) -> bool {
    &&& r.state is Begin <==> r.title.len() == 0
    &&& r.title.len() > 0 ==> is_title(r.title)
    &&& r.state is Begin || r.state is MatchingTitle ==> r.key.len() == 0 && r.value.len() == 0
            && r.pairs.len() == 0
    &&& r.state is PairKey ==> r.value.len() == 0
    &&& is_key_text(r.key)
    &&& is_value_text(r.value)
    &&& forall|i: int|
        0 <= i < r.pairs.len() ==> is_key_text((#[trigger] r.pairs[i]).0) && is_value_text(
            r.pairs[i].1,
        )
}

/// A step keeps the reader sound.
pub proof fn lemma_step_sound(r: Reader, c: char)
    requires
        is_sound(r),
        step(r, c) is Some,
    ensures
        is_sound(step(r, c)->0),
{
    let next = step(r, c)->0;
    match r.state {
        State::Begin => {},
        State::MatchingTitle => {},
        State::PairKey => {},
        State::PairValue => {
            if !alphanumeric(c) && c == ',' {
                assert forall|i: int| 0 <= i < next.pairs.len() implies is_key_text(
                    (#[trigger] next.pairs[i]).0,
                ) && is_value_text(next.pairs[i].1) by {
                    if i < r.pairs.len() {
                        assert(next.pairs[i] == r.pairs[i]);
                    }
                }
            }
        },
    }
}

/// The reader is sound after any line that it has read to the end.
pub proof fn lemma_run_sound(s: Seq<char>)
    requires
        run(s) is Some,
    ensures
        is_sound(run(s)->0),
    decreases s.len(),
{
    if s.len() > 0 {
        lemma_run_sound(s.drop_last());
        lemma_step_sound(run(s.drop_last())->0, s.last());
    }
}

/// Once the reader has stopped, it stays stopped.
pub proof fn lemma_run_stuck(s: Seq<char>, k: int)
    requires
        0 <= k <= s.len(),
        run(s.take(k)) is None,
    ensures
        run(s) is None,
    decreases s.len() - k,
{
    if k < s.len() {
        assert(s.take(k + 1).drop_last() =~= s.take(k));
        lemma_run_stuck(s, k + 1);
    } else {
        assert(s.take(k) =~= s);
    }
}

/// Every line that the reader accepts has a well-formed title, keys of
/// letters, digits and `.`, and values of letters and digits.
pub proof fn lemma_scan_well_formed(s: Seq<char>)
    requires
        scan(s) is Some,
    ensures
        is_title(scan(s).unwrap().title),
        forall|i: int|
            0 <= i < scan(s).unwrap().pairs.len() ==> is_key_text(
                (#[trigger] scan(s).unwrap().pairs[i]).0,
            ) && is_value_text(scan(s).unwrap().pairs[i].1),
{
    lemma_run_sound(s);
    let r = run(s)->0;
    let pairs = scan(s).unwrap().pairs;
    assert forall|i: int| 0 <= i < pairs.len() implies is_key_text((#[trigger] pairs[i]).0)
        && is_value_text(pairs[i].1) by {
        if i < r.pairs.len() {
            assert(pairs[i] == r.pairs[i]);
        }
    }
}

/// Reads a line of the form `title[,key=value]*`.
///
/// Returns the title and the pairs, in the order of the line, and `None`
/// exactly where the reader rejects the line.
pub fn read_line(s: &str) -> (r: Option<(String, Vec<(String, String)>)>)
    ensures
        match scan(s@) {
            Some(found) => r matches Some(got) && got.0@ == found.title && pairs_view(got.1@)
                == found.pairs,
            None => r is None,
        },
{
    let chars = to_chars(s);
    let mut state = State::Begin;
    let mut title = String::new();
    let mut a = String::new();
    let mut b = String::new();
    let mut pairs: Vec<(String, String)> = Vec::new();
    let mut i: usize = 0;
    assert(chars@.take(0) =~= seq![]);
    assert(pairs_view(pairs@) =~= seq![]);
    while i < chars.len()
        invariant
            i <= chars.len(),
            chars@ == s@,
            run(chars@.take(i as int)) == Some(
                Reader {
                    state,
                    title: title@,
                    key: a@,
                    value: b@,
                    pairs: pairs_view(pairs@),
                },
            ),
        decreases chars.len() - i,
    {
        let c: char = chars[i];
        let ghost before = Reader {
            state,
            title: title@,
            key: a@,
            value: b@,
            pairs: pairs_view(pairs@),
        };
        proof {
            assert(chars@.take(i + 1).drop_last() =~= chars@.take(i as int));
            assert(chars@.take(i + 1).last() == c);
            assert(run(chars@.take(i + 1)) == step(before, c));
            if step(before, c) is None {
                lemma_run_stuck(chars@, i + 1);
            }
        }
        match state {
            State::Begin => {
                if is_alphabetic(c) {
                    state = State::MatchingTitle;
                    push_char(&mut title, c);
                } else if !whitespace(c) {
                    return None;
                }
            },
            State::MatchingTitle => {
                if is_alphanumeric(c) || c == '_' || c == '-' {
                    push_char(&mut title, c);
                } else if c == ',' {
                    state = State::PairKey;
                } else {
                    return None;
                }
            },
            State::PairKey => {
                if is_alphanumeric(c) || c == '.' {
                    push_char(&mut a, c);
                } else if c == '=' {
                    state = State::PairValue;
                } else if !a.as_str().is_empty() && whitespace(c) {
                    return None;
                }
            },
            State::PairValue => {
                if is_alphanumeric(c) {
                    push_char(&mut b, c);
                } else if c == ',' {
                    pairs.push((a, b));
                    a = String::new();
                    b = String::new();
                    state = State::PairKey;
                    assert(pairs_view(pairs@) =~= before.pairs.push((before.key, before.value)));
                } else if !a.as_str().is_empty() && !whitespace(c) {
                    return None;
                }
            },
        }
        i = i + 1;
    }
    assert(chars@.take(chars.len() as int) =~= chars@);
    if !a.as_str().is_empty() && !b.as_str().is_empty() {
        let ghost before = pairs_view(pairs@);
        let ghost key = a@;
        let ghost value = b@;
        pairs.push((a, b));
        assert(pairs_view(pairs@) =~= before.push((key, value)));
        Some((title, pairs))
    } else if title.as_str().is_empty() || !a.as_str().is_empty() {
        None
    } else {
        Some((title, pairs))
    }
}

} // verus!

//! The grammar of one line of a definition file.
//!
//! ```text
//! <empty-or-whitespace>                                -> Empty
//! # <any text>                                         -> Comment
//! <name>,<partitions>,<replication>[,<key>=<value>]* [# <comment>]
//!                                                      -> Definition / DefinitionWithComment
//! ```
//!
//! `classify` says what a line is; `read_line` computes it.

use vstd::prelude::*;
use crate::chars::{
    digit,
    is_digit,
    is_key_char,
    is_letter,
    is_name_char,
    is_value_char,
    letter,
};
use crate::number::{parse_i32, parse_i32_in};
use crate::strings::{string_of, to_chars};
use crate::chars::is_whitespace;
use crate::text::{
    find,
    find_in,
    is_blank,
    lemma_trim_blank,
    slice,
    slices,
    split,
    split_in,
    trim,
    trim_in,
};
use crate::topic::{pairs_view, InputLine, LineModel, TopicDefinition, TopicModel};

verus! {

/// A topic name: a letter, then letters, digits, `_` and `-`.
pub open spec fn is_name(s: Seq<char>) -> bool {
    &&& s.len() > 0
    &&& is_letter(s[0])
    &&& forall|i: int| 1 <= i < s.len() ==> is_name_char(#[trigger] s[i])
}

/// A configuration key: one or more letters, digits and `.`.
pub open spec fn is_key(s: Seq<char>) -> bool {
    s.len() > 0 && forall|i: int| 0 <= i < s.len() ==> is_key_char(#[trigger] s[i])
}

/// A configuration value: one or more letters and digits.
pub open spec fn is_value(s: Seq<char>) -> bool {
    s.len() > 0 && forall|i: int| 0 <= i < s.len() ==> is_value_char(#[trigger] s[i])
}

/// The key and value of a field `key=value`, cut at the first `=` and
/// trimmed, or `None` where the field has no `=` or a side is not well formed.
pub open spec fn parse_pair(field: Seq<char>) -> Option<(Seq<char>, Seq<char>)> {
    match find(field, '=') {
        Some(i) => {
            let key = trim(field.take(i));
            let value = trim(field.skip(i + 1));
            if is_key(key) && is_value(value) {
                Some((key, value))
            } else {
                None
            }
        },
        None => None,
    }
}

/// The pairs of a row of `key=value` fields, or `None` where one of the
/// fields is not well formed.
pub open spec fn parse_pairs(fields: Seq<Seq<char>>) -> Option<Seq<(Seq<char>, Seq<char>)>> {
    if forall|i: int| 0 <= i < fields.len() ==> (#[trigger] parse_pair(fields[i])) is Some {
        Some(Seq::new(fields.len(), |i: int| parse_pair(fields[i])->0))
    } else {
        None
    }
}

/// The topic that the text before any comment defines: the fields between
/// the commas are the name, the two numbers, and then the pairs.
pub open spec fn parse_definition(data: Seq<char>) -> Option<TopicModel> {
    let fields = split(data, ',');
    if fields.len() >= 3 && is_name(trim(fields[0])) && parse_i32(trim(fields[1])) is Some
        && parse_i32(trim(fields[2])) is Some && parse_pairs(fields.skip(3)) is Some {
        Some(
            TopicModel {
                name: trim(fields[0]),
                partitions: parse_i32(trim(fields[1]))->0,
                replication_factor: parse_i32(trim(fields[2]))->0,
                additional_config: parse_pairs(fields.skip(3))->0,
            },
        )
    } else {
        None
    }
}

/// The part of a line that is read as a definition: what stands before the
/// first `#`, or the whole line where there is none.
pub open spec fn data_part(text: Seq<char>) -> Seq<char> {
    match find(text, '#') {
        Some(i) => text.take(i),
        None => text,
    }
}

/// The kind of a line, or `None` where the line does not follow the grammar.
pub open spec fn classify(line: Seq<char>) -> Option<LineModel> {
    let text = trim(line);
    if text.len() == 0 {
        Some(LineModel::Empty)
    } else if text[0] == '#' {
        Some(LineModel::Comment(text.skip(1)))
    } else {
        match (parse_definition(data_part(text)), find(text, '#')) {
            (Some(topic), Some(i)) => Some(
                LineModel::DefinitionWithComment(topic, text.skip(i + 1)),
            ),
            (Some(topic), None) => Some(LineModel::Definition(topic)),
            (None, _) => None,
        }
    }
}

/// What `TopicDefinition` promises of its fields.
pub open spec fn is_well_formed(topic: TopicModel) -> bool {
    &&& is_name(topic.name)
    &&& i32::MIN <= topic.partitions <= i32::MAX
    &&& i32::MIN <= topic.replication_factor <= i32::MAX
    &&& forall|i: int|
        0 <= i < topic.additional_config.len() ==> is_key(
            (#[trigger] topic.additional_config[i]).0,
        ) && is_value(topic.additional_config[i].1)
}

/// Whether `chars[from..to]` is a topic name.
pub(crate) fn name_in(chars: &Vec<char>, from: usize, to: usize) -> (b: bool)
    requires
        from <= to <= chars.len(),
    ensures
        b == is_name(slice(chars@, from as int, to as int)),
{
    let ghost text = slice(chars@, from as int, to as int);
    if from == to {
        return false;
    }
    assert(text[0] == chars@[from as int]);
    if !letter(chars[from]) {
        return false;
    }
    let mut i: usize = from + 1;
    while i < to
        invariant
            from < i <= to <= chars.len(),
            text == slice(chars@, from as int, to as int),
            forall|j: int| 1 <= j < i - from ==> is_name_char(#[trigger] text[j]),
        decreases to - i,
    {
        let c: char = chars[i];
        assert(text[i - from] == c);
        if !(letter(c) || digit(c) || c == '_' || c == '-') {
            return false;
        }
        i = i + 1;
    }
    true
}

/// Whether `chars[from..to]` is a configuration key, or a configuration
/// value where `dots` is false.
pub(crate) fn word_in(chars: &Vec<char>, from: usize, to: usize, dots: bool) -> (b: bool)
    requires
        from <= to <= chars.len(),
    ensures
        dots ==> b == is_key(slice(chars@, from as int, to as int)),
        !dots ==> b == is_value(slice(chars@, from as int, to as int)),
{
    let ghost text = slice(chars@, from as int, to as int);
    if from == to {
        return false;
    }
    let mut i: usize = from;
    while i < to
        invariant
            from <= i <= to <= chars.len(),
            text == slice(chars@, from as int, to as int),
            dots ==> forall|j: int| 0 <= j < i - from ==> is_key_char(#[trigger] text[j]),
            !dots ==> forall|j: int| 0 <= j < i - from ==> is_value_char(#[trigger] text[j]),
        decreases to - i,
    {
        let c: char = chars[i];
        assert(text[i - from] == c);
        if !(letter(c) || digit(c) || (dots && c == '.')) {
            return false;
        }
        i = i + 1;
    }
    true
}

/// Reads the field `chars[from..to]` as `key=value`.
pub(crate) fn pair_in(chars: &Vec<char>, from: usize, to: usize) -> (r: Option<(String, String)>)
    requires
        from <= to <= chars.len(),
    ensures
        match parse_pair(slice(chars@, from as int, to as int)) {
            Some(pair) => r matches Some(found) && found.0@ == pair.0 && found.1@ == pair.1,
            None => r is None,
        },
{
    let ghost field = slice(chars@, from as int, to as int);
    match find_in(chars, from, to, '=') {
        Some(at) => {
            assert(field.take(at - from) =~= slice(chars@, from as int, at as int));
            assert(field.skip(at - from + 1) =~= slice(chars@, at + 1, to as int));
            let (k0, k1) = trim_in(chars, from, at);
            let (v0, v1) = trim_in(chars, at + 1, to);
            if word_in(chars, k0, k1, true) && word_in(chars, v0, v1, false) {
                Some((string_of(chars, k0, k1), string_of(chars, v0, v1)))
            } else {
                None
            }
        },
        None => None,
    }
}

/// Reads `chars[from..to]`, the text of a line before any comment, as a
/// topic definition.
pub(crate) fn definition_in(chars: &Vec<char>, from: usize, to: usize) -> (r: Option<TopicDefinition>)
    requires
        from <= to <= chars.len(),
    ensures
        match parse_definition(slice(chars@, from as int, to as int)) {
            Some(topic) => r is Some && r->0@ == topic,
            None => r is None,
        },
{
    let ghost data = slice(chars@, from as int, to as int);
    let ghost fields = split(data, ',');
    let bounds = split_in(chars, from, to, ',');
    assert(fields.len() == bounds.len());
    if bounds.len() < 3 {
        return None;
    }
    assert(fields[0] == slices(chars@, bounds@)[0]);
    assert(fields[1] == slices(chars@, bounds@)[1]);
    assert(fields[2] == slices(chars@, bounds@)[2]);
    let (n0, n1) = trim_in(chars, bounds[0].0, bounds[0].1);
    if !name_in(chars, n0, n1) {
        return None;
    }
    let (p0, p1) = trim_in(chars, bounds[1].0, bounds[1].1);
    let partitions: i32 = match parse_i32_in(chars, p0, p1) {
        Some(v) => v,
        None => {
            return None;
        },
    };
    let (r0, r1) = trim_in(chars, bounds[2].0, bounds[2].1);
    let replication_factor: i32 = match parse_i32_in(chars, r0, r1) {
        Some(v) => v,
        None => {
            return None;
        },
    };
    let ghost rest = fields.skip(3);
    let mut additional_config: Vec<(String, String)> = Vec::new();
    let mut k: usize = 3;
    while k < bounds.len()
        invariant
            3 <= k <= bounds.len(),
            from <= to <= chars.len(),
            fields == split(slice(chars@, from as int, to as int), ','),
            fields == slices(chars@, bounds@),
            rest == fields.skip(3),
            forall|j: int| 0 <= j < bounds.len() ==> from <= (#[trigger] bounds[j]).0 <= bounds[j].1 <= to,
            additional_config.len() == k - 3,
            forall|j: int| 0 <= j < k - 3 ==> (#[trigger] parse_pair(rest[j])) is Some,
            forall|j: int|
                0 <= j < k - 3 ==> (#[trigger] pairs_view(additional_config@)[j]) == parse_pair(
                    rest[j],
                )->0,
        decreases bounds.len() - k,
    {
        assert(rest[k - 3] == slices(chars@, bounds@)[k as int]);
        let ghost before = pairs_view(additional_config@);
        match pair_in(chars, bounds[k].0, bounds[k].1) {
            Some(pair) => {
                additional_config.push(pair);
                assert forall|j: int| 0 <= j < k - 2 implies (#[trigger] pairs_view(
                    additional_config@,
                )[j]) == parse_pair(rest[j])->0 by {
                    if j < k - 3 {
                        assert(pairs_view(additional_config@)[j] == before[j]);
                    }
                }
            },
            None => {
                assert(parse_pair(rest[k - 3]) is None);
                return None;
            },
        }
        k = k + 1;
    }
    assert(parse_pairs(rest) is Some);
    assert(pairs_view(additional_config@) =~= parse_pairs(rest)->0);
    Some(
        TopicDefinition {
            topic_name: string_of(chars, n0, n1),
            partitions,
            replication_factor,
            additional_config,
        },
    )
}

/// Reads one line of a definition file.
///
/// Returns the kind of the line, and `None` exactly where the line does not
/// follow the grammar.
pub fn read_line(s: &str) -> (r: Option<InputLine>)
    ensures
        match classify(s@) {
            Some(line) => r is Some && r->0@ == line,
            None => r is None,
        },
{
    let chars = to_chars(s);
    assert(slice(chars@, 0, chars.len() as int) =~= s@);
    let (lo, hi) = trim_in(&chars, 0, chars.len());
    let ghost text = slice(chars@, lo as int, hi as int);
    if lo == hi {
        return Some(InputLine::Empty);
    }
    assert(text[0] == chars@[lo as int]);
    if chars[lo] == '#' {
        assert(text.skip(1) =~= slice(chars@, lo + 1, hi as int));
        return Some(InputLine::Comment(string_of(&chars, lo + 1, hi)));
    }
    match find_in(&chars, lo, hi, '#') {
        Some(at) => {
            assert(text.take(at - lo) =~= slice(chars@, lo as int, at as int));
            assert(text.skip(at - lo + 1) =~= slice(chars@, at + 1, hi as int));
            match definition_in(&chars, lo, at) {
                Some(topic) => Some(
                    InputLine::DefinitionWithComment(topic, string_of(&chars, at + 1, hi)),
                ),
                None => None,
            }
        },
        None => match definition_in(&chars, lo, hi) {
            Some(topic) => Some(InputLine::Definition(topic)),
            None => None,
        },
    }
}

/// A line of nothing but whitespace is `Empty`.
pub proof fn lemma_blank_line_is_empty(line: Seq<char>)
    requires
        is_blank(line),
    ensures
        classify(line) == Some(LineModel::Empty),
{
    lemma_trim_blank(line);
}

/// A line whose first character after trimming is `#` is a `Comment`, and
/// the comment is all that follows that `#`.
pub proof fn lemma_hash_line_is_comment(line: Seq<char>)
    requires
        trim(line).len() > 0,
        trim(line)[0] == '#',
    ensures
        classify(line) == Some(LineModel::Comment(trim(line).skip(1))),
{
}

/// Whitespace is no part of a name.
pub proof fn lemma_no_whitespace_in_name(name: Seq<char>, i: int)
    requires
        0 <= i < name.len(),
        is_whitespace(name[i]),
    ensures
        !is_name(name),
{
    if i > 0 && is_name(name) {
        assert(is_name_char(name[i]));
    }
}

/// A line that is neither empty nor a comment is refused where it has
/// fewer than three fields before its comment, or where its first field
/// holds whitespace or starts with a digit.
pub proof fn lemma_bad_name_is_refused(line: Seq<char>)
    requires
        trim(line).len() > 0,
        trim(line)[0] != '#',
        ({
            let fields = split(data_part(trim(line)), ',');
            let name = trim(fields[0]);
            ||| fields.len() < 3
            ||| exists|i: int| 0 <= i < name.len() && is_whitespace(name[i])
            ||| name.len() > 0 && is_digit(name[0])
        }),
    ensures
        classify(line) is None,
{
    let fields = split(data_part(trim(line)), ',');
    let name = trim(fields[0]);
    if exists|i: int| 0 <= i < name.len() && is_whitespace(name[i]) {
        let i = choose|i: int| 0 <= i < name.len() && is_whitespace(name[i]);
        lemma_no_whitespace_in_name(name, i);
    }
}

/// Whatever a line defines is well formed.
pub proof fn lemma_topic_is_well_formed(line: Seq<char>)
    requires
        classify(line) is Some,
        classify(line)->0.topic() is Some,
    ensures
        is_well_formed(classify(line)->0.topic()->0),
{
    let topic = classify(line)->0.topic()->0;
    let fields = split(data_part(trim(line)), ',');
    assert(parse_definition(data_part(trim(line))) == Some(topic));
    let rest = fields.skip(3);
    assert forall|i: int| 0 <= i < topic.additional_config.len() implies is_key(
        (#[trigger] topic.additional_config[i]).0,
    ) && is_value(topic.additional_config[i].1) by {
        assert(parse_pair(rest[i]) is Some);
    }
}

} // verus!

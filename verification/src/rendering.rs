//! Writing a definition as a line, and reading it back.
//!
//! `render` is the inverse of the recognizer on well-formed tokens: the
//! line that it writes is read back as the definition it was written from.

use vstd::prelude::*;
use crate::chars::{is_digit, is_key_char, is_letter, is_name_char, is_value_char, is_whitespace};
use crate::number::{has_sign, magnitude, parse_i32};
use crate::recognizer::{classify, data_part, is_key, is_name, is_value, parse_pair, parse_pairs};
use crate::text::{
    find,
    lemma_find,
    lemma_find_absent,
    lemma_find_first,
    lemma_trim_trimmed,
    split,
    trim,
};
use crate::topic::{LineModel, TopicModel};

verus! {

/// The pieces with `sep` between each two of them.
pub open spec fn join(pieces: Seq<Seq<char>>, sep: char) -> Seq<char>
    decreases pieces.len(),
{
    if pieces.len() == 0 {
        seq![]
    } else if pieces.len() == 1 {
        pieces[0]
    } else {
        pieces[0] + seq![sep] + join(pieces.drop_first(), sep)
    }
}

/// A pair written as `key=value`.
pub open spec fn pair_field(pair: (Seq<char>, Seq<char>)) -> Seq<char> {
    pair.0 + seq!['='] + pair.1
}

/// The fields of a definition line: the name, the two numbers as they are
/// written, and the pairs.
pub open spec fn definition_fields(
    name: Seq<char>,
    partitions: Seq<char>,
    replication: Seq<char>,
    pairs: Seq<(Seq<char>, Seq<char>)>,
) -> Seq<Seq<char>> {
    seq![name, partitions, replication] + Seq::new(pairs.len(), |i: int| pair_field(pairs[i]))
}

/// The line `name,partitions,replication[,key=value]*`.
pub open spec fn render(
    name: Seq<char>,
    partitions: Seq<char>,
    replication: Seq<char>,
    pairs: Seq<(Seq<char>, Seq<char>)>,
) -> Seq<char> {
    join(definition_fields(name, partitions, replication, pairs), ',')
}

/// Whether `s` holds no `c`.
pub open spec fn is_free_of(s: Seq<char>, c: char) -> bool {
    forall|i: int| 0 <= i < s.len() ==> #[trigger] s[i] != c
}

/// Whether `s` holds neither whitespace nor `,` nor `#`.
pub open spec fn is_plain(s: Seq<char>) -> bool {
    forall|i: int|
        0 <= i < s.len() ==> !is_whitespace(#[trigger] s[i]) && s[i] != ',' && s[i] != '#'
}

/// Text without the separator is one piece.
pub proof fn lemma_split_one(s: Seq<char>, sep: char)
    requires
        is_free_of(s, sep),
    ensures
        split(s, sep) == seq![s],
{
    lemma_find_absent(s, sep);
}

/// A piece without the separator, then the separator, then more text:
/// the piece comes first, and the rest is split on its own.
pub proof fn lemma_split_first(piece: Seq<char>, rest: Seq<char>, sep: char)
    requires
        is_free_of(piece, sep),
    ensures
        split(piece + seq![sep] + rest, sep) == seq![piece] + split(rest, sep),
{
    let s = piece + seq![sep] + rest;
    let at = piece.len() as int;
    assert(s[at] == sep);
    assert forall|j: int| 0 <= j < at implies s[j] != sep by {
        assert(s[j] == piece[j]);
    }
    lemma_find_first(s, sep, at);
    assert(s.take(at) =~= piece);
    assert(s.skip(at + 1) =~= rest);
}

/// Splitting what was joined gives the pieces back, where none of them
/// holds the separator.
pub proof fn lemma_split_join(pieces: Seq<Seq<char>>, sep: char)
    requires
        pieces.len() > 0,
        forall|i: int| 0 <= i < pieces.len() ==> is_free_of(#[trigger] pieces[i], sep),
    ensures
        split(join(pieces, sep), sep) == pieces,
    decreases pieces.len(),
{
    if pieces.len() == 1 {
        lemma_split_one(pieces[0], sep);
        assert(seq![pieces[0]] =~= pieces);
    } else {
        let rest = pieces.drop_first();
        assert forall|i: int| 0 <= i < rest.len() implies is_free_of(#[trigger] rest[i], sep) by {
            assert(rest[i] == pieces[i + 1]);
        }
        lemma_split_join(rest, sep);
        lemma_split_first(pieces[0], join(rest, sep), sep);
        assert(seq![pieces[0]] + rest =~= pieces);
    }
}

/// Joining what was split gives the text back; there is at least one
/// piece, and no piece holds the separator.
pub proof fn lemma_join_split(s: Seq<char>, sep: char)
    ensures
        split(s, sep).len() > 0,
        forall|i: int| 0 <= i < split(s, sep).len() ==> is_free_of(#[trigger] split(s, sep)[i], sep),
        join(split(s, sep), sep) == s,
    decreases s.len(),
{
    lemma_find(s, sep);
    let pieces = split(s, sep);
    match find(s, sep) {
        Some(at) => {
            let rest = s.skip(at + 1);
            lemma_join_split(rest, sep);
            assert(pieces.drop_first() =~= split(rest, sep));
            assert(pieces[0] == s.take(at));
            assert forall|i: int| 0 <= i < pieces.len() implies is_free_of(
                #[trigger] pieces[i],
                sep,
            ) by {
                if i > 0 {
                    assert(pieces[i] == split(rest, sep)[i - 1]);
                }
            }
            assert(s.take(at) + seq![sep] + rest =~= s);
        },
        None => {},
    }
}

/// Every character of joined pieces is the separator or comes from a piece
/// of plain text.
pub proof fn lemma_join_plain(pieces: Seq<Seq<char>>, sep: char)
    requires
        forall|i: int| 0 <= i < pieces.len() ==> is_plain(#[trigger] pieces[i]),
    ensures
        forall|j: int|
            0 <= j < join(pieces, sep).len() ==> (#[trigger] join(pieces, sep)[j]) == sep || (
            !is_whitespace(join(pieces, sep)[j]) && join(pieces, sep)[j] != ',' && join(
                pieces,
                sep,
            )[j] != '#'),
        pieces.len() > 0 ==> join(pieces, sep).len() >= pieces[0].len(),
        pieces.len() > 0 && pieces[0].len() > 0 ==> join(pieces, sep)[0] == pieces[0][0],
    decreases pieces.len(),
{
    if pieces.len() == 1 {
        assert(is_plain(pieces[0]));
    } else if pieces.len() > 1 {
        let rest = pieces.drop_first();
        assert forall|i: int| 0 <= i < rest.len() implies is_plain(#[trigger] rest[i]) by {
            assert(rest[i] == pieces[i + 1]);
        }
        lemma_join_plain(rest, sep);
        let head = pieces[0];
        let tail = join(rest, sep);
        let all = join(pieces, sep);
        assert(is_plain(head));
        assert forall|j: int| 0 <= j < all.len() implies (#[trigger] all[j]) == sep || (
        !is_whitespace(all[j]) && all[j] != ',' && all[j] != '#') by {
            if j < head.len() {
                assert(all[j] == head[j]);
            } else if j == head.len() {
                assert(all[j] == sep);
            } else {
                assert(all[j] == tail[j - head.len() - 1]);
            }
        }
    }
}

/// A name is plain text.
pub proof fn lemma_name_is_plain(name: Seq<char>)
    requires
        is_name(name),
    ensures
        is_plain(name),
        name.len() > 0,
{
    assert forall|i: int| 0 <= i < name.len() implies !is_whitespace(#[trigger] name[i])
        && name[i] != ',' && name[i] != '#' by {
        if i == 0 {
            assert(is_letter(name[0]));
        } else {
            assert(is_name_char(name[i]));
        }
    }
}

/// A number is plain text.
pub proof fn lemma_number_is_plain(number: Seq<char>)
    requires
        parse_i32(number) is Some,
    ensures
        is_plain(number),
{
    let digits = magnitude(number);
    assert forall|i: int| 0 <= i < number.len() implies !is_whitespace(#[trigger] number[i])
        && number[i] != ',' && number[i] != '#' by {
        if has_sign(number) {
            if i > 0 {
                assert(digits[i - 1] == number[i]);
                assert(is_digit(digits[i - 1]));
            }
        } else {
            assert(is_digit(digits[i]));
        }
    }
}

/// A pair written as `key=value` is plain text, and is read back as the
/// pair.
pub proof fn lemma_pair_field(pair: (Seq<char>, Seq<char>))
    requires
        is_key(pair.0),
        is_value(pair.1),
    ensures
        is_plain(pair_field(pair)),
        parse_pair(pair_field(pair)) == Some(pair),
{
    let key = pair.0;
    let value = pair.1;
    let field = pair_field(pair);
    let at = key.len() as int;
    assert forall|i: int| 0 <= i < field.len() implies !is_whitespace(#[trigger] field[i])
        && field[i] != ',' && field[i] != '#' by {
        if i < at {
            assert(field[i] == key[i]);
            assert(is_key_char(key[i]));
        } else if i > at {
            assert(field[i] == value[i - at - 1]);
            assert(is_value_char(value[i - at - 1]));
        }
    }
    assert(field[at] == '=');
    assert forall|j: int| 0 <= j < at implies field[j] != '=' by {
        assert(field[j] == key[j]);
        assert(is_key_char(key[j]));
    }
    lemma_find_first(field, '=', at);
    assert(field.take(at) =~= key);
    assert(field.skip(at + 1) =~= value);
    assert(is_key_char(key[0]));
    assert(is_key_char(key.last()));
    assert(is_value_char(value[0]));
    assert(is_value_char(value.last()));
    lemma_trim_trimmed(key);
    lemma_trim_trimmed(value);
}

/// Plain text is left as it is by trimming.
pub proof fn lemma_trim_plain(s: Seq<char>)
    requires
        is_plain(s),
    ensures
        trim(s) == s,
{
    if s.len() > 0 {
        assert(!is_whitespace(s[0]));
        assert(!is_whitespace(s.last()));
    }
    lemma_trim_trimmed(s);
}

/// A line written from a well-formed name, two numbers and well-formed
/// pairs is read as a `Definition` that holds exactly these: the name, the
/// values of the two numbers, and the pairs in their order.
pub proof fn lemma_rendered_definition_is_read_back(
    name: Seq<char>,
    partitions: Seq<char>,
    replication: Seq<char>,
    pairs: Seq<(Seq<char>, Seq<char>)>,
)
    requires
        is_name(name),
        parse_i32(partitions) is Some,
        parse_i32(replication) is Some,
        forall|i: int| 0 <= i < pairs.len() ==> is_key((#[trigger] pairs[i]).0) && is_value(pairs[i].1),
    ensures
        classify(render(name, partitions, replication, pairs)) == Some(
            LineModel::Definition(
                TopicModel {
                    name,
                    partitions: parse_i32(partitions)->0,
                    replication_factor: parse_i32(replication)->0,
                    additional_config: pairs,
                },
            ),
        ),
{
    let fields = definition_fields(name, partitions, replication, pairs);
    let line = render(name, partitions, replication, pairs);
    lemma_name_is_plain(name);
    lemma_number_is_plain(partitions);
    lemma_number_is_plain(replication);
    assert forall|i: int| 0 <= i < fields.len() implies is_plain(#[trigger] fields[i]) by {
        if i >= 3 {
            assert(fields[i] == pair_field(pairs[i - 3]));
            lemma_pair_field(pairs[i - 3]);
        }
    }
    assert forall|i: int| 0 <= i < fields.len() implies is_free_of(#[trigger] fields[i], ',') by {
        assert(is_plain(fields[i]));
    }
    lemma_join_plain(fields, ',');
    lemma_split_join(fields, ',');
    assert(fields[0] == name);
    assert(line.len() > 0);
    assert(line[0] == name[0]);
    // The line starts with a letter and ends with a character of a field
    // or, were its last field empty, with a comma: trimming leaves it.
    assert(!is_whitespace(line[0]));
    assert(!is_whitespace(line.last()));
    lemma_trim_trimmed(line);
    assert(is_free_of(line, '#'));
    lemma_find_absent(line, '#');
    assert(data_part(line) == line);
    lemma_trim_plain(name);
    lemma_trim_plain(partitions);
    lemma_trim_plain(replication);
    let rest = fields.skip(3);
    assert forall|i: int| 0 <= i < rest.len() implies (#[trigger] parse_pair(rest[i])) == Some(
        pairs[i],
    ) by {
        assert(rest[i] == pair_field(pairs[i]));
        lemma_pair_field(pairs[i]);
    }
    assert(parse_pairs(rest) is Some);
    assert(parse_pairs(rest)->0 =~= pairs);
}

} // verus!

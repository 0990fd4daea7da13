//! Reading all the lines of a definition file.
//!
//! A file is read as a whole or not at all: the first line that does not
//! follow the grammar ends the reading, and nothing of the file is handed on.

use vstd::prelude::*;
use crate::recognizer::{classify, read_line};
use crate::topic::{InputLine, LineModel, TopicDefinition, TopicModel};

verus! {

/// A line that does not follow the grammar.
#[derive(Debug, PartialEq, Eq)]
pub struct ParseFailure {
    /// The number of the line in its file; the first line has number 1.
    pub line_number: usize,
    /// The line as it stands in the file.
    pub raw_text: String,
}

/// The text of each line.
pub open spec fn texts(lines: Seq<String>) -> Seq<Seq<char>> {
    Seq::new(lines.len(), |i: int| lines[i]@)
}

/// Whether every line follows the grammar.
pub open spec fn all_valid(lines: Seq<Seq<char>>) -> bool {
    forall|i: int| 0 <= i < lines.len() ==> (#[trigger] classify(lines[i])) is Some
}

/// Whether line `i`, counted from 0, is the first that does not follow the
/// grammar.
pub open spec fn is_first_failure(lines: Seq<Seq<char>>, i: int) -> bool {
    &&& 0 <= i < lines.len()
    &&& classify(lines[i]) is None
    &&& forall|j: int| 0 <= j < i ==> (#[trigger] classify(lines[j])) is Some
}

/// Each line with its number, counted from 1, and its kind.
pub open spec fn numbered(lines: Seq<Seq<char>>) -> Seq<(usize, LineModel)> {
    Seq::new(lines.len(), |i: int| ((i + 1) as usize, classify(lines[i]).unwrap()))
}

/// What a row of numbered lines holds, as mathematical values.
pub open spec fn lines_view(lines: Seq<(usize, InputLine)>) -> Seq<(usize, LineModel)> {
    Seq::new(lines.len(), |i: int| (lines[i].0, lines[i].1@))
}

/// What a row of numbered definitions holds, as mathematical values.
pub open spec fn definitions_view(definitions: Seq<(usize, TopicDefinition)>) -> Seq<
    (usize, TopicModel),
> {
    Seq::new(definitions.len(), |i: int| (definitions[i].0, definitions[i].1@))
}

/// The lines that define a topic, each with its number, in their order.
pub open spec fn definitions(lines: Seq<(usize, LineModel)>) -> Seq<(usize, TopicModel)>
    decreases lines.len(),
{
    if lines.len() == 0 {
        seq![]
    } else {
        let before = definitions(lines.drop_last());
        match lines.last().1.topic() {
            Some(topic) => before.push((lines.last().0, topic)),
            None => before,
        }
    }
}

/// Whether the numbers grow from each entry to the next.
pub open spec fn is_ascending<T>(entries: Seq<(usize, T)>) -> bool {
    forall|i: int, j: int| 0 <= i < j < entries.len() ==> entries[i].0 < entries[j].0
}

/// Reads the lines of a file, in order.
///
/// Succeeds exactly where every line follows the grammar, and then gives
/// each line's number and kind. Otherwise it gives the first line that does
/// not follow the grammar, with its number.
pub fn read_input(lines: &Vec<String>) -> (r: Result<Vec<(usize, InputLine)>, ParseFailure>)
    ensures
        match r {
            Ok(read) => {
                &&& all_valid(texts(lines@))
                &&& lines_view(read@) == numbered(texts(lines@))
                &&& is_ascending(lines_view(read@))
            },
            Err(failure) => {
                &&& 1 <= failure.line_number <= lines.len()
                &&& is_first_failure(texts(lines@), failure.line_number - 1)
                &&& failure.raw_text@ == lines[failure.line_number - 1]@
            },
        },
{
    let mut read: Vec<(usize, InputLine)> = Vec::new();
    let mut i: usize = 0;
    while i < lines.len()
        invariant
            i <= lines.len(),
            read.len() == i,
            forall|j: int| 0 <= j < i ==> (#[trigger] classify(texts(lines@)[j])) is Some,
            forall|j: int|
                0 <= j < i ==> (#[trigger] lines_view(read@)[j]) == numbered(texts(lines@))[j],
        decreases lines.len() - i,
    {
        let ghost before = lines_view(read@);
        assert(texts(lines@)[i as int] == lines[i as int]@);
        match read_line(lines[i].as_str()) {
            Some(line) => {
                read.push((i + 1, line));
                assert forall|j: int| 0 <= j < i + 1 implies (#[trigger] lines_view(read@)[j])
                    == numbered(texts(lines@))[j] by {
                    if j < i {
                        assert(lines_view(read@)[j] == before[j]);
                    }
                }
            },
            None => {
                return Err(ParseFailure { line_number: i + 1, raw_text: lines[i].clone() });
            },
        }
        i = i + 1;
    }
    assert(lines_view(read@) =~= numbered(texts(lines@)));
    proof {
        lemma_numbered_is_ascending(texts(lines@));
    }
    Ok(read)
}

/// Keeps the lines that define a topic, each with its number.
pub fn definitions_of(lines: Vec<(usize, InputLine)>) -> (r: Vec<(usize, TopicDefinition)>)
    ensures
        definitions_view(r@) == definitions(lines_view(lines@)),
{
    let ghost source = lines@;
    let ghost all = lines_view(lines@);
    let mut kept: Vec<(usize, TopicDefinition)> = Vec::new();
    assert(definitions_view(kept@) =~= seq![]);
    assert(all.take(0) =~= seq![]);
    for entry in it: lines
        invariant
            it.seq() == source,
            all == lines_view(source),
            definitions_view(kept@) == definitions(all.take(it.index() as int)),
    {
        let ghost before = definitions_view(kept@);
        let ghost done = it.index() as int;
        assert(all.take(done + 1).drop_last() =~= all.take(done));
        assert(all.take(done + 1).last() == (entry.0, entry.1@));
        let (number, line) = entry;
        match line {
            InputLine::Definition(topic) => {
                kept.push((number, topic));
                assert(definitions_view(kept@) =~= before.push((number, topic@)));
            },
            InputLine::DefinitionWithComment(topic, _) => {
                kept.push((number, topic));
                assert(definitions_view(kept@) =~= before.push((number, topic@)));
            },
            _ => {},
        }
    }
    assert(all.take(source.len() as int) =~= all);
    kept
}

/// A file with a line that does not follow the grammar is refused as a
/// whole, wherever the line stands: not every line is valid, so reading
/// gives no lines at all, and it names the first such line.
pub proof fn lemma_malformed_line_fails_the_file(lines: Seq<Seq<char>>, i: int)
    requires
        0 <= i < lines.len(),
        classify(lines[i]) is None,
    ensures
        !all_valid(lines),
        exists|k: int| 0 <= k <= i && is_first_failure(lines, k),
    decreases i,
{
    if exists|j: int| 0 <= j < i && classify(lines[j]) is None {
        let j = choose|j: int| 0 <= j < i && classify(lines[j]) is None;
        lemma_malformed_line_fails_the_file(lines, j);
    } else {
        assert(is_first_failure(lines, i));
    }
}

/// The lines of a file come out with growing numbers.
pub proof fn lemma_numbered_is_ascending(lines: Seq<Seq<char>>)
    requires
        lines.len() <= usize::MAX,
    ensures
        is_ascending(numbered(lines)),
{
}

/// Picking the definitions out of numbered lines keeps their order: each
/// definition has the number of a line that defines it, and where the
/// numbers of the lines grow, so do those of the definitions.
pub proof fn lemma_definitions_keep_order(lines: Seq<(usize, LineModel)>)
    ensures
        forall|k: int|
            0 <= k < definitions(lines).len() ==> exists|i: int|
                0 <= i < lines.len() && #[trigger] lines[i] == (
                    (#[trigger] definitions(lines)[k]).0,
                    lines[i].1,
                ) && lines[i].1.topic() == Some(definitions(lines)[k].1),
        is_ascending(lines) ==> is_ascending(definitions(lines)),
    decreases lines.len(),
{
    if lines.len() > 0 {
        let before = lines.drop_last();
        let last = lines.len() - 1;
        lemma_definitions_keep_order(before);
        assert forall|k: int| 0 <= k < definitions(lines).len() implies exists|i: int|
            0 <= i < lines.len() && #[trigger] lines[i] == (
                (#[trigger] definitions(lines)[k]).0,
                lines[i].1,
            ) && lines[i].1.topic() == Some(definitions(lines)[k].1) by {
            if k < definitions(before).len() {
                let i = choose|i: int|
                    0 <= i < before.len() && #[trigger] before[i] == (
                        definitions(before)[k].0,
                        before[i].1,
                    ) && before[i].1.topic() == Some(definitions(before)[k].1);
                assert(lines[i] == before[i]);
            } else {
                assert(lines[last] == (definitions(lines)[k].0, lines[last].1));
            }
        }
        if is_ascending(lines) {
            assert forall|a: int, b: int| 0 <= a < b < before.len() implies before[a].0
                < before[b].0 by {
                assert(before[a] == lines[a] && before[b] == lines[b]);
            }
            assert forall|a: int, b: int| 0 <= a < b < definitions(lines).len() implies definitions(
                lines,
            )[a].0 < definitions(lines)[b].0 by {
                if b == definitions(before).len() {
                    let i = choose|i: int|
                        0 <= i < before.len() && #[trigger] before[i] == (
                            definitions(before)[a].0,
                            before[i].1,
                        ) && before[i].1.topic() == Some(definitions(before)[a].1);
                    assert(lines[i] == before[i]);
                    assert(lines[i].0 < lines[last].0);
                }
            }
        }
    }
}

} // verus!

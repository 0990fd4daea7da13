//! The values that a definition file is read into.

use vstd::prelude::*;

verus! {

/// A topic to create.
#[derive(Debug, PartialEq, Eq)]
pub struct TopicDefinition {
    pub topic_name: String,
    pub partitions: i32,
    pub replication_factor: i32,
    /// Additional topic configuration, such as `cleanup.policy=compact`,
    /// in the order in which the line gives it. A key may occur twice.
    pub additional_config: Vec<(String, String)>,
}

/// What a `TopicDefinition` holds, as mathematical values.
pub ghost struct TopicModel {
    pub name: Seq<char>,
    pub partitions: int,
    pub replication_factor: int,
    pub additional_config: Seq<(Seq<char>, Seq<char>)>,
}

/// The key and value of each pair, as character sequences.
pub open spec fn pairs_view(pairs: Seq<(String, String)>) -> Seq<(Seq<char>, Seq<char>)> {
    Seq::new(pairs.len(), |i: int| (pairs[i].0@, pairs[i].1@))
}

impl View for TopicDefinition {
    type V = TopicModel;

    open spec fn view(&self) -> TopicModel {
        TopicModel {
            name: self.topic_name@,
            partitions: self.partitions as int,
            replication_factor: self.replication_factor as int,
            additional_config: pairs_view(self.additional_config@),
        }
    }
}

/// One line of a definition file.
#[derive(Debug, PartialEq, Eq)]
pub enum InputLine {
    /// A line that starts with `#`; holds what follows the `#`.
    Comment(String),
    /// A topic definition.
    Definition(TopicDefinition),
    /// A topic definition followed by `#` and a comment.
    DefinitionWithComment(TopicDefinition, String),
    /// A line that holds nothing but whitespace.
    Empty,
}

/// What an `InputLine` holds, as mathematical values.
pub ghost enum LineModel {
    Comment(Seq<char>),
    Definition(TopicModel),
    DefinitionWithComment(TopicModel, Seq<char>),
    Empty,
}

impl View for InputLine {
    type V = LineModel;

    open spec fn view(&self) -> LineModel {
        match self {
            InputLine::Comment(text) => LineModel::Comment(text@),
            InputLine::Definition(topic) => LineModel::Definition(topic@),
            InputLine::DefinitionWithComment(topic, text) => LineModel::DefinitionWithComment(
                topic@,
                text@,
            ),
            InputLine::Empty => LineModel::Empty,
        }
    }
}

impl LineModel {
    /// The topic that the line defines, if it defines one.
    pub open spec fn topic(self) -> Option<TopicModel> {
        match self {
            LineModel::Definition(topic) => Some(topic),
            LineModel::DefinitionWithComment(topic, _) => Some(topic),
            _ => None,
        }
    }
}

} // verus!

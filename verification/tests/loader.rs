use kafka_bulk_topic_create::loader::{definitions_of, read_input, ParseFailure};
use kafka_bulk_topic_create::topic::{InputLine, TopicDefinition};

fn lines(text: &[&str]) -> Vec<String> {
    text.iter().map(|s| s.to_string()).collect()
}

fn topic(name: &str, partitions: i32, replication_factor: i32) -> TopicDefinition {
    TopicDefinition {
        topic_name: name.to_string(),
        partitions,
        replication_factor,
        additional_config: Vec::new(),
    }
}

#[test]
fn every_line_is_read_with_its_number() {
    let read = read_input(&lines(&["# topics", "", "a,1,1", "b,2,3 # second"])).unwrap();
    assert_eq!(
        read,
        vec![
            (1, InputLine::Comment(" topics".to_string())),
            (2, InputLine::Empty),
            (3, InputLine::Definition(topic("a", 1, 1))),
            (4, InputLine::DefinitionWithComment(topic("b", 2, 3), " second".to_string())),
        ]
    );
}

#[test]
fn an_empty_file_has_no_lines() {
    assert_eq!(read_input(&Vec::new()), Ok(Vec::new()));
}

#[test]
fn the_first_malformed_line_is_named() {
    let failure = read_input(&lines(&["a,1,1", "bad name,3,2", "b,1,1", "also bad"])).unwrap_err();
    assert_eq!(failure, ParseFailure { line_number: 2, raw_text: "bad name,3,2".to_string() });
}

#[test]
fn a_malformed_first_line_has_number_one() {
    let failure = read_input(&lines(&["  1a,1,1  "])).unwrap_err();
    assert_eq!(failure, ParseFailure { line_number: 1, raw_text: "  1a,1,1  ".to_string() });
}

#[test]
fn a_malformed_last_line_fails_the_file() {
    let failure = read_input(&lines(&["a,1,1", "b,1,1", "c,1"])).unwrap_err();
    assert_eq!(failure, ParseFailure { line_number: 3, raw_text: "c,1".to_string() });
}

#[test]
fn definitions_keep_their_numbers_and_order() {
    let read = read_input(&lines(&["# topics", "b,2,3 # second", "", "a,1,1", "#", "b,2,3"])).unwrap();
    assert_eq!(
        definitions_of(read),
        vec![(2, topic("b", 2, 3)), (4, topic("a", 1, 1)), (6, topic("b", 2, 3))]
    );
}

#[test]
fn comments_and_empty_lines_define_nothing() {
    let read = read_input(&lines(&["# a,1,1", "   ", "#"])).unwrap();
    assert_eq!(definitions_of(read), Vec::new());
}

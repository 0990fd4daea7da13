use kafka_bulk_topic_create::recognizer::read_line;
use kafka_bulk_topic_create::topic::{InputLine, TopicDefinition};

fn topic(name: &str, partitions: i32, replication_factor: i32, config: &[(&str, &str)]) -> TopicDefinition {
    TopicDefinition {
        topic_name: name.to_string(),
        partitions,
        replication_factor,
        additional_config: config.iter().map(|(k, v)| (k.to_string(), v.to_string())).collect(),
    }
}

#[test]
fn main_test_read_line() {
    assert_eq!(read_line(""), Option::Some(InputLine::Empty));
    assert_eq!(read_line("    "), Option::Some(InputLine::Empty));
    assert_eq!(read_line("#"), Option::Some(InputLine::Comment("".to_string())));
    assert_eq!(read_line("# hello world"), Option::Some(InputLine::Comment(" hello world".to_string())));

    assert_eq!(read_line("adam,9,11"), Option::Some(InputLine::Definition(TopicDefinition {
        topic_name: "adam".to_string(),
        partitions: 9,
        replication_factor: 11,
        additional_config: Vec::new()
    })));

    assert_eq!(read_line("adam,9,11,a=b,c=d"), Option::Some(InputLine::Definition(TopicDefinition {
        topic_name: "adam".to_string(),
        partitions: 9,
        replication_factor: 11,
        additional_config: vec![("a".to_string(), "b".to_string()), ("c".to_string(), "d".to_string())]
    })));

    {
        let raw_line = "adam,9,11,a=b,c=d# hello world";

        let expected_topic_definition = TopicDefinition {
            topic_name: "adam".to_string(),
            partitions: 9,
            replication_factor: 11,
            additional_config: vec![("a".to_string(), "b".to_string()), ("c".to_string(), "d".to_string())]
        };

        let expected_comment = " hello world".to_string();

        assert_eq!(read_line(raw_line), Option::Some(InputLine::DefinitionWithComment(expected_topic_definition, expected_comment)))
    }

    {
        let raw_line = "adam,9,11#,a=b,c=d";

        let expected_topic_definition = TopicDefinition {
            topic_name: "adam".to_string(),
            partitions: 9,
            replication_factor: 11,
            additional_config: Vec::new()
        };

        let expected_comment = ",a=b,c=d".to_string();

        assert_eq!(read_line(raw_line), Option::Some(InputLine::DefinitionWithComment(expected_topic_definition, expected_comment)))
    }
}

#[test]
fn plain_definition() {
    assert_eq!(read_line("topicA,3,2"), Some(InputLine::Definition(topic("topicA", 3, 2, &[]))));
}

#[test]
fn definition_with_one_pair() {
    assert_eq!(
        read_line("topicA,3,2,cleanup.policy=compact"),
        Some(InputLine::Definition(topic("topicA", 3, 2, &[("cleanup.policy", "compact")])))
    );
}

#[test]
fn whitespace_only_is_empty() {
    assert_eq!(read_line("   "), Some(InputLine::Empty));
    assert_eq!(read_line("\t \u{a0}\u{3000}\r\n"), Some(InputLine::Empty));
}

#[test]
fn comment_keeps_what_follows_the_hash() {
    assert_eq!(read_line("# note"), Some(InputLine::Comment(" note".to_string())));
    assert_eq!(read_line("   ## a,b # c  "), Some(InputLine::Comment("# a,b # c".to_string())));
}

#[test]
fn definition_with_trailing_comment() {
    assert_eq!(
        read_line("topicA,3,2 # trailing note"),
        Some(InputLine::DefinitionWithComment(topic("topicA", 3, 2, &[]), " trailing note".to_string()))
    );
}

#[test]
fn comment_is_cut_at_the_first_hash_only() {
    assert_eq!(
        read_line("t,1,1#a#b"),
        Some(InputLine::DefinitionWithComment(topic("t", 1, 1, &[]), "a#b".to_string()))
    );
}

#[test]
fn name_with_whitespace_is_refused() {
    assert_eq!(read_line("bad name,3,2"), None);
    assert_eq!(read_line("bad\tname,3,2"), None);
}

#[test]
fn name_starting_with_a_digit_is_refused() {
    assert_eq!(read_line("1topic,3,2"), None);
    assert_eq!(read_line("_topic,3,2"), None);
    assert_eq!(read_line("-topic,3,2"), None);
}

#[test]
fn name_outside_ascii_is_refused() {
    assert_eq!(read_line("t\u{e9},3,2"), None);
    assert_eq!(read_line("\u{e9}t,3,2"), None);
}

#[test]
fn name_takes_digits_underscore_and_hyphen() {
    assert_eq!(read_line("a1_b-2,3,2"), Some(InputLine::Definition(topic("a1_b-2", 3, 2, &[]))));
    assert_eq!(read_line("Z,3,2"), Some(InputLine::Definition(topic("Z", 3, 2, &[]))));
}

#[test]
fn fewer_than_three_fields_is_refused() {
    assert_eq!(read_line("adam"), None);
    assert_eq!(read_line("adam,9"), None);
    assert_eq!(read_line(",a=b,c=d"), None);
    assert_eq!(read_line("adam,9#,11"), None);
}

#[test]
fn fields_are_trimmed() {
    assert_eq!(
        read_line("  adam , 9 ,\t11 , a = b ,c=d  "),
        Some(InputLine::Definition(topic("adam", 9, 11, &[("a", "b"), ("c", "d")])))
    );
}

#[test]
fn numbers_take_a_sign() {
    assert_eq!(read_line("t,-1,+2"), Some(InputLine::Definition(topic("t", -1, 2, &[]))));
    assert_eq!(read_line("t,007,-0"), Some(InputLine::Definition(topic("t", 7, 0, &[]))));
}

#[test]
fn numbers_reach_the_ends_of_the_range() {
    assert_eq!(
        read_line("t,2147483647,-2147483648"),
        Some(InputLine::Definition(topic("t", 2147483647, -2147483648, &[])))
    );
    assert_eq!(
        read_line("t,0000000000002147483647,1"),
        Some(InputLine::Definition(topic("t", 2147483647, 1, &[])))
    );
}

#[test]
fn numbers_out_of_range_are_refused() {
    assert_eq!(read_line("t,2147483648,1"), None);
    assert_eq!(read_line("t,1,-2147483649"), None);
    assert_eq!(read_line("t,99999999999999999999999999,1"), None);
}

#[test]
fn what_is_no_number_is_refused() {
    assert_eq!(read_line("t,,1"), None);
    assert_eq!(read_line("t,1,"), None);
    assert_eq!(read_line("t,+,1"), None);
    assert_eq!(read_line("t,-,1"), None);
    assert_eq!(read_line("t,1 2,1"), None);
    assert_eq!(read_line("t,1,0x10"), None);
    assert_eq!(read_line("t,--1,1"), None);
    assert_eq!(read_line("t,\u{663},1"), None);
}

#[test]
fn numbers_agree_with_the_standard_parser() {
    let samples = [
        "0", "1", "-1", "+1", "10", "-10", "2147483647", "2147483648", "-2147483648",
        "-2147483649", "00", "+", "-", "", "1a", "a1", "+-1", "1-", "4294967296",
        "9223372036854775808", "-00000000000000000000012",
    ];
    for text in samples {
        let expected = text.parse::<i32>().ok();
        let got = match read_line(&format!("t,{},1", text)) {
            Some(InputLine::Definition(t)) => Some(t.partitions),
            _ => None,
        };
        assert_eq!(got, expected);
    }
}

#[test]
fn pair_without_equals_is_refused() {
    assert_eq!(read_line("t,1,1,ab"), None);
    assert_eq!(read_line("t,1,1,"), None);
    assert_eq!(read_line("t,1,1,a=b,"), None);
}

#[test]
fn pair_with_an_empty_side_is_refused() {
    assert_eq!(read_line("t,1,1,=b"), None);
    assert_eq!(read_line("t,1,1,a="), None);
    assert_eq!(read_line("t,1,1, = "), None);
}

#[test]
fn pair_is_cut_at_the_first_equals() {
    assert_eq!(read_line("t,1,1,a=b=c"), None);
}

#[test]
fn pair_sides_keep_to_their_characters() {
    assert_eq!(read_line("t,1,1,a_b=c"), None);
    assert_eq!(read_line("t,1,1,a=b.c"), None);
    assert_eq!(read_line("t,1,1,a b=c"), None);
    assert_eq!(
        read_line("t,1,1,a.b.9=C0"),
        Some(InputLine::Definition(topic("t", 1, 1, &[("a.b.9", "C0")])))
    );
}

#[test]
fn repeated_keys_are_kept() {
    assert_eq!(
        read_line("t,1,1,a=1,a=2,a=1"),
        Some(InputLine::Definition(topic("t", 1, 1, &[("a", "1"), ("a", "2"), ("a", "1")])))
    );
}

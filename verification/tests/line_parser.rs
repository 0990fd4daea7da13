use kafka_bulk_topic_create::line_parser::read_line;

fn pair(k: &str, v: &str) -> (String, String) {
    (k.to_string(), v.to_string())
}

#[test]
fn line_parser_test_read_line() {
    assert_eq!(read_line(""), Option::None);
    assert_eq!(read_line("     "), Option::None);
    assert_eq!(read_line("#hello"), Option::None);
    assert_eq!(read_line("#  hello"), Option::None);
    assert_eq!(read_line("123"), Option::None);
    assert_eq!(read_line("Hello World"), Option::None);
    assert_eq!(read_line("hello_world"), Option::Some(("hello_world".to_string(), Vec::new())));
    assert_eq!(read_line("hello_world,jkjk"), Option::None);
    assert_eq!(
        read_line("hello_world,a=b"),
        Option::Some(("hello_world".to_string(), vec![("a".to_string(), "b".to_string())]))
    );
    assert_eq!(
        read_line("hello_world,a=b "),
        Option::Some(("hello_world".to_string(), vec![("a".to_string(), "b".to_string())]))
    );
}

#[test]
fn title_may_follow_leading_whitespace() {
    assert_eq!(read_line("  \ttopic-1"), Some(("topic-1".to_string(), Vec::new())));
}

#[test]
fn title_may_not_be_followed_by_whitespace() {
    assert_eq!(read_line("topic "), None);
    assert_eq!(read_line("topic ,a=b"), None);
}

#[test]
fn title_takes_letters_beyond_ascii() {
    assert_eq!(read_line("h\u{e9}llo"), Some(("h\u{e9}llo".to_string(), Vec::new())));
    assert_eq!(read_line("\u{663}abc"), None);
    assert_eq!(read_line("a\u{663}"), Some(("a\u{663}".to_string(), Vec::new())));
}

#[test]
fn several_pairs_keep_their_order() {
    assert_eq!(
        read_line("t,b=2,a=1,b=3"),
        Some(("t".to_string(), vec![pair("b", "2"), pair("a", "1"), pair("b", "3")]))
    );
}

#[test]
fn key_may_hold_dots_and_value_may_not() {
    assert_eq!(
        read_line("t,cleanup.policy=compact"),
        Some(("t".to_string(), vec![pair("cleanup.policy", "compact")]))
    );
    assert_eq!(read_line("t,a=b.c"), None);
}

#[test]
fn whitespace_around_a_value_is_skipped() {
    assert_eq!(read_line("t,a= b ,c=d"), Some(("t".to_string(), vec![pair("a", "b"), pair("c", "d")])));
}

#[test]
fn whitespace_after_a_key_is_refused() {
    assert_eq!(read_line("t,a =b"), None);
}

#[test]
fn key_without_value_is_refused() {
    assert_eq!(read_line("t,a="), None);
    assert_eq!(read_line("t,a"), None);
}

#[test]
fn a_comma_closes_a_pair_whatever_it_holds() {
    assert_eq!(read_line("t,a=,b=c"), Some(("t".to_string(), vec![pair("a", ""), pair("b", "c")])));
    assert_eq!(read_line("t,=x"), Some(("t".to_string(), Vec::new())));
}

#[test]
fn trailing_comma_gives_no_pair() {
    assert_eq!(read_line("t,"), Some(("t".to_string(), Vec::new())));
}

use kafka_bulk_topic_create::chars::{digit, letter, whitespace};
use kafka_bulk_topic_create::strings::to_chars;

#[test]
fn whitespace_is_that_of_the_standard_library() {
    for code in 0..=0x10FFFFu32 {
        if let Some(c) = char::from_u32(code) {
            assert_eq!(whitespace(c), c.is_whitespace(), "U+{:04X}", code);
        }
    }
}

#[test]
fn letters_are_the_ascii_letters() {
    for code in 0..=0x10FFFFu32 {
        if let Some(c) = char::from_u32(code) {
            assert_eq!(letter(c), c.is_ascii_alphabetic(), "U+{:04X}", code);
        }
    }
}

#[test]
fn digits_are_the_ascii_digits() {
    for code in 0..=0x10FFFFu32 {
        if let Some(c) = char::from_u32(code) {
            assert_eq!(digit(c), c.is_ascii_digit(), "U+{:04X}", code);
        }
    }
}

#[test]
fn the_characters_of_a_string_come_in_order() {
    assert_eq!(to_chars(""), Vec::<char>::new());
    assert_eq!(to_chars("a\u{e9}\u{1F600}z"), vec!['a', '\u{e9}', '\u{1F600}', 'z']);
}

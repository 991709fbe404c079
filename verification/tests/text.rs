use oxygen_bot::pattern::replace_all;
use oxygen_bot::text::{char_is_whitespace, char_is_word, chars_of, same_text, CharClass};
use oxygen_bot::words::split_words;

#[test]
fn whitespace_is_what_the_standard_library_calls_whitespace() {
    for n in 0..=0x10FFFFu32 {
        if let Some(c) = char::from_u32(n) {
            assert_eq!(char_is_whitespace(c), c.is_whitespace(), "U+{:04X}", n);
        }
    }
}

#[test]
fn word_characters_are_ascii_letters_digits_and_underscore() {
    for n in 0..=0x10FFFFu32 {
        if let Some(c) = char::from_u32(n) {
            assert_eq!(char_is_word(c), c.is_ascii_alphanumeric() || c == '_', "U+{:04X}", n);
        }
    }
}

#[test]
fn character_classes() {
    assert!(CharClass::Exactly('x').test('x'));
    assert!(!CharClass::Exactly('x').test('y'));
    assert!(CharClass::Whitespace.test('\n'));
    assert!(!CharClass::Whitespace.test('n'));
    assert!(CharClass::NotWhitespace.test('n'));
    assert!(!CharClass::NotWhitespace.test(' '));
    assert!(CharClass::NotWord.test('-'));
    assert!(!CharClass::NotWord.test('_'));
}

#[test]
fn chars_of_keeps_every_character() {
    assert_eq!(chars_of("aé\u{1F600}\n"), vec!['a', 'é', '\u{1F600}', '\n']);
    assert!(chars_of("").is_empty());
}

#[test]
fn same_text_compares_characters() {
    assert!(same_text("PING", "PING"));
    assert!(!same_text("PING", "PONG"));
    assert!(!same_text("PING", "PIN"));
    assert!(same_text("", ""));
}

#[test]
fn split_words_is_split_whitespace() {
    let samples = [
        "",
        " ",
        "a",
        "  a  b\tc ",
        "one two three",
        "\u{3000}wide\u{00A0}gaps\u{2003}here\r\n",
        "trailing   ",
        "   leading",
    ];
    for s in samples {
        let expected: Vec<String> = s.split_whitespace().map(String::from).collect();
        assert_eq!(split_words(s), expected, "{:?}", s);
    }
}

#[test]
fn replace_all_is_str_replace() {
    let samples = [
        ("PING :token", "PING", "PONG"),
        ("PING :PING PINGPING", "PING", "PONG"),
        ("nothing here", "PING", "PONG"),
        ("", "PING", "PONG"),
        ("PIN", "PING", "PONG"),
        ("aaa", "aa", "b"),
        ("aaaa", "aa", "b"),
        ("a,b,,c", ",", ""),
        ("abc", "abc", ""),
        ("xPINGy", "PING", ""),
    ];
    for (s, pat, with) in samples {
        assert_eq!(replace_all(s, pat, with), s.replace(pat, with), "{:?}", (s, pat, with));
    }
}

#[test]
fn replace_all_with_an_empty_pattern_changes_nothing() {
    assert_eq!(replace_all("abc", "", "x"), "abc");
}

use chat_relay::text::{
    contains_text, split_words, starts_with, to_chars, trim_bounds, trimmed, whitespace,
};

#[test]
fn whitespace_is_the_unicode_property() {
    let mut code: u32 = 0;
    while code <= 0x10ffff {
        if let Some(c) = char::from_u32(code) {
            assert_eq!(whitespace(c), c.is_whitespace(), "U+{:04X}", code);
        }
        code += 1;
    }
}

#[test]
fn whitespace_of_chosen_characters() {
    assert!(whitespace(' '));
    assert!(whitespace('\t'));
    assert!(whitespace('\n'));
    assert!(whitespace('\r'));
    assert!(whitespace('\u{3000}'));
    assert!(whitespace('\u{85}'));
    assert!(!whitespace('a'));
    assert!(!whitespace('\u{200b}'));
    assert!(!whitespace('\u{1c}'));
}

#[test]
fn to_chars_gives_every_character() {
    assert_eq!(to_chars(""), Vec::<char>::new());
    assert_eq!(to_chars("héllo"), vec!['h', 'é', 'l', 'l', 'o']);
}

#[test]
fn trimmed_removes_whitespace_at_both_ends_only() {
    assert_eq!(trimmed("  hello world \r\n"), "hello world");
    assert_eq!(trimmed("hello"), "hello");
    assert_eq!(trimmed(""), "");
    assert_eq!(trimmed(" \t\n"), "");
    assert_eq!(trimmed("\u{3000}é b\u{a0}"), "é b");
}

#[test]
fn trimmed_agrees_with_the_standard_library() {
    let samples = [
        "",
        " ",
        "a",
        " a",
        "a ",
        "  a  b  ",
        "\n\ta\u{2003}b\r\n",
        "client alice\n",
        "\u{feff}x",
    ];
    for s in samples {
        assert_eq!(trimmed(s), s.trim());
    }
}

#[test]
fn trim_bounds_are_positions_of_characters() {
    let v = to_chars("  ab ");
    assert_eq!(trim_bounds(&v), (2, 4));
    let v = to_chars("   ");
    assert_eq!(trim_bounds(&v), (3, 3));
    let v = to_chars("");
    assert_eq!(trim_bounds(&v), (0, 0));
    let v = to_chars("é ");
    assert_eq!(trim_bounds(&v), (0, 1));
}

#[test]
fn split_words_gives_the_runs_between_whitespace() {
    assert_eq!(split_words("client alice"), vec!["client", "alice"]);
    assert_eq!(split_words("  a \t b\nc  "), vec!["a", "b", "c"]);
    assert_eq!(split_words(""), Vec::<String>::new());
    assert_eq!(split_words(" \n "), Vec::<String>::new());
    assert_eq!(split_words("one"), vec!["one"]);
}

#[test]
fn split_words_agrees_with_the_standard_library() {
    let samples = [
        "",
        "a",
        " a b ",
        "server 10.0.0.1 My Relay\n",
        "x\u{2028}y\u{3000}z",
        "\t\ttabs\tonly\t",
    ];
    for s in samples {
        let expected: Vec<String> = s.split_whitespace().map(|w| w.to_string()).collect();
        assert_eq!(split_words(s), expected);
    }
}

#[test]
fn starts_with_compares_the_first_characters() {
    assert!(starts_with(&to_chars("ENC 00 11"), "ENC "));
    assert!(starts_with(&to_chars("ENC "), "ENC "));
    assert!(!starts_with(&to_chars("ENC"), "ENC "));
    assert!(!starts_with(&to_chars(" ENC 00"), "ENC "));
    assert!(starts_with(&to_chars("anything"), ""));
    assert!(!starts_with(&to_chars(""), "x"));
}

#[test]
fn contains_text_finds_a_pattern_anywhere() {
    assert!(contains_text(&to_chars("hello world"), "o w"));
    assert!(contains_text(&to_chars("hello world"), "hello"));
    assert!(contains_text(&to_chars("hello world"), "world"));
    assert!(contains_text(&to_chars("hello world"), "hello world"));
    assert!(contains_text(&to_chars("hello world"), ""));
    assert!(contains_text(&to_chars(""), ""));
    assert!(contains_text(&to_chars("aab"), "ab"));
    assert!(!contains_text(&to_chars("hello world"), "worlds"));
    assert!(!contains_text(&to_chars("hello"), "hello world"));
    assert!(!contains_text(&to_chars(""), "a"));
    assert!(!contains_text(&to_chars("abab"), "ba b"));
}

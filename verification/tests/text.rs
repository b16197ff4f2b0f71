use hat::text::{
    alnum, chars_of, concat2, concat3, concat4, ends_with, join, repeat, rsplit_once, same,
    same_but_case, space, split_lines, split_once, split_words, starts_with, strip_prefix,
    take_chars, trim, trim_line_end,
};

fn samples() -> Vec<&'static str> {
    vec![
        "",
        " ",
        "a",
        " a ",
        "a b",
        "  two  words ",
        "\ttab\u{a0}nbsp\u{3000}wide\u{2003}",
        "line\n",
        "line\r\n",
        "\n",
        "\r\n",
        "one\ntwo\r\nthree",
        "one\n\n\ntwo",
        "\r\r\n",
        "héllo wörld",
        "中文 消息",
        "😀 smile",
        "/connect 127.0.0.1 6969",
        "a:b:c",
        "trailing ",
    ]
}

#[test]
fn white_space_is_that_of_unicode() {
    for n in 0..=0x10ffffu32 {
        if let Some(c) = char::from_u32(n) {
            assert_eq!(space(c), c.is_whitespace(), "{n:x}");
        }
    }
}

#[test]
fn letters_and_digits_are_those_of_ascii() {
    for n in 0..=0x10ffffu32 {
        if let Some(c) = char::from_u32(n) {
            assert_eq!(alnum(c), c.is_ascii_alphanumeric(), "{n:x}");
        }
    }
}

#[test]
fn trimming_is_that_of_strings() {
    for text in samples() {
        assert_eq!(trim(text), text.trim());
        assert_eq!(trim_line_end(text), text.trim_end_matches(['\r', '\n']));
    }
}

#[test]
fn splitting_is_that_of_strings() {
    for text in samples() {
        assert_eq!(split_once(text, ' '), text.split_once(' '));
        assert_eq!(rsplit_once(text, ' '), text.rsplit_once(' '));
        assert_eq!(split_once(text, ':'), text.split_once(':'));
        assert_eq!(rsplit_once(text, ':'), text.rsplit_once(':'));
        let words: Vec<String> = text.split_whitespace().map(str::to_owned).collect();
        assert_eq!(split_words(text), words);
        let lines: Vec<String> = text.lines().map(str::to_owned).collect();
        assert_eq!(split_lines(text), lines);
    }
}

#[test]
fn prefixes_and_suffixes_are_those_of_strings() {
    for text in samples() {
        for part in samples() {
            assert_eq!(starts_with(text, part), text.starts_with(part));
            assert_eq!(ends_with(text, part), text.ends_with(part));
            assert_eq!(strip_prefix(text, part), text.strip_prefix(part));
        }
    }
}

#[test]
fn texts_are_compared_with_case_and_without() {
    assert!(same("Bob", "Bob"));
    assert!(!same("Bob", "bob"));
    assert!(!same("Bob", "Bobb"));
    assert!(same_but_case("Bob", "bOB"));
    assert!(!same_but_case("Bob", "Rob"));
    // Only the letters of ASCII have two cases here.
    assert!(!same_but_case("É", "é"));
    assert!(!same_but_case("[", "{"));
}

#[test]
fn text_is_taken_by_characters() {
    assert_eq!(take_chars("中文消息", 2), "中文");
    assert_eq!(take_chars("ab", 5), "ab");
    assert_eq!(take_chars("ab", 0), "");
    assert_eq!(chars_of("a中"), vec!['a', '中']);
}

#[test]
fn text_is_put_together() {
    assert_eq!(concat2("a", "b"), "ab");
    assert_eq!(concat3("a", "", "c"), "ac");
    assert_eq!(concat4("a", "b", "c", "d"), "abcd");
    assert_eq!(repeat('─', 3), "───");
    assert_eq!(repeat('x', 0), "");
    let parts: Vec<String> = vec!["b".to_owned(), "a".to_owned(), "c".to_owned()];
    assert_eq!(join(&parts, ","), parts.join(","));
    assert_eq!(join(&Vec::new(), ","), "");
}

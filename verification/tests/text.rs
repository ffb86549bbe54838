use rust_http_server::text::{
    blank, chars_of, find_byte, find_char, same_text, space, split_once_pair_text,
    split_once_text, split_text,
};

#[test]
fn text_is_cut_at_every_separator() {
    assert_eq!(split_text("a/b/c", '/'), vec!["a", "b", "c"]);
    assert_eq!(split_text("/a/", '/'), vec!["", "a", ""]);
    assert_eq!(split_text("abc", '/'), vec!["abc"]);
    assert_eq!(split_text("", '/'), vec![""]);
    assert_eq!(split_text("//", '/'), vec!["", "", ""]);
    assert_eq!(split_text("é&ü", '&'), vec!["é", "ü"]);
}

#[test]
fn cutting_agrees_with_the_standard_library() {
    for text in ["", "a", "a b", " a  b ", "GET / HTTP/1.1"] {
        let expected: Vec<String> = text.split(' ').map(|s| s.to_string()).collect();
        assert_eq!(split_text(text, ' '), expected);
    }
}

#[test]
fn text_is_cut_once_at_the_first_separator() {
    assert_eq!(
        split_once_text("a=b=c", '='),
        Some(("a".to_string(), "b=c".to_string()))
    );
    assert_eq!(split_once_text("=", '='), Some(("".to_string(), "".to_string())));
    assert_eq!(split_once_text("abc", '='), None);
    assert_eq!(split_once_text("", '='), None);
}

#[test]
fn text_is_cut_once_at_the_first_pair() {
    assert_eq!(
        split_once_pair_text("Host: example.org", ':', ' '),
        Some(("Host".to_string(), "example.org".to_string()))
    );
    assert_eq!(
        split_once_pair_text("a:b: c: d", ':', ' '),
        Some(("a:b".to_string(), "c: d".to_string()))
    );
    assert_eq!(
        split_once_pair_text(": ", ':', ' '),
        Some(("".to_string(), "".to_string()))
    );
    assert_eq!(split_once_pair_text("Host:example.org", ':', ' '), None);
    assert_eq!(split_once_pair_text("Host:", ':', ' '), None);
    assert_eq!(split_once_pair_text("", ':', ' '), None);
}

#[test]
fn white_space_is_what_trimming_removes() {
    for c in [' ', '\t', '\n', '\r', '\u{b}', '\u{c}', '\u{85}', '\u{a0}', '\u{3000}', '\u{2028}'] {
        assert!(space(c));
    }
    for c in ['a', '0', ':', '\u{0}', '\u{200b}', 'é'] {
        assert!(!space(c));
    }
    for code in 0u32..0x3100 {
        if let Some(c) = char::from_u32(code) {
            assert_eq!(space(c), c.is_whitespace());
        }
    }
}

#[test]
fn a_line_of_white_space_is_blank() {
    assert!(blank(""));
    assert!(blank(" \t\r"));
    assert!(!blank(" a "));
    assert!(!blank(":"));
}

#[test]
fn texts_are_compared_character_by_character() {
    assert!(same_text("", ""));
    assert!(same_text("abc", "abc"));
    assert!(!same_text("abc", "abd"));
    assert!(!same_text("abc", "ab"));
    assert!(!same_text("ABC", "abc"));
}

#[test]
fn first_occurrence_is_found() {
    assert_eq!(chars_of("héllo"), vec!['h', 'é', 'l', 'l', 'o']);
    assert_eq!(find_char(&['a', 'b', 'a'], 0, 'a'), 0);
    assert_eq!(find_char(&['a', 'b', 'a'], 1, 'a'), 2);
    assert_eq!(find_char(&['a', 'b', 'a'], 0, 'z'), 3);
    assert_eq!(find_char(&['a', 'b', 'a'], 3, 'a'), 3);
    assert_eq!(find_byte(b"ab\ncd\n", 0, b'\n'), 2);
    assert_eq!(find_byte(b"ab\ncd\n", 3, b'\n'), 5);
    assert_eq!(find_byte(b"ab", 0, b'\n'), 2);
}

use rust_http_server::number::{decimal_text, parse_word};

#[test]
fn numbers_are_written_in_decimal() {
    assert_eq!(decimal_text(0), "0");
    assert_eq!(decimal_text(7), "7");
    assert_eq!(decimal_text(10), "10");
    assert_eq!(decimal_text(404), "404");
    assert_eq!(decimal_text(1024), "1024");
    assert_eq!(decimal_text(65535), "65535");
    assert_eq!(decimal_text(usize::MAX), usize::MAX.to_string());
}

#[test]
fn numbers_are_read_from_decimal() {
    assert_eq!(parse_word("0"), Some(0));
    assert_eq!(parse_word("5"), Some(5));
    assert_eq!(parse_word("1024"), Some(1024));
    assert_eq!(parse_word("007"), Some(7));
    assert_eq!(parse_word("+12"), Some(12));
    assert_eq!(parse_word(&usize::MAX.to_string()), Some(usize::MAX));
}

#[test]
fn what_is_no_number_is_refused() {
    assert_eq!(parse_word(""), None);
    assert_eq!(parse_word("+"), None);
    assert_eq!(parse_word("-1"), None);
    assert_eq!(parse_word("++1"), None);
    assert_eq!(parse_word("12a"), None);
    assert_eq!(parse_word("a12"), None);
    assert_eq!(parse_word(" 12"), None);
    assert_eq!(parse_word("12 "), None);
    assert_eq!(parse_word("1.5"), None);
    assert_eq!(parse_word("١٢"), None);
}

#[test]
fn a_number_too_large_for_a_word_is_refused() {
    let mut text = usize::MAX.to_string();
    text.push('0');
    assert_eq!(parse_word(&text), None);
    assert_eq!(parse_word("99999999999999999999999999999999999999999"), None);
}

#[test]
fn reading_agrees_with_the_standard_library() {
    for text in ["0", "+0", "42", "", "+", "-0", "18446744073709551615", "18446744073709551616"] {
        assert_eq!(parse_word(text), text.parse::<usize>().ok());
    }
}

#[test]
fn a_written_number_is_read_back() {
    for n in [0usize, 1, 9, 10, 99, 100, 12345, usize::MAX] {
        assert_eq!(parse_word(&decimal_text(n)), Some(n));
    }
}

use rust_http_server::common::{HeaderKey, Headers, HeadersBuilder};

#[test]
fn lookup_ignores_case_of_the_name() {
    let headers = Headers::builder().set("Content-Type", "text/html").build();
    assert_eq!(headers.get("Content-Type"), Some(&"text/html".to_string()));
    assert_eq!(headers.get("content-type"), Some(&"text/html".to_string()));
    assert_eq!(headers.get("CONTENT-TYPE"), Some(&"text/html".to_string()));
    assert_eq!(headers.get("cOnTeNt-TyPe"), Some(&"text/html".to_string()));
    assert_eq!(headers.get("Content-Length"), None);
}

#[test]
fn lookup_ignores_case_beyond_ascii() {
    let headers = Headers::builder().set("X-ÉTÉ", "summer").build();
    assert_eq!(headers.get("x-été"), Some(&"summer".to_string()));
}

#[test]
fn a_second_value_replaces_the_first() {
    let headers = Headers::builder()
        .set("Accept", "a")
        .set("Host", "h")
        .set("ACCEPT", "b")
        .build();
    assert_eq!(headers.len(), 2);
    assert_eq!(headers.get("accept"), Some(&"b".to_string()));
    assert_eq!(headers.get("host"), Some(&"h".to_string()));
}

#[test]
fn a_replaced_line_keeps_its_place_and_spelling() {
    let headers = Headers::builder()
        .set("Accept", "a")
        .set("Host", "h")
        .set("ACCEPT", "b")
        .build();
    assert_eq!(headers.line(0), ("Accept", "b"));
    assert_eq!(headers.line(1), ("Host", "h"));
    assert_eq!(headers.to_text(), "Accept: b\nHost: h\n");
}

#[test]
fn an_empty_table_has_no_lines() {
    let headers = HeadersBuilder::new().build();
    assert_eq!(headers.len(), 0);
    assert_eq!(headers.get("anything"), None);
    assert_eq!(headers.to_text(), "");
}

#[test]
fn get_folded_compares_with_the_lower_case_name() {
    let headers = Headers::builder().set("Content-Type", "text/html").build();
    assert_eq!(headers.get_folded("content-type"), Some(&"text/html".to_string()));
    assert_eq!(headers.get_folded("Content-Type"), None);
}

#[test]
fn from_pairs_stores_one_after_the_other() {
    let pairs = vec![
        ("A".to_string(), "1".to_string()),
        ("B".to_string(), "2".to_string()),
        ("a".to_string(), "3".to_string()),
    ];
    let headers = Headers::from_pairs(&pairs);
    assert_eq!(headers.len(), 2);
    assert_eq!(headers.get("a"), Some(&"3".to_string()));
    assert_eq!(headers.get("b"), Some(&"2".to_string()));
    assert_eq!(headers.line(0), ("A", "3"));
}

#[test]
fn header_keys_compare_without_case() {
    let a = HeaderKey::new("Content-Type");
    let b = HeaderKey::from("content-TYPE");
    let c = HeaderKey::new("Content-Length");
    assert!(a.same(&b));
    assert!(b.same(&a));
    assert!(!a.same(&c));
    assert_eq!(a.as_str(), "Content-Type");
    assert_eq!(b.as_str(), "content-TYPE");
    assert_eq!(b.folded_str(), "content-type");
    assert_eq!(a.clone().as_str(), "Content-Type");
}

#[test]
fn lines_can_be_stored_by_a_given_form() {
    let headers = HeadersBuilder::new()
        .set_folded("A", "a", "1")
        .set_folded("B", "b", "2")
        .set_folded("other", "a", "3")
        .build();
    assert_eq!(headers.len(), 2);
    assert_eq!(headers.line(0), ("A", "3"));
    assert_eq!(headers.get_folded("a"), Some(&"3".to_string()));
    assert_eq!(headers.get_folded("b"), Some(&"2".to_string()));
    assert_eq!(headers.get_folded("A"), None);
    let key = HeaderKey::with_folded("Name", "form");
    assert_eq!(key.as_str(), "Name");
    assert_eq!(key.folded_str(), "form");
    assert!(key.same(&HeaderKey::with_folded("Other", "form")));
}

#[test]
fn header_keys_are_ordered_without_case() {
    let a = HeaderKey::new("accept");
    let b = HeaderKey::new("Host");
    let c = HeaderKey::new("ACCEPT");
    assert!(a.precedes(&b));
    assert!(!b.precedes(&a));
    assert!(c.precedes(&b));
    assert!(!a.precedes(&c));
    assert!(!c.precedes(&a));
}

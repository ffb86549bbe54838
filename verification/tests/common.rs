use rust_http_server::common::{Method, Search};

#[test]
fn known_methods_are_read() {
    assert_eq!(Method::parse("GET"), Method::Get);
    assert_eq!(Method::parse("POST"), Method::Post);
}

#[test]
fn other_methods_are_kept_as_written() {
    assert_eq!(Method::parse("PUT"), Method::Other("PUT".to_string()));
    assert_eq!(Method::parse("get"), Method::Other("get".to_string()));
    assert_eq!(Method::parse(""), Method::Other("".to_string()));
    assert_eq!("DELETE".parse::<Method>(), Ok(Method::Other("DELETE".to_string())));
    assert_eq!("GET".parse::<Method>(), Ok(Method::Get));
}

#[test]
fn methods_compare_by_their_spelling() {
    assert!(Method::Get.same(&Method::Get));
    assert!(!Method::Get.same(&Method::Post));
    assert!(!Method::Get.same(&Method::Other("GET".to_string())));
    assert!(Method::Other("PUT".to_string()).same(&Method::Other("PUT".to_string())));
    assert!(!Method::Other("PUT".to_string()).same(&Method::Other("put".to_string())));
    assert_eq!(Method::Other("PUT".to_string()).clone(), Method::Other("PUT".to_string()));
}

#[test]
fn a_query_string_is_read_pair_by_pair() {
    let search = Search::parse("a=1&b=2").unwrap();
    assert_eq!(search.get("a"), Some(&"1".to_string()));
    assert_eq!(search.get("b"), Some(&"2".to_string()));
    assert_eq!(search.get("c"), None);
    assert!(search.contains_key("a"));
    assert!(!search.contains_key("A"));
}

#[test]
fn a_segment_without_equals_sign_refuses_the_query() {
    assert!(Search::parse("malformed").is_err());
    assert!(Search::parse("a=1&b").is_err());
    assert!(Search::parse("a=1&&b=2").is_err());
    assert!(Search::parse("").is_err());
    assert!("a=1&b".parse::<Search>().is_err());
}

#[test]
fn a_later_value_of_a_parameter_replaces_the_earlier() {
    let search = Search::parse("a=1&b=2&a=3").unwrap();
    assert_eq!(search.get("a"), Some(&"3".to_string()));
    assert_eq!(search.get("b"), Some(&"2".to_string()));
}

#[test]
fn a_segment_is_cut_at_its_first_equals_sign() {
    let search = Search::parse("a=b=c&=x&y=").unwrap();
    assert_eq!(search.get("a"), Some(&"b=c".to_string()));
    assert_eq!(search.get(""), Some(&"x".to_string()));
    assert_eq!(search.get("y"), Some(&"".to_string()));
}

#[test]
fn query_values_are_not_decoded() {
    let search = Search::parse("q=a%20b+c").unwrap();
    assert_eq!(search.get("q"), Some(&"a%20b+c".to_string()));
}

#[test]
fn the_empty_search_has_no_parameters() {
    assert_eq!(Search::empty().get("a"), None);
    assert_eq!(Search::default().get(""), None);
}

use rust_http_server::common::Headers;
use rust_http_server::framing::read_reply;
use rust_http_server::number::decimal_text;
use rust_http_server::request::{Body, ParseError};
use rust_http_server::response::{Response, Status};

#[test]
fn known_codes_have_a_reason() {
    assert_eq!(Status::from_code(200).message, Some("Ok".to_string()));
    assert_eq!(Status::from_code(204).message, Some("No Content".to_string()));
    assert_eq!(Status::from_code(404).message, Some("Not Found".to_string()));
    assert_eq!(Status::from_code(500).message, None);
    assert_eq!(Status::from_code(0).message, None);
    assert_eq!(Status::from_code(404).code, 404);
    assert_eq!(Status::from(204).message, Some("No Content".to_string()));
}

#[test]
fn a_status_can_be_given_its_message() {
    let status = Status::new(418, "I'm a teapot");
    assert_eq!(status.code, 418);
    assert_eq!(status.message, Some("I'm a teapot".to_string()));
    let status = Status::from((200, "Fine"));
    assert_eq!(status.message, Some("Fine".to_string()));
}

#[test]
fn a_status_is_written_with_its_message_if_it_has_one() {
    assert_eq!(Status::from_code(200).to_text(), "200 Ok");
    assert_eq!(Status::from_code(404).to_text(), "404 Not Found");
    assert_eq!(Status::from_code(500).to_text(), "500");
    assert_eq!(Status::new(500, "").to_text(), "500");
    assert_eq!(Status::new(7, "x y").to_text(), "7 x y");
    assert_eq!(Status::from_code(65535).to_text(), "65535");
}

#[test]
fn a_response_without_anything_set_is_200_ok() {
    let response = Response::builder().build();
    assert_eq!(response.status.code, 200);
    assert_eq!(response.status.message, Some("Ok".to_string()));
    assert_eq!(response.headers.len(), 0);
    assert!(matches!(response.body, Body::Empty));
    assert_eq!(response.to_text(), "HTTP/1.1 200 Ok\n\n");
}

#[test]
fn a_response_is_written_head_first() {
    let response = Response::builder()
        .status(Status::from_code(404))
        .header("Content-Type", "text/plain")
        .header("X-Test", "1")
        .body(Body::text("gone"))
        .build();
    assert_eq!(
        response.to_text(),
        "HTTP/1.1 404 Not Found\nContent-Type: text/plain\nX-Test: 1\n\ngone"
    );
    assert_eq!(response.to_bytes(), response.to_text().into_bytes());
}

#[test]
fn a_status_without_reason_has_no_space_after_the_code() {
    let response = Response::builder().status(Status::from_code(500)).build();
    assert_eq!(response.to_text(), "HTTP/1.1 500\n\n");
}

#[test]
fn no_content_length_is_added() {
    let response = Response::builder().body(Body::text("hello")).build();
    assert_eq!(response.headers.get("Content-Length"), None);
    assert_eq!(response.to_text(), "HTTP/1.1 200 Ok\n\nhello");
}

#[test]
fn headers_can_be_set_in_bulk() {
    let response = Response::builder()
        .header("A", "0")
        .headers(|headers| headers.set("foo", "bar").set("a", "1"))
        .build();
    assert_eq!(response.headers.len(), 2);
    assert_eq!(response.headers.get("A"), Some(&"1".to_string()));
    assert_eq!(response.headers.get("Foo"), Some(&"bar".to_string()));
}

#[test]
fn the_last_status_and_body_stay() {
    let response = Response::builder()
        .status(Status::from_code(404))
        .body(Body::text("a"))
        .status(Status::from_code(204))
        .body(Body::Empty)
        .build();
    assert_eq!(response.status.code, 204);
    assert!(matches!(response.body, Body::Empty));
}

#[test]
fn a_body_is_read_back_by_its_content_length() {
    for body in ["", "hello", "héllo wörld", "line\nline\r\n\r\nmore", "日本語"] {
        let response = Response::builder()
            .header("Content-Type", "text/plain")
            .header("Content-Length", &decimal_text(Body::text(body).len()))
            .body(Body::text(body))
            .build();
        let (headers, read) = read_reply(&response.to_bytes()).unwrap();
        assert_eq!(read, body);
        assert_eq!(headers.len(), 2);
        assert_eq!(headers.get("content-type"), Some(&"text/plain".to_string()));
    }
}

#[test]
fn a_reply_without_content_length_is_read_to_its_end() {
    let (headers, body) = read_reply(b"HTTP/1.1 200 Ok\nA: b\n\nall of it\n").unwrap();
    assert_eq!(headers.get("a"), Some(&"b".to_string()));
    assert_eq!(body, "all of it\n");
    let (_headers, body) = read_reply(b"HTTP/1.1 204 No Content\r\n\r\n").unwrap();
    assert_eq!(body, "");
}

#[test]
fn a_reply_that_is_cut_short_is_refused() {
    let cut = read_reply(b"HTTP/1.1 200 Ok\nContent-Length: 9\n\nshort");
    assert_eq!(cut.err(), Some(ParseError::TruncatedBody));
    let bad = read_reply(b"HTTP/1.1 200 Ok\nContent-Length: x\n\nshort");
    assert_eq!(bad.err(), Some(ParseError::ContentLength));
    let bad = read_reply(b"HTTP/1.1 200 Ok\nnonsense\n\nshort");
    assert_eq!(bad.err(), Some(ParseError::Header));
    let bad = read_reply(b"HTTP/1.1 200 Ok\n\n\xff");
    assert_eq!(bad.err(), Some(ParseError::Encoding));
    let bad = read_reply(b"HTTP/1.1 \xff\n\n");
    assert_eq!(bad.err(), Some(ParseError::Encoding));
}

#[test]
fn a_longer_content_length_than_the_body_is_not_mended() {
    let response = Response::builder()
        .header("Content-Length", "10")
        .body(Body::text("abc"))
        .build();
    assert_eq!(
        read_reply(&response.to_bytes()).err(),
        Some(ParseError::TruncatedBody)
    );
}

#[test]
fn header_tables_are_written_line_by_line() {
    let headers = Headers::builder().set("A", "1").set("B", "").build();
    assert_eq!(headers.to_text(), "A: 1\nB: \n");
}

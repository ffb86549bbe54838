use rust_http_server::common::{Headers, Method, Search};
use rust_http_server::handlers::{
    bare_response, file_response, fs_listing, fs_step, items, labels, not_found_handler_default,
    page, site_index, site_listing, site_step, Found, IndexStyle, Step, NOT_FOUND_PAGE,
};
use rust_http_server::listing::{entry_less, sort_entries};
use rust_http_server::text::text_less;
use rust_http_server::request::{Body, Request};
use rust_http_server::response::Response;

fn request(pathname: &str) -> Request {
    Request {
        method: Method::Get,
        pathname: pathname.to_string(),
        search: Search::empty(),
        headers: Headers::builder().build(),
        body: Body::Empty,
    }
}

fn done(step: Step) -> Response {
    match step {
        Step::Done(response) => response,
        _ => panic!("not done"),
    }
}

#[test]
fn the_default_answer_is_the_404_page() {
    let response = not_found_handler_default(&request("/x"));
    assert_eq!(response.status.code, 404);
    assert_eq!(response.status.message, Some("Not Found".to_string()));
    assert_eq!(response.headers.len(), 2);
    assert_eq!(response.headers.line(0), ("Content-Type", "text/html"));
    assert_eq!(
        response.headers.line(1),
        ("Content-Length", NOT_FOUND_PAGE.len().to_string().as_str())
    );
    assert_eq!(response.body.as_str(), NOT_FOUND_PAGE);
    assert!(NOT_FOUND_PAGE.starts_with("<!DOCTYPE html>"));
}

#[test]
fn an_index_style_is_read_from_a_word() {
    assert!(matches!(IndexStyle::parse("dir"), IndexStyle::IndexDirectory));
    assert!(matches!(IndexStyle::parse("DIR"), IndexStyle::IndexDirectory));
    assert!(matches!(IndexStyle::parse("none"), IndexStyle::NotFound));
    assert!(matches!(IndexStyle::parse("None"), IndexStyle::NotFound));
    match IndexStyle::parse("Index.HTML") {
        IndexStyle::IndexFile(name) => assert_eq!(name, "Index.HTML"),
        _ => panic!("no file"),
    }
    assert!(matches!(IndexStyle::from_folded("x", "dir"), IndexStyle::IndexDirectory));
    assert!(matches!(IndexStyle::from_folded("dir", "x"), IndexStyle::IndexFile(_)));
}

#[test]
fn a_bare_response_is_a_status_alone() {
    let response = bare_response(404);
    assert_eq!(response.to_text(), "HTTP/1.1 404 Not Found\n\n");
    assert_eq!(bare_response(500).to_text(), "HTTP/1.1 500\n\n");
}

#[test]
fn a_file_is_sent_with_the_mime_type_of_its_name() {
    let response = file_response("/pic/logo.SVG", Some("<svg/>".to_string()));
    assert_eq!(response.status.code, 200);
    assert_eq!(response.headers.get("Content-Type"), Some(&"image/svg+xml".to_string()));
    assert_eq!(response.headers.get("Content-Length"), None);
    assert_eq!(response.body.as_str(), "<svg/>");
    let response = file_response("/README", Some("hi".to_string()));
    assert_eq!(response.headers.get("Content-Type"), Some(&"text/plain".to_string()));
    let response = file_response("/a.html", None);
    assert_eq!(response.to_text(), "HTTP/1.1 500\n\n");
}

#[test]
fn the_file_handler_decides_by_what_it_finds() {
    let style = IndexStyle::IndexDirectory;
    let response = done(fs_step(&request("/x"), Found::Missing, &style));
    assert_eq!(response.to_text(), "HTTP/1.1 404 Not Found\n\n");
    let response = done(fs_step(&request("/x.txt"), Found::File(Some("t".to_string())), &style));
    assert_eq!(response.to_text(), "HTTP/1.1 200 Ok\nContent-Type: text/plain\n\nt");
    let response = done(fs_step(&request("/x.txt"), Found::File(None), &style));
    assert_eq!(response.status.code, 500);
    assert!(matches!(fs_step(&request("/d"), Found::Directory, &style), Step::List));
    let response = done(fs_step(&request("/d"), Found::Directory, &IndexStyle::NotFound));
    assert_eq!(response.to_text(), "HTTP/1.1 404 Not Found\n\n");
    let style = IndexStyle::IndexFile("index.html".to_string());
    let response = done(fs_step(&request("/d"), Found::Directory, &style));
    assert_eq!(response.status.code, 500);
}

#[test]
fn the_file_handler_of_the_program_decides_by_what_it_finds() {
    let style = IndexStyle::IndexDirectory;
    let response = done(site_step(&request("/x"), Found::Missing, &style));
    assert_eq!(response.status.code, 404);
    assert_eq!(response.body.as_str(), NOT_FOUND_PAGE);
    let response = done(site_step(&request("/x.png"), Found::File(Some("t".to_string())), &style));
    assert_eq!(response.headers.get("content-type"), Some(&"image/png".to_string()));
    assert!(matches!(site_step(&request("/d"), Found::Directory, &style), Step::List));
    let response = done(site_step(&request("/d"), Found::Directory, &IndexStyle::NotFound));
    assert_eq!(response.body.as_str(), NOT_FOUND_PAGE);
    let style = IndexStyle::IndexFile("index.html".to_string());
    match site_step(&request("/d"), Found::Directory, &style) {
        Step::Open(name) => assert_eq!(name, "index.html"),
        _ => panic!("not open"),
    }
}

#[test]
fn an_index_file_is_sent_if_it_is_there() {
    let request = request("/d");
    let response = site_index(&request, "./d/index.html", Found::File(Some("<p>".to_string())));
    assert_eq!(response.to_text(), "HTTP/1.1 200 Ok\nContent-Type: text/html\n\n<p>");
    let response = site_index(&request, "./d/index.html", Found::File(None));
    assert_eq!(response.status.code, 500);
    let response = site_index(&request, "./d/index.html", Found::Missing);
    assert_eq!(response.body.as_str(), NOT_FOUND_PAGE);
    let response = site_index(&request, "./d/index.html", Found::Directory);
    assert_eq!(response.status.code, 404);
}

#[test]
fn a_directory_is_listed_as_a_page() {
    let names = vec!["b.txt".to_string(), "a".to_string()];
    assert_eq!(
        items(&names),
        "<li><a href=\"./b.txt\">b.txt</a></li><li><a href=\"./a\">a</a></li>"
    );
    assert_eq!(items(&Vec::new()), "");
    assert_eq!(
        page("/docs", "ITEMS"),
        "<!DOCTYPE html>\n<html lang=\"en\" dir=\"ltr\">\n<head>\n    <title>Index of /docs</title>\n    <style>:root{color-scheme:light dark;}</style>\n</head>\n<body>\n    <h1>Index of /docs</h1>\n    <ul>ITEMS</ul>\n</body>\n</html>\n"
    );
    let response = fs_listing("/docs", Some(names));
    assert_eq!(response.status.code, 200);
    assert_eq!(response.headers.get("Content-Type"), Some(&"text/html".to_string()));
    assert_eq!(
        response.body.as_str(),
        page("/docs", "<li><a href=\"./b.txt\">b.txt</a></li><li><a href=\"./a\">a</a></li>")
    );
    assert_eq!(fs_listing("/docs", None).to_text(), "HTTP/1.1 500\n\n");
}

#[test]
fn the_program_lists_directories_first_and_by_name() {
    let entries = vec![
        (false, "b.txt".to_string()),
        (true, "src".to_string()),
        (false, "a.txt".to_string()),
        (true, "doc".to_string()),
        (false, "B.txt".to_string()),
    ];
    let response = site_listing("/", Some(entries));
    let list = "<li><a href=\"./doc/\">doc/</a></li><li><a href=\"./src/\">src/</a></li><li><a href=\"./B.txt\">B.txt</a></li><li><a href=\"./a.txt\">a.txt</a></li><li><a href=\"./b.txt\">b.txt</a></li>";
    assert_eq!(response.body.as_str(), page("/", list));
    assert_eq!(response.headers.get("Content-Type"), Some(&"text/html".to_string()));
    assert_eq!(site_listing("/", None).status.code, 500);
    assert_eq!(site_listing("/e", Some(Vec::new())).body.as_str(), page("/e", ""));
}

#[test]
fn entries_are_put_in_order() {
    let mut entries = vec![
        (false, "b".to_string()),
        (true, "z".to_string()),
        (false, "".to_string()),
        (false, "ab".to_string()),
        (true, "a".to_string()),
        (false, "a".to_string()),
        (false, "b".to_string()),
        (false, "é".to_string()),
        (false, "Z".to_string()),
    ];
    let sorted = sort_entries(entries.clone());
    entries.sort_by(|a, b| match (a.0, b.0) {
        (true, false) => std::cmp::Ordering::Less,
        (false, true) => std::cmp::Ordering::Greater,
        _ => a.1.cmp(&b.1),
    });
    assert_eq!(sorted, entries);
    assert_eq!(sort_entries(Vec::new()), Vec::new());
    assert_eq!(
        labels(&sorted)[0..2],
        ["a/".to_string(), "z/".to_string()]
    );
}

#[test]
fn names_are_ordered_character_by_character() {
    assert!(text_less("a", "b"));
    assert!(!text_less("b", "a"));
    assert!(!text_less("a", "a"));
    assert!(text_less("", "a"));
    assert!(!text_less("a", ""));
    assert!(!text_less("", ""));
    assert!(text_less("a", "ab"));
    assert!(text_less("Z", "a"));
    assert!(text_less("z", "é"));
    for (a, b) in [("abc", "abd"), ("x", "xy"), ("é", "z"), ("", ""), ("10", "9")] {
        assert_eq!(text_less(a, b), a < b);
        assert_eq!(text_less(b, a), b < a);
    }
    assert!(entry_less(&(true, "z".to_string()), &(false, "a".to_string())));
    assert!(!entry_less(&(false, "a".to_string()), &(true, "z".to_string())));
    assert!(entry_less(&(true, "a".to_string()), &(true, "b".to_string())));
}

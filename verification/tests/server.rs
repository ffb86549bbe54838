use rust_http_server::common::{Headers, Method, Search};
use rust_http_server::handlers::NOT_FOUND_PAGE;
use rust_http_server::request::{Body, Request};
use rust_http_server::response::{Response, Status};
use rust_http_server::server::{last_port, Choice, Route, Server};

type Handler = fn(&Request) -> Response;

fn say(text: &str) -> Response {
    Response::builder().body(Body::text(text)).build()
}

fn index(_request: &Request) -> Response {
    say("index")
}

fn about(_request: &Request) -> Response {
    say("about")
}

fn submit(_request: &Request) -> Response {
    say("submit")
}

fn fallback(request: &Request) -> Response {
    Response::builder()
        .status(Status::from_code(404))
        .body(Body::text(&request.pathname))
        .build()
}

fn request(method: Method, pathname: &str) -> Request {
    Request {
        method,
        pathname: pathname.to_string(),
        search: Search::empty(),
        headers: Headers::builder().build(),
        body: Body::Empty,
    }
}

fn site() -> Server<Handler> {
    Server::new()
        .get("/", index as Handler)
        .get("/about", about as Handler)
        .post("/submit", submit as Handler)
}

#[test]
fn a_request_goes_to_the_one_route_that_is_for_it() {
    let server = site();
    assert_eq!(server.handle(&request(Method::Get, "/")).body.as_str(), "index");
    assert_eq!(server.handle(&request(Method::Get, "/about")).body.as_str(), "about");
    assert_eq!(server.handle(&request(Method::Post, "/submit")).body.as_str(), "submit");
    assert_eq!(server.select(&Method::Get, "/"), Choice::Route(0));
    assert_eq!(server.select(&Method::Get, "/about"), Choice::Route(1));
    assert_eq!(server.select(&Method::Post, "/submit"), Choice::Route(2));
}

#[test]
fn the_method_of_a_route_must_be_that_of_the_request() {
    let server = site();
    assert_eq!(server.select(&Method::Post, "/"), Choice::Default);
    assert_eq!(server.select(&Method::Get, "/submit"), Choice::Default);
    assert_eq!(server.select(&Method::Other("GET".to_string()), "/"), Choice::Default);
}

#[test]
fn a_route_compares_paths_without_case_unless_it_is_exact() {
    let server: Server<Handler> = Server::new()
        .get("/About", about as Handler)
        .get_exact("/Index", index as Handler)
        .post_exact("/Submit", submit as Handler);
    assert_eq!(server.select(&Method::Get, "/about"), Choice::Route(0));
    assert_eq!(server.select(&Method::Get, "/ABOUT"), Choice::Route(0));
    assert_eq!(server.select(&Method::Get, "/Index"), Choice::Route(1));
    assert_eq!(server.select(&Method::Get, "/index"), Choice::Default);
    assert_eq!(server.select(&Method::Post, "/Submit"), Choice::Route(2));
    assert_eq!(server.select(&Method::Post, "/submit"), Choice::Default);
    assert_eq!(server.select_folded(&Method::Get, "/x", "/about"), Choice::Route(0));
    assert_eq!(server.select_folded(&Method::Get, "/about", "/x"), Choice::Default);
}

#[test]
fn a_route_without_method_is_for_every_method() {
    let route = Route::new(None, "/any", false);
    assert!(route.matches(&Method::Get, "/any"));
    assert!(route.matches(&Method::Post, "/ANY"));
    assert!(route.matches(&Method::Other("PATCH".to_string()), "/Any"));
    assert!(!route.matches(&Method::Get, "/other"));
    let exact = Route::new(None, "/Any", true);
    assert!(exact.matches(&Method::Other("PATCH".to_string()), "/Any"));
    assert!(!exact.matches(&Method::Get, "/any"));
    let server: Server<Handler> = Server::new().route(route, about as Handler);
    assert_eq!(server.handle(&request(Method::Post, "/any")).body.as_str(), "about");
    assert_eq!(
        server.handle(&request(Method::Other("X".to_string()), "/any")).body.as_str(),
        "about"
    );
}

#[test]
fn a_request_that_no_route_is_for_goes_to_the_not_found_handler() {
    let server = site().not_found(fallback as Handler);
    assert_eq!(server.select(&Method::Get, "/missing"), Choice::NotFound);
    let response = server.handle(&request(Method::Get, "/missing"));
    assert_eq!(response.status.code, 404);
    assert_eq!(response.body.as_str(), "/missing");
    assert_eq!(server.handle(&request(Method::Get, "/")).body.as_str(), "index");
}

#[test]
fn the_not_found_handler_alone_catches_every_request() {
    let server: Server<Handler> = Server::new().not_found(fallback as Handler);
    assert_eq!(server.handle(&request(Method::Get, "/a")).body.as_str(), "/a");
    assert_eq!(server.handle(&request(Method::Post, "/b")).body.as_str(), "/b");
}

#[test]
fn a_request_for_a_missing_page_gets_the_default_404() {
    let server: Server<Handler> = Server::new().get("/", index as Handler);
    let parsed = Request::parse(b"GET /missing HTTP/1.1\r\n\r\n").unwrap();
    let response = server.handle(&parsed);
    assert_eq!(response.status.code, 404);
    assert_eq!(response.status.message, Some("Not Found".to_string()));
    assert_eq!(response.body.as_str(), NOT_FOUND_PAGE);
    assert_eq!(response.headers.get("Content-Type"), Some(&"text/html".to_string()));
    assert_eq!(
        response.headers.get("Content-Length"),
        Some(&NOT_FOUND_PAGE.len().to_string())
    );
    let wire = response.to_text();
    assert!(wire.starts_with("HTTP/1.1 404 Not Found\nContent-Type: text/html\nContent-Length: "));
    assert!(wire.ends_with(NOT_FOUND_PAGE));
}

#[test]
fn registering_a_route_again_replaces_its_handler() {
    let server: Server<Handler> = Server::new()
        .get("/", index as Handler)
        .get("/about", about as Handler)
        .get("/", submit as Handler);
    assert_eq!(server.select(&Method::Get, "/"), Choice::Route(0));
    assert_eq!(server.select(&Method::Get, "/about"), Choice::Route(1));
    assert_eq!(server.select(&Method::Get, "/nothing"), Choice::Default);
    assert_eq!(server.handle(&request(Method::Get, "/")).body.as_str(), "submit");
    assert_eq!(server.handle(&request(Method::Get, "/about")).body.as_str(), "about");
}

#[test]
fn an_entry_keeps_the_case_rule_it_was_first_given() {
    let server: Server<Handler> = Server::new()
        .get("/a", index as Handler)
        .get_exact("/a", about as Handler);
    assert_eq!(server.handle(&request(Method::Get, "/A")).body.as_str(), "about");
}

#[test]
fn paths_that_differ_in_case_are_entries_of_their_own() {
    let server: Server<Handler> = Server::new()
        .get("/a", index as Handler)
        .get("/A", about as Handler);
    assert_eq!(server.select(&Method::Get, "/A"), Choice::Route(0));
    assert_eq!(server.handle(&request(Method::Get, "/A")).body.as_str(), "index");
}

#[test]
fn of_two_routes_for_a_request_the_first_answers() {
    let server: Server<Handler> = Server::new()
        .route(Route::new(None, "/x", false), index as Handler)
        .get("/x", about as Handler);
    assert_eq!(server.select(&Method::Get, "/x"), Choice::Route(0));
    let server: Server<Handler> = Server::new()
        .get("/x", about as Handler)
        .route(Route::new(None, "/x", false), index as Handler);
    assert_eq!(server.select(&Method::Get, "/x"), Choice::Route(0));
    assert_eq!(server.select(&Method::Post, "/x"), Choice::Route(1));
}

#[test]
fn routes_have_keys() {
    let a = Route::new(Some(Method::Get), "/a", false);
    let b = Route::new(Some(Method::Get), "/a", true);
    let c = Route::new(Some(Method::Post), "/a", false);
    let d = Route::new(Some(Method::Get), "/A", false);
    let e = Route::new(None, "/a", false);
    assert!(a.same_key(&b));
    assert!(!a.same_key(&c));
    assert!(!a.same_key(&d));
    assert!(!a.same_key(&e));
    assert!(e.same_key(&Route::new(None, "/a", true)));
    assert!(a.matches_folded(&Method::Get, "/zzz", "/a"));
    assert!(!b.matches_folded(&Method::Get, "/zzz", "/a"));
    let f = Route::with_folded(None, "/Shown", "/form", false);
    assert!(f.matches_folded(&Method::Post, "/x", "/form"));
    assert!(!f.matches_folded(&Method::Post, "/Shown", "/shown"));
    assert!(!f.matches(&Method::Post, "/Shown"));
    assert!(f.matches(&Method::Post, "/FORM"));
}

#[test]
fn the_port_range_ends_nine_ports_on() {
    assert_eq!(last_port(8080), 8089);
    assert_eq!(last_port(0), 9);
    assert_eq!(last_port(65526), 65535);
    assert_eq!(last_port(65527), 65535);
    assert_eq!(last_port(65535), 65535);
}

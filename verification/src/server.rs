//! The routing table: routes, their registration, and the choice of the
//! handler that answers a request.

use crate::common::{Method, MethodView};
use crate::handlers::{default_not_found, not_found_handler_default};
use crate::request::Request;
use crate::response::Response;
use crate::text::{first_at, lemma_first_at, lemma_first_at_is, lowercase, same_text, to_lowercase};
use vstd::prelude::*;

verus! {

/// A route as the contracts see it.
pub struct RouteView {
    /// The method that the route is for; `None` is for every method.
    pub method: Option<MethodView>,
    /// The path that the route is for.
    pub path: Seq<char>,
    /// The form by which the path is compared where case does not count:
    /// its lower case.
    pub folded: Seq<char>,
    /// Whether the path is compared letter for letter.
    pub case_sensitive: bool,
}

/// Tells whether `route` is for a request with this method and path, where
/// `folded` stands for the path in lower case: the method of the route is
/// unset or the same, and the path is the same, letter for letter if the
/// route is case sensitive and by the folded forms if not.
pub open spec fn matches_folded(
    route: RouteView,
    method: MethodView,
    path: Seq<char>,
    folded: Seq<char>,
) -> bool {
    &&& route.method is None || route.method == Some(method)
    &&& if route.case_sensitive {
        route.path == path
    } else {
        route.folded == folded
    }
}

/// Tells whether `route` is for a request with this method and path.
pub open spec fn route_matches(route: RouteView, method: MethodView, path: Seq<char>) -> bool {
    matches_folded(route, method, path, lowercase(path))
}

/// Two routes are one entry of the table when they have the same method
/// and the same path, letter for letter.
pub open spec fn same_key(a: RouteView, b: RouteView) -> bool {
    a.method == b.method && a.path == b.path
}

/// A rule that says which requests a handler is for.
#[derive(Debug)]
pub struct Route {
    method: Option<Method>,
    path: String,
    folded: String,
    case_sensitive: bool,
}

impl View for Route {
    type V = RouteView;

    closed spec fn view(&self) -> RouteView {
        RouteView {
            method: match self.method {
                Some(m) => Some(m@),
                None => None,
            },
            path: self.path@,
            folded: self.folded@,
            case_sensitive: self.case_sensitive,
        }
    }
}

impl Route {
    /// A route for `method`, or for every method if it is `None`, and for
    /// `path`, which is compared in lower case where case does not count.
    pub fn new(method: Option<Method>, path: &str, case_sensitive: bool) -> (r: Route)
        ensures
            r@ == (RouteView {
                method: match method {
                    Some(m) => Some(m@),
                    None => None,
                },
                path: path@,
                folded: lowercase(path@),
                case_sensitive,
            }),
    {
        let folded = to_lowercase(path);
        Route::with_folded(method, path, folded.as_str(), case_sensitive)
    }

    /// A route for `method`, or for every method if it is `None`, and for
    /// `path`, which is compared by `folded` where case does not count.
    pub fn with_folded(method: Option<Method>, path: &str, folded: &str, case_sensitive: bool)
        -> (r: Route)
        ensures
            r@ == (RouteView {
                method: match method {
                    Some(m) => Some(m@),
                    None => None,
                },
                path: path@,
                folded: folded@,
                case_sensitive,
            }),
    {
        Route { method, path: path.to_owned(), folded: folded.to_owned(), case_sensitive }
    }

    /// A route with the same method, path and case rule.
    fn copy(&self) -> (r: Route)
        ensures
            r@ == self@,
    {
        let method = match &self.method {
            Some(m) => Some(m.clone()),
            None => None,
        };
        Route {
            method,
            path: self.path.clone(),
            folded: self.folded.clone(),
            case_sensitive: self.case_sensitive,
        }
    }

    /// Tells whether the route is for a request with this method and path.
    pub fn matches(&self, method: &Method, path: &str) -> (r: bool)
        ensures
            r == route_matches(self@, method@, path@),
    {
        let folded = to_lowercase(path);
        self.matches_folded(method, path, folded.as_str())
    }

    /// Tells whether the route is for a request with this method and path,
    /// where `folded` is taken for the path in lower case.
    pub fn matches_folded(&self, method: &Method, path: &str, folded: &str) -> (r: bool)
        ensures
            r == matches_folded(self@, method@, path@, folded@),
    {
        let method_fits = match &self.method {
            None => true,
            Some(m) => m.same(method),
        };
        method_fits && if self.case_sensitive {
            same_text(self.path.as_str(), path)
        } else {
            same_text(self.folded.as_str(), folded)
        }
    }

    /// Tells whether `self` and `other` are one entry of the table.
    pub fn same_key(&self, other: &Route) -> (r: bool)
        ensures
            r == same_key(self@, other@),
    {
        let same_method = match (&self.method, &other.method) {
            (None, None) => true,
            (Some(a), Some(b)) => a.same(b),
            _ => false,
        };
        same_method && same_text(self.path.as_str(), other.path.as_str())
    }
}

/// Which handler answers a request.
#[derive(Debug, Clone, Copy, PartialEq, Eq, Structural)]
pub enum Choice {
    /// The handler of the route at this place in the table.
    Route(usize),
    /// The not-found handler that was configured.
    NotFound,
    /// The default not-found answer.
    Default,
}

/// For each route, whether it is for the request.
pub open spec fn fits(routes: Seq<RouteView>, method: MethodView, path: Seq<char>, folded: Seq<char>)
    -> Seq<bool> {
    routes.map_values(|r: RouteView| matches_folded(r, method, path, folded))
}

/// The choice for a request, where `folded` stands for its path in lower
/// case: the first route of the table that is for the request; without
/// one, the not-found handler if one is configured, else the default.
pub open spec fn choice_folded(
    routes: Seq<RouteView>,
    fallback: bool,
    method: MethodView,
    path: Seq<char>,
    folded: Seq<char>,
) -> Choice {
    let i = first_at(fits(routes, method, path, folded), true);
    if 0 <= i < routes.len() {
        Choice::Route(i as usize)
    } else if fallback {
        Choice::NotFound
    } else {
        Choice::Default
    }
}

/// The choice for a request with this method and path.
pub open spec fn choice_of(
    routes: Seq<RouteView>,
    fallback: bool,
    method: MethodView,
    path: Seq<char>,
) -> Choice {
    choice_folded(routes, fallback, method, path, lowercase(path))
}

/// The keys of the table: for each route, whether it is one entry with `route`.
pub open spec fn keys_like(routes: Seq<RouteView>, route: RouteView) -> Seq<bool> {
    routes.map_values(|r: RouteView| same_key(r, route))
}

/// The place in the table where `route` goes: that of the first entry with
/// the same method and path, or the end.
pub open spec fn place_of(routes: Seq<RouteView>, route: RouteView) -> int {
    first_at(keys_like(routes, route), true)
}

/// The routes after `route` is registered: an entry with the same method
/// and path stays as it is; otherwise `route` is added at the end.
pub open spec fn routes_with(routes: Seq<RouteView>, route: RouteView) -> Seq<RouteView> {
    if 0 <= place_of(routes, route) < routes.len() {
        routes
    } else {
        routes.push(route)
    }
}

/// The handlers after `handler` is registered for `route`: it replaces the
/// handler of an entry with the same method and path; otherwise it is
/// added at the end.
pub open spec fn handlers_with<H>(
    routes: Seq<RouteView>,
    handlers: Seq<H>,
    route: RouteView,
    handler: H,
) -> Seq<H> {
    let i = place_of(routes, route);
    if 0 <= i < routes.len() {
        handlers.update(i, handler)
    } else {
        handlers.push(handler)
    }
}

/// No two routes are one entry of the table.
pub open spec fn distinct_keys(routes: Seq<RouteView>) -> bool {
    forall|i: int, j: int|
        0 <= i < j < routes.len() ==> !same_key(#[trigger] routes[i], #[trigger] routes[j])
}

/// Registering a route keeps the entries of the table distinct.
pub proof fn lemma_routes_with_keeps_distinct(routes: Seq<RouteView>, route: RouteView)
    requires
        distinct_keys(routes),
    ensures
        distinct_keys(routes_with(routes, route)),
{
    let after = routes_with(routes, route);
    lemma_first_at(keys_like(routes, route), true);
    assert forall|i: int, j: int| 0 <= i < j < after.len() implies !same_key(
        #[trigger] after[i],
        #[trigger] after[j],
    ) by {
        if j == routes.len() {
            assert(keys_like(routes, route)[i] == same_key(routes[i], route));
        } else {
            assert(after[i] == routes[i] && after[j] == routes[j]);
        }
    }
}

/// The routes of a vector of table entries.
pub open spec fn routes_in<H>(entries: Seq<(Route, H)>) -> Seq<RouteView> {
    entries.map_values(|e: (Route, H)| e.0@)
}

/// The handlers of a vector of table entries.
pub open spec fn handlers_in<H>(entries: Seq<(Route, H)>) -> Seq<H> {
    entries.map_values(|e: (Route, H)| e.1)
}

/// A request that exactly one route is for is answered by that route.
pub proof fn lemma_single_match(
    routes: Seq<RouteView>,
    fallback: bool,
    method: MethodView,
    path: Seq<char>,
    i: int,
)
    requires
        0 <= i < routes.len(),
        i <= usize::MAX,
        route_matches(routes[i], method, path),
        forall|j: int| 0 <= j < routes.len() && j != i ==> !route_matches(routes[j], method, path),
    ensures
        choice_of(routes, fallback, method, path) == Choice::Route(i as usize),
{
    lemma_first_at_is(fits(routes, method, path, lowercase(path)), true, i);
}

/// A route without a method is for a request of any method, if its path
/// is that of the request.
pub proof fn lemma_catch_all(route: RouteView, method: MethodView, path: Seq<char>)
    requires
        route.method is None,
        if route.case_sensitive {
            route.path == path
        } else {
            route.folded == lowercase(path)
        },
    ensures
        route_matches(route, method, path),
{
}

/// A request that no route is for goes to the not-found handler, if one
/// is configured, and else gets the default answer.
pub proof fn lemma_no_match(
    routes: Seq<RouteView>,
    fallback: bool,
    method: MethodView,
    path: Seq<char>,
)
    requires
        forall|j: int| 0 <= j < routes.len() ==> !route_matches(routes[j], method, path),
    ensures
        choice_of(routes, fallback, method, path) == if fallback {
            Choice::NotFound
        } else {
            Choice::Default
        },
{
    lemma_first_at_is(
        fits(routes, method, path, lowercase(path)),
        true,
        routes.len() as int,
    );
}

/// The choice for a request is a route only if that route is for the
/// request and no route before it is.
pub proof fn lemma_choice_is_first(
    routes: Seq<RouteView>,
    fallback: bool,
    method: MethodView,
    path: Seq<char>,
)
    requires
        routes.len() <= usize::MAX,
    ensures
        choice_of(routes, fallback, method, path) matches Choice::Route(i) ==> i < routes.len()
            && route_matches(routes[i as int], method, path) && forall|j: int|
            0 <= j < i ==> !route_matches(routes[j], method, path),
        choice_of(routes, fallback, method, path) !is Route ==> forall|j: int|
            0 <= j < routes.len() ==> !route_matches(routes[j], method, path),
{
    let f = fits(routes, method, path, lowercase(path));
    lemma_first_at(f, true);
    if first_at(f, true) < routes.len() {
        assert(f[first_at(f, true)] == route_matches(routes[first_at(f, true)], method, path));
    }
    assert forall|j: int| 0 <= j < first_at(f, true) implies !route_matches(
        routes[j],
        method,
        path,
    ) by {
        assert(f[j] == route_matches(routes[j], method, path));
    }
}

/// A simple server: a table of routes with their handlers, and one
/// optional handler for the requests that no route is for. The table is
/// built once, by chained calls, and then only read. Of several routes
/// that are for one request, the one registered first answers.
pub struct Server<H> {
    entries: Vec<(Route, H)>,
    not_found_handler: Option<H>,
}

impl<H> Server<H> {
    #[verifier::type_invariant]
    spec fn one_entry_per_key(self) -> bool {
        distinct_keys(routes_in(self.entries@))
    }

    /// The routes of the table, in the order of their registration.
    pub closed spec fn routes(&self) -> Seq<RouteView> {
        routes_in(self.entries@)
    }

    /// The handlers of the routes, in the same order.
    pub closed spec fn handlers(&self) -> Seq<H> {
        handlers_in(self.entries@)
    }

    /// The not-found handler, if one is configured.
    pub closed spec fn fallback(&self) -> Option<H> {
        self.not_found_handler
    }

    /// Creates a server with no routes and no not-found handler.
    pub fn new() -> (s: Server<H>)
        ensures
            s.routes() == Seq::<RouteView>::empty(),
            s.handlers() == Seq::<H>::empty(),
            s.fallback() is None,
            distinct_keys(s.routes()),
    {
        let entries: Vec<(Route, H)> = Vec::new();
        assert(routes_in(entries@) =~= Seq::<RouteView>::empty());
        assert(handlers_in(entries@) =~= Seq::<H>::empty());
        Server { entries, not_found_handler: None }
    }

    /// Registers `handler` for `route`. If the table has an entry with the
    /// same method and path, that entry gets the new handler.
    pub fn route(self, route: Route, handler: H) -> (s: Server<H>)
        ensures
            s.routes() == routes_with(self.routes(), route@),
            s.handlers() == handlers_with(self.routes(), self.handlers(), route@, handler),
            s.routes().len() == s.handlers().len(),
            s.fallback() == self.fallback(),
            distinct_keys(s.routes()),
    {
        proof {
            use_type_invariant(&self);
            lemma_routes_with_keeps_distinct(self.routes(), route@);
        }
        let mut entries = self.entries;
        let ghost before = entries@;
        let mut i: usize = 0;
        while i < entries.len() && !entries[i].0.same_key(&route)
            invariant
                entries@ == before,
                i <= entries@.len(),
                forall|j: int| 0 <= j < i ==> !keys_like(routes_in(before), route@)[j],
            decreases entries@.len() - i,
        {
            i += 1;
        }
        proof {
            lemma_first_at_is(keys_like(routes_in(before), route@), true, i as int);
        }
        if i < entries.len() {
            let kept = entries[i].0.copy();
            entries.set(i, (kept, handler));
            assert(routes_in(entries@) =~= routes_in(before));
            assert(handlers_in(entries@) =~= handlers_in(before).update(i as int, handler));
        } else {
            entries.push((route, handler));
            assert(routes_in(entries@) =~= routes_in(before).push(route@));
            assert(handlers_in(entries@) =~= handlers_in(before).push(handler));
        }
        Server { entries, not_found_handler: self.not_found_handler }
    }

    /// Registers `handler` for `GET` requests to `path`, in any case.
    pub fn get(self, path: &str, handler: H) -> (s: Server<H>)
        ensures
            s.routes() == routes_with(self.routes(), route_for(MethodView::Get, path@, false)),
            s.handlers() == handlers_with(
                self.routes(),
                self.handlers(),
                route_for(MethodView::Get, path@, false),
                handler,
            ),
            s.fallback() == self.fallback(),
    {
        self.route(Route::new(Some(Method::Get), path, false), handler)
    }

    /// Registers `handler` for `GET` requests to `path`, letter for letter.
    pub fn get_exact(self, path: &str, handler: H) -> (s: Server<H>)
        ensures
            s.routes() == routes_with(self.routes(), route_for(MethodView::Get, path@, true)),
            s.handlers() == handlers_with(
                self.routes(),
                self.handlers(),
                route_for(MethodView::Get, path@, true),
                handler,
            ),
            s.fallback() == self.fallback(),
    {
        self.route(Route::new(Some(Method::Get), path, true), handler)
    }

    /// Registers `handler` for `POST` requests to `path`, in any case.
    pub fn post(self, path: &str, handler: H) -> (s: Server<H>)
        ensures
            s.routes() == routes_with(self.routes(), route_for(MethodView::Post, path@, false)),
            s.handlers() == handlers_with(
                self.routes(),
                self.handlers(),
                route_for(MethodView::Post, path@, false),
                handler,
            ),
            s.fallback() == self.fallback(),
    {
        self.route(Route::new(Some(Method::Post), path, false), handler)
    }

    /// Registers `handler` for `POST` requests to `path`, letter for letter.
    pub fn post_exact(self, path: &str, handler: H) -> (s: Server<H>)
        ensures
            s.routes() == routes_with(self.routes(), route_for(MethodView::Post, path@, true)),
            s.handlers() == handlers_with(
                self.routes(),
                self.handlers(),
                route_for(MethodView::Post, path@, true),
                handler,
            ),
            s.fallback() == self.fallback(),
    {
        self.route(Route::new(Some(Method::Post), path, true), handler)
    }

    /// Sets the handler for the requests that no route is for. It can
    /// serve as a 404 page, or, in a table without routes, as a catch-all.
    pub fn not_found(self, handler: H) -> (s: Server<H>)
        ensures
            s.routes() == self.routes(),
            s.handlers() == self.handlers(),
            s.fallback() == Some(handler),
    {
        proof {
            use_type_invariant(&self);
        }
        Server { entries: self.entries, not_found_handler: Some(handler) }
    }

    /// Says which handler answers a request with this method and path.
    pub fn select(&self, method: &Method, path: &str) -> (c: Choice)
        ensures
            c == choice_of(self.routes(), self.fallback() is Some, method@, path@),
            c matches Choice::Route(i) ==> i < self.handlers().len(),
    {
        let folded = to_lowercase(path);
        self.select_folded(method, path, folded.as_str())
    }

    /// Says which handler answers a request with this method and path,
    /// where `folded` is taken for the path in lower case.
    pub fn select_folded(&self, method: &Method, path: &str, folded: &str) -> (c: Choice)
        ensures
            c == choice_folded(self.routes(), self.fallback() is Some, method@, path@, folded@),
            c matches Choice::Route(i) ==> i < self.handlers().len(),
    {
        let mut i: usize = 0;
        while i < self.entries.len() && !self.entries[i].0.matches_folded(method, path, folded)
            invariant
                i <= self.entries@.len(),
                forall|j: int|
                    0 <= j < i ==> !fits(routes_in(self.entries@), method@, path@, folded@)[j],
            decreases self.entries@.len() - i,
        {
            i += 1;
        }
        proof {
            lemma_first_at_is(
                fits(routes_in(self.entries@), method@, path@, folded@),
                true,
                i as int,
            );
        }
        if i < self.entries.len() {
            Choice::Route(i)
        } else if self.not_found_handler.is_some() {
            Choice::NotFound
        } else {
            Choice::Default
        }
    }

    /// Every handler of the table, and the not-found handler, can be
    /// called with `request`.
    pub open spec fn accepts(&self, request: &Request) -> bool where H: Fn(&Request) -> Response {
        &&& forall|i: int|
            0 <= i < self.handlers().len() ==> call_requires(
                #[trigger] self.handlers()[i],
                (request,),
            )
        &&& self.fallback() matches Some(h) ==> call_requires(h, (request,))
    }

    /// Answers a request: with the handler of the first route that is for
    /// it; without such a route, with the not-found handler if one is
    /// configured, and else with the default 404 page.
    pub fn handle(&self, request: &Request) -> (r: Response) where H: Fn(&Request) -> Response
        requires
            self.accepts(request),
        ensures
            match choice_of(
                self.routes(),
                self.fallback() is Some,
                request.method@,
                request.pathname@,
            ) {
                Choice::Route(i) => i < self.handlers().len() && call_ensures(
                    self.handlers()[i as int],
                    (request,),
                    r,
                ),
                Choice::NotFound => self.fallback() is Some && call_ensures(
                    self.fallback()->0,
                    (request,),
                    r,
                ),
                Choice::Default => r@ == default_not_found(),
            },
    {
        match self.select(&request.method, request.pathname.as_str()) {
            Choice::Route(i) => {
                assert(self.handlers()[i as int] == self.entries@[i as int].1);
                (self.entries[i].1)(request)
            },
            Choice::NotFound => match &self.not_found_handler {
                Some(handler) => handler(request),
                None => not_found_handler_default(request),
            },
            Choice::Default => not_found_handler_default(request),
        }
    }
}

impl<H> Default for Server<H> {
    /// A server with no routes and no not-found handler.
    fn default() -> (s: Server<H>)
        ensures
            s.routes() == Seq::<RouteView>::empty(),
            s.handlers() == Seq::<H>::empty(),
            s.fallback() is None,
    {
        Server::new()
    }
}

/// The last port that is tried when the preferred one is busy: nine
/// after it, or the highest port there is.
pub fn last_port(port: u16) -> (last: u16)
    ensures
        last == if port + 9 <= u16::MAX {
            port + 9
        } else {
            u16::MAX as int
        },
{
    match port.checked_add(9) {
        Some(last) => last,
        None => u16::MAX,
    }
}

/// The route for `method` and `path`.
pub open spec fn route_for(method: MethodView, path: Seq<char>, case_sensitive: bool) -> RouteView {
    RouteView { method: Some(method), path, folded: lowercase(path), case_sensitive }
}

} // verus!

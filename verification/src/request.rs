//! Requests: the body type, the request itself, and the parser that reads
//! a request from the bytes of a connection.

use crate::common::{
    method_of, search_of, value_of, with_line, Headers, HeadersBuilder, Line, Method,
    MethodView, Params, Search,
};
use crate::number::{parse_word, word_of};
use crate::text::{
    blank, chars_of, find_byte, first_at, is_blank, lemma_first_at, split, split_once, split_once_pair,
    split_once_pair_text, split_once_text, split_text, texts,
};
use vstd::prelude::*;
use vstd::slice::slice_subrange;
use vstd::utf8::{decode_utf8, encode_utf8, valid_utf8};

verus! {

/// Body of a request or a response.
#[derive(Debug)]
pub enum Body {
    /// The body has data.
    Data(String),
    /// The body has no data.
    Empty,
}

impl View for Body {
    type V = Option<Seq<char>>;

    open spec fn view(&self) -> Option<Seq<char>> {
        match self {
            Body::Data(data) => Some(data@),
            Body::Empty => None,
        }
    }
}

/// The text that a body carries: nothing, for an empty one.
pub open spec fn body_text(body: Option<Seq<char>>) -> Seq<char> {
    match body {
        Some(data) => data,
        None => Seq::empty(),
    }
}

impl Body {
    /// The length of the body in bytes (`0` for `Body::Empty`).
    pub fn len(&self) -> (n: usize)
        ensures
            n == encode_utf8(body_text(self@)).len(),
    {
        match self {
            Body::Data(data) => data.as_str().as_bytes().len(),
            Body::Empty => {
                assert(encode_utf8(Seq::<char>::empty()).len() == 0);
                0
            },
        }
    }

    /// Tells whether the body carries no text.
    pub fn is_empty(&self) -> (r: bool)
        ensures
            r == (body_text(self@).len() == 0),
    {
        match self {
            Body::Data(data) => data.as_str().is_empty(),
            Body::Empty => true,
        }
    }

    /// A body that carries `text`.
    pub fn text(text: &str) -> (b: Body)
        ensures
            b@ == Some(text@),
    {
        Body::Data(text.to_owned())
    }

    /// What the body carries, as text.
    pub fn as_str(&self) -> (s: &str)
        ensures
            s@ == body_text(self@),
    {
        match self {
            Body::Data(data) => data.as_str(),
            Body::Empty => {
                proof {
                    reveal_strlit("");
                }
                assert(""@ =~= Seq::<char>::empty());
                ""
            },
        }
    }
}

impl From<()> for Body {
    /// The empty body.
    fn from(unit: ()) -> (b: Body)
        ensures
            b@ == None::<Seq<char>>,
    {
        Body::Empty
    }
}

impl vstd::std_specs::convert::FromSpecImpl<()> for Body {
    open spec fn obeys_from_spec() -> bool {
        true
    }

    open spec fn from_spec(unit: ()) -> Body {
        Body::Empty
    }
}

impl From<String> for Body {
    /// A body that carries `value`.
    fn from(value: String) -> (b: Body)
        ensures
            b@ == Some(value@),
    {
        Body::Data(value)
    }
}

impl vstd::std_specs::convert::FromSpecImpl<String> for Body {
    open spec fn obeys_from_spec() -> bool {
        true
    }

    open spec fn from_spec(value: String) -> Body {
        Body::Data(value)
    }
}

impl<'a> From<&'a str> for Body {
    /// A body that carries `value`.
    fn from(value: &'a str) -> (b: Body)
        ensures
            b@ == Some(value@),
    {
        Body::text(value)
    }
}

impl<'a> vstd::std_specs::convert::FromSpecImpl<&'a str> for Body {
    open spec fn obeys_from_spec() -> bool {
        false
    }

    open spec fn from_spec(value: &'a str) -> Body {
        arbitrary()
    }
}

impl Clone for Body {
    fn clone(&self) -> (b: Body)
        ensures
            b@ == self@,
    {
        match self {
            Body::Data(data) => Body::Data(data.clone()),
            Body::Empty => Body::Empty,
        }
    }
}

/// Why the bytes of a connection are no request.
#[derive(Debug, Clone, Copy, PartialEq, Eq, Structural)]
pub enum ParseError {
    /// The target of the request line does not begin with `/`.
    RequestLine,
    /// A segment of the query string has no `=`.
    Query,
    /// A header line has no `": "` between name and value.
    Header,
    /// The value of `Content-Length` is no number that fits a machine word.
    ContentLength,
    /// The bytes end before the announced length of the body.
    TruncatedBody,
    /// A line or the body is not UTF-8 text.
    Encoding,
}

/// A request as the contracts see it.
pub struct RequestView {
    /// The method.
    pub method: MethodView,
    /// The path, which begins with `/`.
    pub pathname: Seq<char>,
    /// The query parameters.
    pub search: Params,
    /// The header lines.
    pub headers: Seq<Line>,
    /// The body: `None` when there is none.
    pub body: Option<Seq<char>>,
}

/// Request structure.
#[derive(Debug)]
pub struct Request {
    /// Method of the request.
    pub method: Method,
    /// Pathname of the request.
    pub pathname: String,
    /// Search string of the request.
    pub search: Search,
    /// Headers of the request.
    pub headers: Headers,
    /// Body of the request.
    pub body: Body,
}

impl View for Request {
    type V = RequestView;

    open spec fn view(&self) -> RequestView {
        RequestView {
            method: self.method@,
            pathname: self.pathname@,
            search: self.search@,
            headers: self.headers@,
            body: self.body@,
        }
    }
}

/// Where the line that starts at `from` ends: at its line feed, or at the
/// end of the input when there is none.
pub open spec fn line_end(input: Seq<u8>, from: int) -> int {
    from + first_at(input.skip(from), 10u8)
}

/// Where the line after the one that starts at `from` starts.
pub open spec fn line_after(input: Seq<u8>, from: int) -> int {
    if line_end(input, from) < input.len() {
        line_end(input, from) + 1
    } else {
        input.len() as int
    }
}

/// The bytes of the line that starts at `from`, without its line feed and
/// without the carriage return before the line feed, if there is one.
pub open spec fn line_bytes(input: Seq<u8>, from: int) -> Seq<u8> {
    let end = line_end(input, from);
    if from < end < input.len() && input[end - 1] == 13u8 {
        input.subrange(from, end - 1)
    } else {
        input.subrange(from, end)
    }
}

/// The text of a run of bytes, when they are UTF-8.
pub open spec fn text_of(bytes: Seq<u8>) -> Option<Seq<char>> {
    if valid_utf8(bytes) {
        Some(decode_utf8(bytes))
    } else {
        None
    }
}

/// Path and query parameters of a request target. The target begins with
/// `/`; what follows its first `?` is the query string.
pub open spec fn target_of(target: Seq<char>) -> Result<(Seq<char>, Params), ParseError> {
    if target.len() == 0 || target[0] != '/' {
        Err(ParseError::RequestLine)
    } else {
        match split_once(target, '?') {
            None => Ok((target, Map::empty())),
            Some((path, query)) => match search_of(query) {
                Some(params) => Ok((path, params)),
                None => Err(ParseError::Query),
            },
        }
    }
}

/// What a request line says: its first token is the method, its second the
/// target. A line without a second token asks for `/`.
pub open spec fn request_line_of(line: Seq<char>) -> Result<
    (MethodView, Seq<char>, Params),
    ParseError,
> {
    let tokens = split(line, ' ');
    let target = if tokens.len() > 1 {
        tokens[1]
    } else {
        "/"@
    };
    match target_of(target) {
        Ok((path, params)) => Ok((method_of(tokens[0]), path, params)),
        Err(e) => Err(e),
    }
}

/// The header lines read from `pos` on, stored into `lines`, and the place
/// where the body starts: after the first line that is blank. The end of
/// the input counts as a blank line.
pub open spec fn headers_from(input: Seq<u8>, pos: int, lines: Seq<Line>) -> Result<
    (Seq<Line>, int),
    ParseError,
>
    decreases input.len() - pos,
    when 0 <= pos <= input.len()
    via headers_from_ends
{
    match text_of(line_bytes(input, pos)) {
        None => Err(ParseError::Encoding),
        Some(line) => if is_blank(line) {
            Ok((lines, line_after(input, pos)))
        } else {
            match split_once_pair(line, ':', ' ') {
                None => Err(ParseError::Header),
                Some((name, value)) => headers_from(
                    input,
                    line_after(input, pos),
                    with_line(lines, name, value),
                ),
            }
        },
    }
}

#[via_fn]
proof fn headers_from_ends(input: Seq<u8>, pos: int, lines: Seq<Line>) {
    lemma_line_after(input, pos);
}

/// The next line starts inside the input, and after `from` unless `from`
/// is the end of the input, where the line is empty.
pub proof fn lemma_line_after(input: Seq<u8>, from: int)
    requires
        0 <= from <= input.len(),
    ensures
        from <= line_end(input, from) <= input.len(),
        from <= line_after(input, from) <= input.len(),
        from < input.len() ==> from < line_after(input, from),
        from == input.len() ==> line_bytes(input, from) == Seq::<u8>::empty(),
{
    lemma_first_at(input.skip(from), 10u8);
    if from == input.len() {
        assert(line_bytes(input, from) =~= Seq::<u8>::empty());
    }
}

/// A body of the length that `value` announces: exactly that many bytes
/// from `start` on, as text.
pub open spec fn framed_body(input: Seq<u8>, start: int, value: Seq<char>) -> Result<
    Seq<char>,
    ParseError,
> {
    match word_of(value) {
        None => Err(ParseError::ContentLength),
        Some(n) => if start + n > input.len() {
            Err(ParseError::TruncatedBody)
        } else {
            match text_of(input.subrange(start, start + n)) {
                Some(data) => Ok(data),
                None => Err(ParseError::Encoding),
            }
        },
    }
}

/// The body that follows the head. Only a `POST` with a `Content-Length`
/// has one, of the length that the header announces.
pub open spec fn body_from(input: Seq<u8>, start: int, method: MethodView, lines: Seq<Line>)
    -> Result<Option<Seq<char>>, ParseError> {
    if method != MethodView::Post {
        Ok(None)
    } else {
        match value_of(lines, "Content-Length"@) {
            None => Ok(None),
            Some(value) => match framed_body(input, start, value) {
                Ok(data) => Ok(Some(data)),
                Err(e) => Err(e),
            },
        }
    }
}

/// The request that the bytes `input` hold, or the reason why they hold none.
pub open spec fn parsed(input: Seq<u8>) -> Result<RequestView, ParseError> {
    match text_of(line_bytes(input, 0)) {
        None => Err(ParseError::Encoding),
        Some(first) => match request_line_of(first) {
            Err(e) => Err(e),
            Ok((method, pathname, search)) => match headers_from(
                input,
                line_after(input, 0),
                Seq::empty(),
            ) {
                Err(e) => Err(e),
                Ok((headers, start)) => match body_from(input, start, method, headers) {
                    Err(e) => Err(e),
                    Ok(body) => Ok(RequestView { method, pathname, search, headers, body }),
                },
            },
        },
    }
}

/// The number of body bytes that the head of a request announces: the
/// value of `Content-Length` for a `POST` that has one, and else none.
pub open spec fn announced(input: Seq<u8>) -> Result<usize, ParseError> {
    match text_of(line_bytes(input, 0)) {
        None => Err(ParseError::Encoding),
        Some(first) => match request_line_of(first) {
            Err(e) => Err(e),
            Ok((method, _, _)) => match headers_from(input, line_after(input, 0), Seq::empty()) {
                Err(e) => Err(e),
                Ok((headers, _)) => if method != MethodView::Post {
                    Ok(0)
                } else {
                    match value_of(headers, "Content-Length"@) {
                        None => Ok(0),
                        Some(value) => match word_of(value) {
                            Some(n) => Ok(n),
                            None => Err(ParseError::ContentLength),
                        },
                    }
                },
            },
        },
    }
}

/// Calls `core::str::from_utf8`. Trusted: it gives the text exactly when
/// the bytes are well-formed UTF-8, and the text is then their decoding.
#[verifier::external_body]
pub(crate) fn decode_text(bytes: &[u8]) -> (r: Option<String>)
    ensures
        r matches Some(t) ==> text_of(bytes@) == Some(t@),
        r is None ==> text_of(bytes@) is None,
{
    match core::str::from_utf8(bytes) {
        Ok(text) => Some(text.to_owned()),
        Err(_) => None,
    }
}

/// Reads the line that starts at `from`: its text, if it is UTF-8, and the
/// place where the next line starts.
pub fn read_line(input: &[u8], from: usize) -> (r: (Option<String>, usize))
    requires
        from <= input@.len(),
    ensures
        r.1 == line_after(input@, from as int),
        from <= r.1 <= input@.len(),
        from < input@.len() ==> from < r.1,
        r.0 matches Some(t) ==> text_of(line_bytes(input@, from as int)) == Some(t@),
        r.0 is None ==> text_of(line_bytes(input@, from as int)) is None,
{
    let end = find_byte(input, from, 10);
    let stop = if from < end && end < input.len() && input[end - 1] == 13 {
        end - 1
    } else {
        end
    };
    let text = decode_text(slice_subrange(input, from, stop));
    let next = if end < input.len() {
        end + 1
    } else {
        end
    };
    (text, next)
}

/// Reads a request target: the path, which must begin with `/`, and the
/// query string after the first `?`, if there is one.
pub fn parse_target(target: &str) -> (r: Result<(String, Search), ParseError>)
    ensures
        r matches Ok(found) ==> target_of(target@) == Ok::<_, ParseError>((found.0@, found.1@)),
        r matches Err(e) ==> target_of(target@) == Err::<(Seq<char>, Params), _>(e),
{
    let chars = chars_of(target);
    if chars.len() == 0 || chars[0] != '/' {
        return Err(ParseError::RequestLine);
    }
    match split_once_text(target, '?') {
        None => Ok((target.to_owned(), Search::empty())),
        Some((path, query)) => match Search::parse(query.as_str()) {
            Ok(search) => Ok((path, search)),
            Err(_) => Err(ParseError::Query),
        },
    }
}

/// Reads a request line: the method, the path and the query parameters.
pub fn parse_request_line(line: &str) -> (r: Result<(Method, String, Search), ParseError>)
    ensures
        r matches Ok(found) ==> request_line_of(line@) == Ok::<_, ParseError>(
            (found.0@, found.1@, found.2@),
        ),
        r matches Err(e) ==> request_line_of(line@) == Err::<(MethodView, Seq<char>, Params), _>(
            e,
        ),
{
    let tokens = split_text(line, ' ');
    assert(split(line@, ' ').len() >= 1);
    assert(texts(tokens@)[0] == tokens@[0]@);
    let method = Method::parse(tokens[0].as_str());
    let target = if tokens.len() > 1 {
        assert(texts(tokens@)[1] == tokens@[1]@);
        parse_target(tokens[1].as_str())
    } else {
        parse_target("/")
    };
    match target {
        Ok((path, search)) => Ok((method, path, search)),
        Err(e) => Err(e),
    }
}

/// Reads header lines from `pos` up to the first blank line, and gives the
/// table and the place where the body starts.
pub fn parse_headers(input: &[u8], pos: usize) -> (r: Result<(Headers, usize), ParseError>)
    requires
        pos <= input@.len(),
    ensures
        r matches Ok(found) ==> headers_from(input@, pos as int, Seq::empty()) == Ok::<
            _,
            ParseError,
        >((found.0@, found.1 as int)) && found.1 <= input@.len(),
        r matches Err(e) ==> headers_from(input@, pos as int, Seq::empty()) == Err::<
            (Seq<Line>, int),
            _,
        >(e),
{
    let mut builder = HeadersBuilder::new();
    let mut at: usize = pos;
    loop
        invariant
            pos <= at <= input@.len(),
            headers_from(input@, pos as int, Seq::empty()) == headers_from(
                input@,
                at as int,
                builder@,
            ),
        decreases input@.len() - at,
    {
        let (text, next) = read_line(input, at);
        let line = match text {
            Some(line) => line,
            None => {
                return Err(ParseError::Encoding);
            },
        };
        if blank(line.as_str()) {
            return Ok((builder.build(), next));
        }
        proof {
            if at == input@.len() {
                lemma_line_after(input@, at as int);
                assert(text_of(Seq::<u8>::empty()) == Some(Seq::<char>::empty())) by {
                    assert(valid_utf8(Seq::<u8>::empty()));
                    assert(decode_utf8(Seq::<u8>::empty()) =~= Seq::<char>::empty());
                }
                assert(is_blank(Seq::<char>::empty()));
            }
        }
        match split_once_pair_text(line.as_str(), ':', ' ') {
            None => {
                return Err(ParseError::Header);
            },
            Some((name, value)) => {
                builder = builder.set(name.as_str(), value.as_str());
            },
        }
        at = next;
    }
}

/// Reads a body of the length that `value` announces, from `start` on.
pub fn read_framed(input: &[u8], start: usize, value: &str) -> (r: Result<String, ParseError>)
    requires
        start <= input@.len(),
    ensures
        r matches Ok(data) ==> framed_body(input@, start as int, value@) == Ok::<_, ParseError>(
            data@,
        ),
        r matches Err(e) ==> framed_body(input@, start as int, value@) == Err::<Seq<char>, _>(e),
{
    let length = match parse_word(value) {
        Some(length) => length,
        None => {
            return Err(ParseError::ContentLength);
        },
    };
    if length > input.len() - start {
        return Err(ParseError::TruncatedBody);
    }
    match decode_text(slice_subrange(input, start, start + length)) {
        Some(data) => Ok(data),
        None => Err(ParseError::Encoding),
    }
}

/// Reads the body that follows the head: only a `POST` with a
/// `Content-Length` has one, of exactly that many bytes.
pub fn read_body(input: &[u8], start: usize, method: &Method, headers: &Headers) -> (r: Result<
    Body,
    ParseError,
>)
    requires
        start <= input@.len(),
    ensures
        r matches Ok(body) ==> body_from(input@, start as int, method@, headers@) == Ok::<
            _,
            ParseError,
        >(body@),
        r matches Err(e) ==> body_from(input@, start as int, method@, headers@) == Err::<
            Option<Seq<char>>,
            _,
        >(e),
{
    if !method.same(&Method::Post) {
        return Ok(Body::Empty);
    }
    match headers.get("Content-Length") {
        None => Ok(Body::Empty),
        Some(value) => match read_framed(input, start, value.as_str()) {
            Ok(data) => Ok(Body::Data(data)),
            Err(e) => Err(e),
        },
    }
}

/// Reads the head of a request and tells how many bytes of body it
/// announces, so that a caller knows how much is still to be read from
/// the connection.
pub fn body_length(input: &[u8]) -> (r: Result<usize, ParseError>)
    ensures
        r == announced(input@),
{
    let (first, after) = read_line(input, 0);
    let first = match first {
        Some(first) => first,
        None => {
            return Err(ParseError::Encoding);
        },
    };
    let method = match parse_request_line(first.as_str()) {
        Ok(found) => found.0,
        Err(e) => {
            return Err(e);
        },
    };
    let headers = match parse_headers(input, after) {
        Ok(found) => found.0,
        Err(e) => {
            return Err(e);
        },
    };
    if !method.same(&Method::Post) {
        return Ok(0);
    }
    match headers.get("Content-Length") {
        None => Ok(0),
        Some(value) => match parse_word(value.as_str()) {
            Some(n) => Ok(n),
            None => Err(ParseError::ContentLength),
        },
    }
}

impl Request {
    /// The path begins with `/`.
    pub open spec fn wf(&self) -> bool {
        self.pathname@.len() > 0 && self.pathname@[0] == '/'
    }

    /// Reads a request from the bytes of a connection: the request line,
    /// the header lines up to the first blank line, and the body, if the
    /// head announces one.
    pub fn parse(input: &[u8]) -> (r: Result<Request, ParseError>)
        ensures
            r matches Ok(request) ==> parsed(input@) == Ok::<_, ParseError>(request@)
                && request.wf(),
            r matches Err(e) ==> parsed(input@) == Err::<RequestView, _>(e),
    {
        let (first, after) = read_line(input, 0);
        let first = match first {
            Some(first) => first,
            None => {
                return Err(ParseError::Encoding);
            },
        };
        let (method, pathname, search) = match parse_request_line(first.as_str()) {
            Ok(found) => found,
            Err(e) => {
                return Err(e);
            },
        };
        proof {
            lemma_path_of_target(first@);
        }
        let (headers, start) = match parse_headers(input, after) {
            Ok(found) => found,
            Err(e) => {
                return Err(e);
            },
        };
        let body = match read_body(input, start, &method, &headers) {
            Ok(body) => body,
            Err(e) => {
                return Err(e);
            },
        };
        Ok(Request { method, pathname, search, headers, body })
    }
}

/// The path of a request line that is accepted begins with `/`.
pub proof fn lemma_path_of_target(line: Seq<char>)
    ensures
        request_line_of(line) matches Ok(found) ==> found.1.len() > 0 && found.1[0] == '/',
{
    let tokens = split(line, ' ');
    let target = if tokens.len() > 1 {
        tokens[1]
    } else {
        "/"@
    };
    if target_of(target) is Ok {
        lemma_first_at(target, '?');
    }
}

/// The head of a request as the contracts see it.
pub struct HeadView {
    /// The method.
    pub method: MethodView,
    /// The header lines.
    pub headers: Seq<Line>,
    /// The place where the body starts.
    pub start: int,
}

/// The head of a request as it was read, when it is well formed.
pub open spec fn head_of(input: Seq<u8>) -> Option<HeadView> {
    match text_of(line_bytes(input, 0)) {
        None => None,
        Some(first) => match request_line_of(first) {
            Err(_) => None,
            Ok((method, _, _)) => match headers_from(input, line_after(input, 0), Seq::empty()) {
                Err(_) => None,
                Ok((headers, start)) => Some(HeadView { method, headers, start }),
            },
        },
    }
}

/// A `POST` whose `Content-Length` is zero has a body, which holds no data.
pub proof fn lemma_empty_body(input: Seq<u8>, head: HeadView, value: Seq<char>)
    requires
        head_of(input) == Some(head),
        head.method == MethodView::Post,
        value_of(head.headers, "Content-Length"@) == Some(value),
        word_of(value) == Some(0usize),
    ensures
        parsed(input) matches Ok(request) && request.body == Some(Seq::<char>::empty()),
{
    lemma_line_after(input, 0);
    lemma_body_start(input, line_after(input, 0), Seq::empty());
    assert(input.subrange(head.start, head.start + 0) =~= Seq::<u8>::empty());
    assert(valid_utf8(Seq::<u8>::empty()));
    assert(decode_utf8(Seq::<u8>::empty()) =~= Seq::<char>::empty());
}

/// A `POST` whose `Content-Length` announces more bytes than follow the
/// head is refused.
pub proof fn lemma_short_body(input: Seq<u8>, head: HeadView, value: Seq<char>, n: usize)
    requires
        head_of(input) == Some(head),
        head.method == MethodView::Post,
        value_of(head.headers, "Content-Length"@) == Some(value),
        word_of(value) == Some(n),
        head.start + n > input.len(),
    ensures
        parsed(input) == Err::<RequestView, _>(ParseError::TruncatedBody),
{
}

/// The body starts inside the input, at or after the place where the
/// header lines start.
pub proof fn lemma_body_start(input: Seq<u8>, pos: int, lines: Seq<Line>)
    requires
        0 <= pos <= input.len(),
    ensures
        headers_from(input, pos, lines) matches Ok(found) ==> pos <= found.1 <= input.len(),
    decreases input.len() - pos,
{
    lemma_line_after(input, pos);
    match text_of(line_bytes(input, pos)) {
        None => {},
        Some(line) => {
            if !is_blank(line) {
                match split_once_pair(line, ':', ' ') {
                    None => {},
                    Some((name, value)) => {
                        if pos == input.len() {
                            assert(valid_utf8(Seq::<u8>::empty()));
                            assert(decode_utf8(Seq::<u8>::empty()) =~= Seq::<char>::empty());
                        } else {
                            lemma_body_start(
                                input,
                                line_after(input, pos),
                                with_line(lines, name, value),
                            );
                        }
                    },
                }
            }
        },
    }
}

/// What the head of a request announces is the length in bytes of the
/// body that the request is read with.
pub proof fn lemma_announced_length(input: Seq<u8>, request: RequestView)
    requires
        parsed(input) == Ok::<_, ParseError>(request),
    ensures
        announced(input) matches Ok(n) && n == encode_utf8(body_text(request.body)).len(),
{
    let head = head_of(input)->0;
    lemma_line_after(input, 0);
    lemma_body_start(input, line_after(input, 0), Seq::empty());
    if head.method == MethodView::Post {
        match value_of(head.headers, "Content-Length"@) {
            Some(value) => {
                let n = word_of(value)->0;
                let bytes = input.subrange(head.start, head.start + n);
                vstd::utf8::decode_utf8_encode_utf8(bytes);
            },
            None => {
                assert(encode_utf8(Seq::<char>::empty()).len() == 0);
            },
        }
    } else {
        assert(encode_utf8(Seq::<char>::empty()).len() == 0);
    }
}

} // verus!

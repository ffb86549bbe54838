//! Responses: the status, the response itself, its builder, and the text
//! that goes on the wire.

use crate::common::{headers_text, with_line, Headers, HeadersBuilder, Line};
use crate::number::{decimal, decimal_text};
use crate::request::{body_text, Body};
use vstd::prelude::*;
use vstd::utf8::encode_utf8;

verus! {

/// A status as the contracts see it.
pub struct StatusView {
    /// The numeric code.
    pub code: u16,
    /// The reason phrase, if one is set.
    pub message: Option<Seq<char>>,
}

/// Status code and message pair.
#[derive(Debug)]
pub struct Status {
    /// Code of the status.
    pub code: u16,
    /// Message of the status.
    pub message: Option<String>,
}

impl View for Status {
    type V = StatusView;

    open spec fn view(&self) -> StatusView {
        StatusView {
            code: self.code,
            message: match self.message {
                Some(m) => Some(m@),
                None => None,
            },
        }
    }
}

/// The reason phrase that a bare code gets: a few codes are known.
pub open spec fn reason_of(code: u16) -> Option<Seq<char>> {
    if code == 200 {
        Some("Ok"@)
    } else if code == 204 {
        Some("No Content"@)
    } else if code == 404 {
        Some("Not Found"@)
    } else {
        None
    }
}

/// The status as it stands in the status line: the code in decimal, and,
/// when the message is not empty, a space and the message.
pub open spec fn status_text(status: StatusView) -> Seq<char> {
    let message = body_text(status.message);
    if message.len() == 0 {
        decimal(status.code as nat)
    } else {
        decimal(status.code as nat) + " "@ + message
    }
}

impl Status {
    /// The status for a bare code, with the reason phrase of the codes
    /// that are known and none for the others.
    pub fn from_code(code: u16) -> (s: Status)
        ensures
            s@ == (StatusView { code, message: reason_of(code) }),
    {
        let message = if code == 200 {
            Some("Ok".to_owned())
        } else if code == 204 {
            Some("No Content".to_owned())
        } else if code == 404 {
            Some("Not Found".to_owned())
        } else {
            None
        };
        Status { code, message }
    }

    /// The status with the given code and message.
    pub fn new(code: u16, message: &str) -> (s: Status)
        ensures
            s@ == (StatusView { code, message: Some(message@) }),
    {
        Status { code, message: Some(message.to_owned()) }
    }

    /// The status as it stands in the status line.
    pub fn to_text(&self) -> (r: String)
        ensures
            r@ == status_text(self@),
    {
        let mut out = decimal_text(self.code as usize);
        match &self.message {
            Some(message) => {
                if !message.as_str().is_empty() {
                    out.append(" ");
                    out.append(message.as_str());
                }
            },
            None => {},
        }
        out
    }
}

impl From<u16> for Status {
    /// The status for a bare code, as `Status::from_code` gives it.
    fn from(code: u16) -> (s: Status)
        ensures
            s@ == (StatusView { code, message: reason_of(code) }),
    {
        Status::from_code(code)
    }
}

impl vstd::std_specs::convert::FromSpecImpl<u16> for Status {
    open spec fn obeys_from_spec() -> bool {
        false
    }

    open spec fn from_spec(code: u16) -> Status {
        arbitrary()
    }
}

impl<'a> From<(u16, &'a str)> for Status {
    /// The status with the given code and message.
    fn from(pair: (u16, &'a str)) -> (s: Status)
        ensures
            s@ == (StatusView { code: pair.0, message: Some(pair.1@) }),
    {
        Status::new(pair.0, pair.1)
    }
}

impl<'a> vstd::std_specs::convert::FromSpecImpl<(u16, &'a str)> for Status {
    open spec fn obeys_from_spec() -> bool {
        false
    }

    open spec fn from_spec(pair: (u16, &'a str)) -> Status {
        arbitrary()
    }
}

/// A response as the contracts see it.
pub struct ResponseView {
    /// The status.
    pub status: StatusView,
    /// The header lines.
    pub headers: Seq<Line>,
    /// The body.
    pub body: Option<Seq<char>>,
}

/// The head of a response on the wire: the status line, the header lines
/// and the blank line that ends them.
pub open spec fn head_text(response: ResponseView) -> Seq<char> {
    "HTTP/1.1 "@ + status_text(response.status) + "\n"@ + headers_text(response.headers) + "\n"@
}

/// A response on the wire: the head, then the body as it is. No length is
/// added: a `Content-Length` is sent only if the headers hold one.
pub open spec fn wire_text(response: ResponseView) -> Seq<char> {
    head_text(response) + body_text(response.body)
}

/// Response structure.
#[derive(Debug)]
pub struct Response {
    /// Status of the response.
    pub status: Status,
    /// Headers of the response.
    pub headers: Headers,
    /// Body of the response.
    pub body: Body,
}

impl View for Response {
    type V = ResponseView;

    open spec fn view(&self) -> ResponseView {
        ResponseView { status: self.status@, headers: self.headers@, body: self.body@ }
    }
}

impl Response {
    /// A builder with no status, no headers and no body.
    pub fn builder() -> (b: ResponseBuilder)
        ensures
            b@ == (ResponseBuilderView { status: None, headers: Seq::empty(), body: None }),
    {
        ResponseBuilder { status: None, headers: Headers::builder(), body: Body::Empty }
    }

    /// The response as text for the wire.
    pub fn to_text(&self) -> (r: String)
        ensures
            r@ == wire_text(self@),
    {
        let mut out = "HTTP/1.1 ".to_owned();
        let status = self.status.to_text();
        out.append(status.as_str());
        out.append("\n");
        let lines = self.headers.to_text();
        out.append(lines.as_str());
        out.append("\n");
        out.append(self.body.as_str());
        assert(out@ =~= wire_text(self@));
        out
    }

    /// The response as bytes for the wire.
    pub fn to_bytes(&self) -> (r: Vec<u8>)
        ensures
            r@ == encode_utf8(wire_text(self@)),
    {
        self.to_text().as_str().as_bytes_vec()
    }
}

/// A response builder as the contracts see it.
pub struct ResponseBuilderView {
    /// The status, if one was set.
    pub status: Option<StatusView>,
    /// The header lines set so far.
    pub headers: Seq<Line>,
    /// The body set so far.
    pub body: Option<Seq<char>>,
}

/// Builder for `Response`.
#[derive(Debug)]
pub struct ResponseBuilder {
    status: Option<Status>,
    headers: HeadersBuilder,
    body: Body,
}

impl View for ResponseBuilder {
    type V = ResponseBuilderView;

    closed spec fn view(&self) -> ResponseBuilderView {
        ResponseBuilderView {
            status: match self.status {
                Some(s) => Some(s@),
                None => None,
            },
            headers: self.headers@,
            body: self.body@,
        }
    }
}

impl ResponseBuilder {
    /// The header builder inside this builder.
    pub closed spec fn header_builder(&self) -> HeadersBuilder {
        self.headers
    }

    /// What the header builder holds is what the view shows.
    pub proof fn lemma_header_builder(&self)
        ensures
            self.header_builder()@ == self@.headers,
    {
    }

    /// Sets the status of the response.
    pub fn status(self, status: Status) -> (b: ResponseBuilder)
        ensures
            b@ == (ResponseBuilderView { status: Some(status@), ..self@ }),
    {
        ResponseBuilder { status: Some(status), headers: self.headers, body: self.body }
    }

    /// Sets a single header.
    pub fn header(self, key: &str, value: &str) -> (b: ResponseBuilder)
        ensures
            b@ == (ResponseBuilderView { headers: with_line(self@.headers, key@, value@), ..self@ }),
    {
        ResponseBuilder {
            status: self.status,
            headers: self.headers.set(key, value),
            body: self.body,
        }
    }

    /// Sets several headers: `headers_fn` gets the header builder and
    /// gives back the one to go on with.
    pub fn headers<F: Fn(HeadersBuilder) -> HeadersBuilder>(self, headers_fn: F) -> (b:
        ResponseBuilder)
        requires
            call_requires(headers_fn, (self.header_builder(),)),
        ensures
            call_ensures(headers_fn, (self.header_builder(),), b.header_builder()),
            b@ == (ResponseBuilderView { headers: b.header_builder()@, ..self@ }),
    {
        ResponseBuilder {
            status: self.status,
            headers: headers_fn(self.headers),
            body: self.body,
        }
    }

    /// Sets the body of the response.
    pub fn body(self, body: Body) -> (b: ResponseBuilder)
        ensures
            b@ == (ResponseBuilderView { body: body@, ..self@ }),
    {
        ResponseBuilder { status: self.status, headers: self.headers, body }
    }

    /// Constructs the response. A status that was not set is `200 Ok`.
    pub fn build(self) -> (r: Response)
        ensures
            r@ == (ResponseView {
                status: match self@.status {
                    Some(s) => s,
                    None => StatusView { code: 200, message: Some("Ok"@) },
                },
                headers: self@.headers,
                body: self@.body,
            }),
    {
        let status = match self.status {
            Some(status) => status,
            None => Status { code: 200, message: Some("Ok".to_owned()) },
        };
        Response { status, headers: self.headers.build(), body: self.body }
    }
}

} // verus!

//! The answers that the server gives by itself, and the answers of a
//! handler that serves files: what it says once it is known what the file
//! system holds at the path of a request.

use crate::common::with_line;
use crate::listing::{entries_of, sort_entries, sorted_entries, Entry};
use crate::mime_types::{mime_of_path, MimeType};
use crate::number::{decimal, decimal_text};
use crate::request::{Body, Request};
use crate::response::{reason_of, Response, ResponseView, Status, StatusView};
use crate::text::{lowercase, same_text, texts, to_lowercase};
use vstd::prelude::*;
use vstd::utf8::encode_utf8;

verus! {

/// The page that is sent when nothing else answers a request.
pub const NOT_FOUND_PAGE: &'static str =
    "<!DOCTYPE html>\n<html lang=\"en\" dir=\"ltr\">\n<head>\n    <title>404 Not Found</title>\n    <style>:root{color-scheme:light dark;}</style>\n</head>\n<body>\n    <h1>404 Not Found</h1>\n    <p>The requested page could not be found.</p>\n</body>\n</html>\n";

/// The default answer to a request that no route matches: status 404, the
/// page above as body, its type and its length in bytes as headers.
pub open spec fn default_not_found() -> ResponseView {
    ResponseView {
        status: StatusView { code: 404, message: Some("Not Found"@) },
        headers: with_line(
            with_line(Seq::empty(), "Content-Type"@, "text/html"@),
            "Content-Length"@,
            decimal(encode_utf8(NOT_FOUND_PAGE@).len()),
        ),
        body: Some(NOT_FOUND_PAGE@),
    }
}

/// Builds the default answer to a request that no route matches. The
/// answer is the same for every request.
pub fn not_found_handler_default(_request: &Request) -> (r: Response)
    ensures
        r@ == default_not_found(),
{
    let body = Body::text(NOT_FOUND_PAGE);
    let length = decimal_text(body.len());
    Response::builder().status(Status::from_code(404)).header("Content-Type", "text/html").header(
        "Content-Length",
        length.as_str(),
    ).body(body).build()
}

/// The way directories should be indexed.
#[derive(Debug)]
pub enum IndexStyle {
    /// Show a 404 Not Found error.
    NotFound,
    /// List all the files in the directory.
    IndexDirectory,
    /// Return the file of this name in the directory instead. Usually set
    /// to `index.html`.
    IndexFile(String),
}

/// An index style as the contracts see it.
pub enum IndexStyleView {
    /// Show a 404 Not Found error.
    NotFound,
    /// List all the files in the directory.
    IndexDirectory,
    /// Return the file of this name in the directory.
    IndexFile(Seq<char>),
}

impl View for IndexStyle {
    type V = IndexStyleView;

    open spec fn view(&self) -> IndexStyleView {
        match self {
            IndexStyle::NotFound => IndexStyleView::NotFound,
            IndexStyle::IndexDirectory => IndexStyleView::IndexDirectory,
            IndexStyle::IndexFile(name) => IndexStyleView::IndexFile(name@),
        }
    }
}

/// The index style that a command-line word in lower case stands for:
/// `dir`, `none`, or else the name of the index file, given as `word`.
pub open spec fn index_style_of(word: Seq<char>, folded: Seq<char>) -> IndexStyleView {
    if folded == "dir"@ {
        IndexStyleView::IndexDirectory
    } else if folded == "none"@ {
        IndexStyleView::NotFound
    } else {
        IndexStyleView::IndexFile(word)
    }
}

impl IndexStyle {
    /// Reads an index style from a command-line word: `dir` and `none`,
    /// in any case, or else the name of the index file.
    pub fn parse(word: &str) -> (style: IndexStyle)
        ensures
            style@ == index_style_of(word@, lowercase(word@)),
    {
        let folded = to_lowercase(word);
        IndexStyle::from_folded(word, folded.as_str())
    }

    /// Reads an index style from a command-line word, where `folded` is
    /// taken for the word in lower case.
    pub fn from_folded(word: &str, folded: &str) -> (style: IndexStyle)
        ensures
            style@ == index_style_of(word@, folded@),
    {
        if same_text(folded, "dir") {
            IndexStyle::IndexDirectory
        } else if same_text(folded, "none") {
            IndexStyle::NotFound
        } else {
            IndexStyle::IndexFile(word.to_owned())
        }
    }
}

/// What the file system holds at the path of a request.
#[derive(Debug)]
pub enum Found {
    /// Nothing.
    Missing,
    /// A file, with its text if it could be read and is UTF-8.
    File(Option<String>),
    /// A directory.
    Directory,
}

/// What the file system holds, as the contracts see it.
pub enum FoundView {
    /// Nothing.
    Missing,
    /// A file, with its text if it could be read.
    File(Option<Seq<char>>),
    /// A directory.
    Directory,
}

impl View for Found {
    type V = FoundView;

    open spec fn view(&self) -> FoundView {
        match self {
            Found::Missing => FoundView::Missing,
            Found::File(Some(text)) => FoundView::File(Some(text@)),
            Found::File(None) => FoundView::File(None),
            Found::Directory => FoundView::Directory,
        }
    }
}

/// What a file handler does next.
#[derive(Debug)]
pub enum Step {
    /// Send this response.
    Done(Response),
    /// Read the names in the directory, and answer with the listing.
    List,
    /// Read the file of this name in the directory, and answer with it.
    Open(String),
}

/// The next step, as the contracts see it.
pub enum StepView {
    /// Send this response.
    Done(ResponseView),
    /// Read the names in the directory.
    List,
    /// Read the file of this name in the directory.
    Open(Seq<char>),
}

impl View for Step {
    type V = StepView;

    open spec fn view(&self) -> StepView {
        match self {
            Step::Done(response) => StepView::Done(response@),
            Step::List => StepView::List,
            Step::Open(name) => StepView::Open(name@),
        }
    }
}

/// A response that is a status and nothing else.
pub open spec fn bare(code: u16) -> ResponseView {
    ResponseView {
        status: StatusView { code, message: reason_of(code) },
        headers: Seq::empty(),
        body: None,
    }
}

/// The answer for a file at `pathname`: its text with the mime type of
/// its name, or status 500 if the text could not be read.
pub open spec fn file_answer(pathname: Seq<char>, text: Option<Seq<char>>) -> ResponseView {
    match text {
        Some(text) => ResponseView {
            status: StatusView { code: 200, message: reason_of(200) },
            headers: with_line(Seq::empty(), "Content-Type"@, mime_of_path(pathname)),
            body: Some(text),
        },
        None => bare(500),
    }
}

/// The first part of the page that lists a directory, up to the path in
/// the title.
pub const PAGE_TOP: &'static str =
    "<!DOCTYPE html>\n<html lang=\"en\" dir=\"ltr\">\n<head>\n    <title>Index of ";

/// The part of the page between the path in the title and the path in
/// the heading.
pub const PAGE_MIDDLE: &'static str =
    "</title>\n    <style>:root{color-scheme:light dark;}</style>\n</head>\n<body>\n    <h1>Index of ";

/// The part of the page between the heading and the items.
pub const PAGE_LIST: &'static str = "</h1>\n    <ul>";

/// The last part of the page, after the items.
pub const PAGE_BOTTOM: &'static str = "</ul>\n</body>\n</html>\n";

/// The page that lists a directory: `items` is the text of its list.
pub open spec fn listing_page(pathname: Seq<char>, items: Seq<char>) -> Seq<char> {
    PAGE_TOP@ + pathname + PAGE_MIDDLE@ + pathname + PAGE_LIST@ + items + PAGE_BOTTOM@
}

/// The list item that links to the entry `name` of a directory.
pub open spec fn item_text(name: Seq<char>) -> Seq<char> {
    "<li><a href=\"./"@ + name + "\">"@ + name + "</a></li>"@
}

/// The list items for `names`, one after the other.
pub open spec fn items_text(names: Seq<Seq<char>>) -> Seq<char>
    decreases names.len(),
{
    if names.len() == 0 {
        Seq::empty()
    } else {
        items_text(names.drop_last()) + item_text(names.last())
    }
}

/// The answer that lists a directory, or status 500 if it could not be read.
pub open spec fn listing_answer(pathname: Seq<char>, names: Option<Seq<Seq<char>>>)
    -> ResponseView {
    match names {
        Some(names) => ResponseView {
            status: StatusView { code: 200, message: reason_of(200) },
            headers: with_line(Seq::empty(), "Content-Type"@, "text/html"@),
            body: Some(listing_page(pathname, items_text(names))),
        },
        None => bare(500),
    }
}

/// What the file handler does for a request to `pathname`, given what
/// the file system holds there. A missing path gets status 404, a file is
/// sent, and a directory is listed, refused with 404, or, where an index
/// file is asked for, refused with 500.
pub open spec fn fs_step_of(pathname: Seq<char>, found: FoundView, style: IndexStyleView)
    -> StepView {
    match found {
        FoundView::Missing => StepView::Done(bare(404)),
        FoundView::File(text) => StepView::Done(file_answer(pathname, text)),
        FoundView::Directory => match style {
            IndexStyleView::IndexDirectory => StepView::List,
            IndexStyleView::NotFound => StepView::Done(bare(404)),
            IndexStyleView::IndexFile(_) => StepView::Done(bare(500)),
        },
    }
}

/// A response that is the status `code` and nothing else.
pub fn bare_response(code: u16) -> (r: Response)
    ensures
        r@ == bare(code),
{
    Response::builder().status(Status::from_code(code)).build()
}

/// The answer for a file: its text with the mime type of its name, or
/// status 500 if the text could not be read.
pub fn file_response(pathname: &str, text: Option<String>) -> (r: Response)
    ensures
        r@ == file_answer(
            pathname@,
            match text {
                Some(t) => Some(t@),
                None => None,
            },
        ),
{
    match text {
        Some(text) => {
            let mime = MimeType::get_for_path(pathname);
            Response::builder().status(Status::from_code(200)).header(
                "Content-Type",
                mime.as_str(),
            ).body(Body::Data(text)).build()
        },
        None => bare_response(500),
    }
}

/// Decides what the file handler does for `request`, given what the file
/// system holds at its path.
pub fn fs_step(request: &Request, found: Found, index_style: &IndexStyle) -> (step: Step)
    requires
        request.wf(),
    ensures
        step@ == fs_step_of(request.pathname@, found@, index_style@),
{
    match found {
        Found::Missing => Step::Done(bare_response(404)),
        Found::File(text) => Step::Done(file_response(request.pathname.as_str(), text)),
        Found::Directory => match index_style {
            IndexStyle::IndexDirectory => Step::List,
            IndexStyle::NotFound => Step::Done(bare_response(404)),
            IndexStyle::IndexFile(_) => Step::Done(bare_response(500)),
        },
    }
}

/// The list items for `names`, as text.
pub fn items(names: &Vec<String>) -> (r: String)
    ensures
        r@ == items_text(texts(names@)),
{
    let mut out = String::new();
    let mut i: usize = 0;
    assert(texts(names@).take(0) =~= Seq::<Seq<char>>::empty());
    while i < names.len()
        invariant
            i <= names@.len(),
            out@ == items_text(texts(names@).take(i as int)),
        decreases names@.len() - i,
    {
        proof {
            let next = texts(names@).take(i + 1);
            assert(next.drop_last() =~= texts(names@).take(i as int));
            assert(next.last() == names@[i as int]@);
        }
        let ghost before = out@;
        let name = names[i].as_str();
        out.append("<li><a href=\"./");
        out.append(name);
        out.append("\">");
        out.append(name);
        out.append("</a></li>");
        assert(out@ =~= before + item_text(name@));
        i += 1;
    }
    assert(texts(names@).take(i as int) =~= texts(names@));
    out
}

/// The page that lists a directory, around the text of its list.
pub fn page(pathname: &str, items: &str) -> (r: String)
    ensures
        r@ == listing_page(pathname@, items@),
{
    let mut out = PAGE_TOP.to_owned();
    out.append(pathname);
    out.append(PAGE_MIDDLE);
    out.append(pathname);
    out.append(PAGE_LIST);
    out.append(items);
    out.append(PAGE_BOTTOM);
    assert(out@ =~= listing_page(pathname@, items@));
    out
}

/// The answer that lists the directory at `pathname`: `names` are its
/// entries, or `None` if it could not be read.
pub fn fs_listing(pathname: &str, names: Option<Vec<String>>) -> (r: Response)
    ensures
        r@ == listing_answer(
            pathname@,
            match names {
                Some(n) => Some(texts(n@)),
                None => None,
            },
        ),
{
    match names {
        Some(names) => {
            let list = items(&names);
            let body = page(pathname, list.as_str());
            Response::builder().status(Status::from_code(200)).header(
                "Content-Type",
                "text/html",
            ).body(Body::Data(body)).build()
        },
        None => bare_response(500),
    }
}

/// What the file handler of the program does for a request to
/// `pathname`, given what the file system holds there. A missing path
/// gets the default 404 page, a file is sent, and a directory is listed,
/// refused with the default 404 page, or answered with its index file.
pub open spec fn site_step_of(pathname: Seq<char>, found: FoundView, style: IndexStyleView)
    -> StepView {
    match found {
        FoundView::Missing => StepView::Done(default_not_found()),
        FoundView::File(text) => StepView::Done(file_answer(pathname, text)),
        FoundView::Directory => match style {
            IndexStyleView::IndexDirectory => StepView::List,
            IndexStyleView::NotFound => StepView::Done(default_not_found()),
            IndexStyleView::IndexFile(name) => StepView::Open(name),
        },
    }
}

/// Decides what the file handler of the program does for `request`,
/// given what the file system holds at its path.
pub fn site_step(request: &Request, found: Found, index_style: &IndexStyle) -> (step: Step)
    requires
        request.wf(),
    ensures
        step@ == site_step_of(request.pathname@, found@, index_style@),
{
    match found {
        Found::Missing => Step::Done(not_found_handler_default(request)),
        Found::File(text) => Step::Done(file_response(request.pathname.as_str(), text)),
        Found::Directory => match index_style {
            IndexStyle::IndexDirectory => Step::List,
            IndexStyle::NotFound => Step::Done(not_found_handler_default(request)),
            IndexStyle::IndexFile(name) => Step::Open(name.clone()),
        },
    }
}

/// The answer with the index file of a directory: the file at
/// `index_path` if there is one, and else the default 404 page.
pub open spec fn index_answer(index_path: Seq<char>, found: FoundView) -> ResponseView {
    match found {
        FoundView::File(text) => file_answer(index_path, text),
        _ => default_not_found(),
    }
}

/// Answers `request` with the index file of a directory, given what the
/// file system holds at `index_path`.
pub fn site_index(request: &Request, index_path: &str, found: Found) -> (r: Response)
    ensures
        r@ == index_answer(index_path@, found@),
{
    match found {
        Found::File(text) => file_response(index_path, text),
        _ => not_found_handler_default(request),
    }
}

/// The name under which an entry is listed: a directory gets a slash at
/// its end.
pub open spec fn label_of(entry: Entry) -> Seq<char> {
    if entry.0 {
        entry.1 + "/"@
    } else {
        entry.1
    }
}

/// The names under which `entries` are listed, in the same order.
pub open spec fn labels_of(entries: Seq<Entry>) -> Seq<Seq<char>> {
    entries.map_values(|e: Entry| label_of(e))
}

/// The names under which `entries` are listed.
pub fn labels(entries: &Vec<(bool, String)>) -> (r: Vec<String>)
    ensures
        texts(r@) == labels_of(entries_of(entries@)),
{
    let mut out: Vec<String> = Vec::new();
    let mut i: usize = 0;
    while i < entries.len()
        invariant
            i <= entries@.len(),
            out@.len() == i,
            forall|j: int| 0 <= j < i ==> out@[j]@ == label_of(entries_of(entries@)[j]),
        decreases entries@.len() - i,
    {
        let mut label = entries[i].1.clone();
        if entries[i].0 {
            label.append("/");
        }
        out.push(label);
        i += 1;
    }
    assert(texts(out@) =~= labels_of(entries_of(entries@)));
    out
}

/// The answer of the program that lists the directory at `pathname`:
/// `entries` are its entries, each with the mark of a directory, or
/// `None` if it could not be read. Directories are listed first, and the
/// entries of a kind by name.
pub fn site_listing(pathname: &str, entries: Option<Vec<(bool, String)>>) -> (r: Response)
    ensures
        r@ == listing_answer(
            pathname@,
            match entries {
                Some(e) => Some(labels_of(sorted_entries(entries_of(e@)))),
                None => None,
            },
        ),
{
    match entries {
        Some(entries) => {
            let sorted = sort_entries(entries);
            let names = labels(&sorted);
            fs_listing(pathname, Some(names))
        },
        None => bare_response(500),
    }
}

} // verus!

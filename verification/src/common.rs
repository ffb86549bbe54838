//! The types that requests and responses share: header names, header
//! tables, methods and query parameters.

use crate::text::{
    first_at, lemma_first_at, lemma_first_at_is, lowercase, same_text, split, split_once,
    split_once_text, split_text, text_before, text_less, texts, to_lowercase,
};
use vstd::prelude::*;

verus! {

/// A header line as the contracts see it.
pub struct Line {
    /// The name as it was written.
    pub name: Seq<char>,
    /// The form of the name by which lines are compared: its lower case.
    pub folded: Seq<char>,
    /// The value.
    pub value: Seq<char>,
}

/// The line for `name` and `value`, compared by the lower case of `name`.
pub open spec fn line_of(name: Seq<char>, value: Seq<char>) -> Line {
    Line { name, folded: lowercase(name), value }
}

/// The forms by which `lines` are compared, in order.
pub open spec fn folded_names(lines: Seq<Line>) -> Seq<Seq<char>> {
    lines.map_values(|l: Line| l.folded)
}

/// The place of the line that is compared by `folded`, or `lines.len()`
/// when there is none.
pub open spec fn slot(lines: Seq<Line>, folded: Seq<char>) -> int {
    first_at(folded_names(lines), folded)
}

/// The value of the line that is compared by `folded`.
pub open spec fn lookup(lines: Seq<Line>, folded: Seq<char>) -> Option<Seq<char>> {
    let i = slot(lines, folded);
    if 0 <= i < lines.len() {
        Some(lines[i].value)
    } else {
        None
    }
}

/// The value stored under `key`, compared without regard to case.
pub open spec fn value_of(lines: Seq<Line>, key: Seq<char>) -> Option<Seq<char>> {
    lookup(lines, lowercase(key))
}

/// `lines` after `value` is stored under `name`, compared by `folded`: a
/// line that is compared by `folded` keeps its place and its spelling and
/// gets the new value; otherwise a new line is added at the end.
pub open spec fn put(lines: Seq<Line>, name: Seq<char>, folded: Seq<char>, value: Seq<char>)
    -> Seq<Line> {
    let i = slot(lines, folded);
    if 0 <= i < lines.len() {
        lines.update(i, Line { value, ..lines[i] })
    } else {
        lines.push(Line { name, folded, value })
    }
}

/// `lines` after `value` is stored under `name`, compared without regard
/// to case.
pub open spec fn with_line(lines: Seq<Line>, name: Seq<char>, value: Seq<char>) -> Seq<Line> {
    put(lines, name, lowercase(name), value)
}

/// No two lines are compared by the same form.
pub open spec fn distinct_names(lines: Seq<Line>) -> bool {
    forall|i: int, j: int|
        0 <= i < j < lines.len() ==> (#[trigger] lines[i]).folded != (#[trigger] lines[j]).folded
}

/// A value that was stored is found under the form it was stored by.
pub proof fn lemma_lookup_after_put(
    lines: Seq<Line>,
    name: Seq<char>,
    folded: Seq<char>,
    value: Seq<char>,
)
    ensures
        lookup(put(lines, name, folded, value), folded) == Some(value),
{
    let i = slot(lines, folded);
    let after = put(lines, name, folded, value);
    lemma_first_at(folded_names(lines), folded);
    if 0 <= i < lines.len() {
        assert(folded_names(after) =~= folded_names(lines));
    } else {
        assert(folded_names(after) =~= folded_names(lines).push(folded));
        lemma_first_at_is(folded_names(after), folded, lines.len() as int);
    }
}

/// Storing a value under a name and then looking it up under any spelling
/// that differs from the name only in case gives that value back.
pub proof fn lemma_lookup_ignores_case(
    lines: Seq<Line>,
    name: Seq<char>,
    value: Seq<char>,
    other: Seq<char>,
)
    requires
        lowercase(other) == lowercase(name),
    ensures
        value_of(with_line(lines, name, value), other) == Some(value),
{
    lemma_lookup_after_put(lines, name, lowercase(name), value);
}

/// Storing a value changes nothing for the lines that are compared by
/// another form.
pub proof fn lemma_put_keeps_others(
    lines: Seq<Line>,
    name: Seq<char>,
    folded: Seq<char>,
    value: Seq<char>,
    other: Seq<char>,
)
    requires
        other != folded,
    ensures
        lookup(put(lines, name, folded, value), other) == lookup(lines, other),
{
    let i = slot(lines, folded);
    let after = put(lines, name, folded, value);
    lemma_first_at(folded_names(lines), folded);
    lemma_first_at(folded_names(lines), other);
    if 0 <= i < lines.len() {
        assert(folded_names(after) =~= folded_names(lines));
    } else {
        assert(folded_names(after) =~= folded_names(lines).push(folded));
        let k = slot(lines, other);
        if k < lines.len() {
            lemma_first_at_is(folded_names(after), other, k);
        } else {
            lemma_first_at_is(folded_names(after), other, after.len() as int);
        }
    }
}

/// Storing a value keeps the lines distinct.
pub proof fn lemma_put_keeps_distinct(
    lines: Seq<Line>,
    name: Seq<char>,
    folded: Seq<char>,
    value: Seq<char>,
)
    requires
        distinct_names(lines),
    ensures
        distinct_names(put(lines, name, folded, value)),
{
    let i = slot(lines, folded);
    let after = put(lines, name, folded, value);
    lemma_first_at(folded_names(lines), folded);
    assert forall|a: int, b: int| 0 <= a < b < after.len() implies (#[trigger] after[a]).folded != (
    #[trigger] after[b]).folded by {
        if 0 <= i < lines.len() {
            assert(after[a].folded == lines[a].folded);
            assert(after[b].folded == lines[b].folded);
        } else if b == lines.len() {
            assert(folded_names(lines)[a] == lines[a].folded);
        } else {
            assert(after[a].folded == lines[a].folded);
            assert(after[b].folded == lines[b].folded);
        }
    }
}

/// One header line as it goes on the wire.
pub open spec fn line_text(line: Line) -> Seq<char> {
    line.name + ": "@ + line.value + "\n"@
}

/// The header lines as they go on the wire, one after the other.
pub open spec fn headers_text(lines: Seq<Line>) -> Seq<char>
    decreases lines.len(),
{
    if lines.len() == 0 {
        Seq::empty()
    } else {
        headers_text(lines.drop_last()) + line_text(lines.last())
    }
}

/// The name of a header. Two names are the same header when they are
/// compared by the same form, which is their lower case unless the key was
/// made with a form of its own; the spelling given at creation is kept for
/// display.
#[derive(Debug)]
pub struct HeaderKey {
    name: String,
    folded: String,
}

impl HeaderKey {
    /// The name as it was written.
    pub closed spec fn name(&self) -> Seq<char> {
        self.name@
    }

    /// The form by which keys are compared.
    pub closed spec fn folded(&self) -> Seq<char> {
        self.folded@
    }

    /// A key for the header called `name`, compared by its lower case.
    pub fn new(name: &str) -> (key: HeaderKey)
        ensures
            key.name() == name@,
            key.folded() == lowercase(name@),
    {
        let folded = to_lowercase(name);
        HeaderKey::with_folded(name, folded.as_str())
    }

    /// A key for the header called `name`, compared by `folded`.
    pub fn with_folded(name: &str, folded: &str) -> (key: HeaderKey)
        ensures
            key.name() == name@,
            key.folded() == folded@,
    {
        HeaderKey { name: name.to_owned(), folded: folded.to_owned() }
    }

    /// The name as it was written.
    pub fn as_str(&self) -> (s: &str)
        ensures
            s@ == self.name(),
    {
        self.name.as_str()
    }

    /// The form by which the key is compared.
    pub fn folded_str(&self) -> (s: &str)
        ensures
            s@ == self.folded(),
    {
        self.folded.as_str()
    }

    /// Tells whether `self` and `other` name the same header.
    pub fn same(&self, other: &HeaderKey) -> (r: bool)
        ensures
            r == (self.folded() == other.folded()),
    {
        same_text(self.folded_str(), other.folded_str())
    }
}

impl HeaderKey {
    /// Tells whether `self` stands before `other` in the order of keys,
    /// which is that of the forms by which they are compared.
    pub fn precedes(&self, other: &HeaderKey) -> (r: bool)
        ensures
            r == text_before(self.folded(), other.folded()),
    {
        text_less(self.folded_str(), other.folded_str())
    }
}

impl<'a> From<&'a str> for HeaderKey {
    /// A key for the header called `name`.
    fn from(name: &'a str) -> (key: HeaderKey)
        ensures
            key.name() == name@,
            key.folded() == lowercase(name@),
    {
        HeaderKey::new(name)
    }
}

impl<'a> vstd::std_specs::convert::FromSpecImpl<&'a str> for HeaderKey {
    open spec fn obeys_from_spec() -> bool {
        false
    }

    open spec fn from_spec(name: &'a str) -> HeaderKey {
        arbitrary()
    }
}

impl core::str::FromStr for Search {
    type Err = ();

    /// Reads a query string, as `Search::parse` does.
    fn from_str(s: &str) -> (r: Result<Search, ()>)
        ensures
            r matches Ok(found) ==> search_of(s@) == Some(found@),
            r is Err ==> search_of(s@) is None,
    {
        Search::parse(s)
    }
}

impl Clone for HeaderKey {
    fn clone(&self) -> (key: HeaderKey)
        ensures
            key.name() == self.name(),
            key.folded() == self.folded(),
    {
        HeaderKey { name: self.name.clone(), folded: self.folded.clone() }
    }
}

/// The lines that a vector of entries stands for.
pub open spec fn lines_of(entries: Seq<(HeaderKey, String)>) -> Seq<Line> {
    entries.map_values(
        |e: (HeaderKey, String)| Line { name: e.0.name(), folded: e.0.folded(), value: e.1@ },
    )
}

/// The place of the entry that is compared by `folded`, or the length
/// when there is none.
fn position(entries: &Vec<(HeaderKey, String)>, folded: &str) -> (i: usize)
    ensures
        i <= entries@.len(),
        i == slot(lines_of(entries@), folded@),
{
    let mut i: usize = 0;
    while i < entries.len()
        invariant
            i <= entries@.len(),
            forall|j: int| 0 <= j < i ==> folded_names(lines_of(entries@))[j] != folded@,
        decreases entries@.len() - i,
    {
        if same_text(entries[i].0.folded_str(), folded) {
            proof {
                lemma_first_at_is(folded_names(lines_of(entries@)), folded@, i as int);
            }
            return i;
        }
        i += 1;
    }
    proof {
        lemma_first_at_is(folded_names(lines_of(entries@)), folded@, i as int);
    }
    i
}

/// Stores `value` under `key`, compared by `folded`, in `entries`.
fn store(entries: Vec<(HeaderKey, String)>, key: &str, folded: &str, value: &str) -> (out: Vec<
    (HeaderKey, String),
>)
    ensures
        lines_of(out@) == put(lines_of(entries@), key@, folded@, value@),
{
    let mut entries = entries;
    let ghost before = lines_of(entries@);
    let i = position(&entries, folded);
    if i < entries.len() {
        let kept = entries[i].0.clone();
        entries.set(i, (kept, value.to_owned()));
        assert(lines_of(entries@) =~= put(before, key@, folded@, value@));
    } else {
        entries.push((HeaderKey::with_folded(key, folded), value.to_owned()));
        assert(lines_of(entries@) =~= put(before, key@, folded@, value@));
    }
    entries
}

/// A table of headers: each name, compared without regard to case, has one
/// value. The lines keep the order in which their names first came.
#[derive(Debug)]
pub struct Headers {
    entries: Vec<(HeaderKey, String)>,
}

impl View for Headers {
    type V = Seq<Line>;

    closed spec fn view(&self) -> Seq<Line> {
        lines_of(self.entries@)
    }
}

impl Headers {
    #[verifier::type_invariant]
    spec fn one_line_per_name(self) -> bool {
        distinct_names(lines_of(self.entries@))
    }

    /// The value of the header `key`, whatever the case of its letters.
    pub fn get(&self, key: &str) -> (r: Option<&String>)
        ensures
            r matches Some(v) ==> value_of(self@, key@) == Some(v@),
            r is None ==> value_of(self@, key@) is None,
    {
        let folded = to_lowercase(key);
        self.get_folded(folded.as_str())
    }

    /// The value of the line that is compared by `folded`.
    pub fn get_folded(&self, folded: &str) -> (r: Option<&String>)
        ensures
            r matches Some(v) ==> lookup(self@, folded@) == Some(v@),
            r is None ==> lookup(self@, folded@) is None,
    {
        let i = position(&self.entries, folded);
        if i < self.entries.len() {
            Some(&self.entries[i].1)
        } else {
            None
        }
    }

    /// The number of lines.
    pub fn len(&self) -> (n: usize)
        ensures
            n == self@.len(),
            distinct_names(self@),
    {
        proof {
            use_type_invariant(self);
        }
        self.entries.len()
    }

    /// The name, as written, and the value of line `i`.
    pub fn line(&self, i: usize) -> (r: (&str, &str))
        requires
            i < self@.len(),
        ensures
            r.0@ == self@[i as int].name,
            r.1@ == self@[i as int].value,
    {
        (self.entries[i].0.as_str(), self.entries[i].1.as_str())
    }

    /// The lines as they go on the wire: for each, the name as written,
    /// `": "`, the value and a line feed.
    pub fn to_text(&self) -> (r: String)
        ensures
            r@ == headers_text(self@),
    {
        let mut out = String::new();
        let n = self.entries.len();
        let mut i: usize = 0;
        assert(self@.take(0) =~= Seq::<Line>::empty());
        assert(out@ =~= headers_text(self@.take(0)));
        while i < n
            invariant
                n == self@.len(),
                n == self.entries@.len(),
                i <= n,
                out@ == headers_text(self@.take(i as int)),
            decreases n - i,
        {
            let ghost before = out@;
            proof {
                let next = self@.take(i + 1);
                assert(next.drop_last() =~= self@.take(i as int));
                assert(next.last() == self@[i as int]);
            }
            let (name, value) = self.line(i);
            out.append(name);
            out.append(": ");
            out.append(value);
            out.append("\n");
            assert(out@ =~= before + line_text(self@[i as int]));
            i += 1;
        }
        assert(self@.take(n as int) =~= self@);
        out
    }

    /// A table made of `pairs`, stored one after the other: of two names
    /// that are equal without regard to case, the later value stays.
    pub fn from_pairs(pairs: &Vec<(String, String)>) -> (r: Headers)
        ensures
            r@ == put_all(Seq::empty(), pair_lines(pairs@)),
            distinct_names(r@),
    {
        let mut builder = HeadersBuilder::new();
        let mut i: usize = 0;
        assert(pair_lines(pairs@).take(0) =~= Seq::<Line>::empty());
        while i < pairs.len()
            invariant
                i <= pairs@.len(),
                builder@ == put_all(Seq::empty(), pair_lines(pairs@).take(i as int)),
            decreases pairs@.len() - i,
        {
            proof {
                let next = pair_lines(pairs@).take(i + 1);
                assert(next.drop_last() =~= pair_lines(pairs@).take(i as int));
                assert(next.last() == line_of(pairs@[i as int].0@, pairs@[i as int].1@));
            }
            builder = builder.set(pairs[i].0.as_str(), pairs[i].1.as_str());
            i += 1;
        }
        assert(pair_lines(pairs@).take(i as int) =~= pair_lines(pairs@));
        builder.build()
    }

    /// A builder with no lines.
    pub fn builder() -> (b: HeadersBuilder)
        ensures
            b@ == Seq::<Line>::empty(),
    {
        HeadersBuilder::new()
    }
}

/// The lines that a vector of name and value pairs stands for.
pub open spec fn pair_lines(pairs: Seq<(String, String)>) -> Seq<Line> {
    pairs.map_values(|p: (String, String)| line_of(p.0@, p.1@))
}

/// `lines` after each line of `more` is stored in it, first to last.
pub open spec fn put_all(lines: Seq<Line>, more: Seq<Line>) -> Seq<Line>
    decreases more.len(),
{
    if more.len() == 0 {
        lines
    } else {
        put(put_all(lines, more.drop_last()), more.last().name, more.last().folded, more.last().value)
    }
}

/// Collects header lines one by one and then gives the table.
#[derive(Debug)]
pub struct HeadersBuilder {
    entries: Vec<(HeaderKey, String)>,
}

impl View for HeadersBuilder {
    type V = Seq<Line>;

    closed spec fn view(&self) -> Seq<Line> {
        lines_of(self.entries@)
    }
}

impl HeadersBuilder {
    #[verifier::type_invariant]
    spec fn one_line_per_name(self) -> bool {
        distinct_names(lines_of(self.entries@))
    }

    /// A builder with no lines.
    pub fn new() -> (b: HeadersBuilder)
        ensures
            b@ == Seq::<Line>::empty(),
    {
        let entries: Vec<(HeaderKey, String)> = Vec::new();
        assert(lines_of(entries@) =~= Seq::<Line>::empty());
        HeadersBuilder { entries }
    }

    /// Stores `value` under `key`. A line whose name equals `key` without
    /// regard to case gets the new value and keeps its spelling.
    pub fn set(self, key: &str, value: &str) -> (b: HeadersBuilder)
        ensures
            b@ == with_line(self@, key@, value@),
    {
        let folded = to_lowercase(key);
        self.set_folded(key, folded.as_str(), value)
    }

    /// Stores `value` under `key`, compared by `folded`. A line that is
    /// compared by `folded` gets the new value and keeps its spelling.
    pub fn set_folded(self, key: &str, folded: &str, value: &str) -> (b: HeadersBuilder)
        ensures
            b@ == put(self@, key@, folded@, value@),
    {
        proof {
            use_type_invariant(&self);
            lemma_put_keeps_distinct(self@, key@, folded@, value@);
        }
        HeadersBuilder { entries: store(self.entries, key, folded, value) }
    }

    /// The table of the lines collected so far.
    pub fn build(self) -> (h: Headers)
        ensures
            h@ == self@,
            distinct_names(h@),
    {
        proof {
            use_type_invariant(&self);
        }
        Headers { entries: self.entries }
    }
}

/// A request method as the contracts see it.
pub enum MethodView {
    /// GET
    Get,
    /// POST
    Post,
    /// Any other verb, by its exact spelling.
    Other(Seq<char>),
}

/// The method that the token `s` names. Every token names one.
pub open spec fn method_of(s: Seq<char>) -> MethodView {
    if s == "GET"@ {
        MethodView::Get
    } else if s == "POST"@ {
        MethodView::Post
    } else {
        MethodView::Other(s)
    }
}

/// HTTP methods.
#[derive(Debug, PartialEq, Eq)]
pub enum Method {
    /// GET
    Get,
    /// POST
    Post,
    /// Used for custom methods.
    Other(String),
}

impl View for Method {
    type V = MethodView;

    open spec fn view(&self) -> MethodView {
        match self {
            Method::Get => MethodView::Get,
            Method::Post => MethodView::Post,
            Method::Other(s) => MethodView::Other(s@),
        }
    }
}

impl Method {
    /// Reads a method token. `GET` and `POST` are known; any other token
    /// is kept as it is.
    pub fn parse(s: &str) -> (m: Method)
        ensures
            m@ == method_of(s@),
    {
        if same_text(s, "GET") {
            Method::Get
        } else if same_text(s, "POST") {
            Method::Post
        } else {
            Method::Other(s.to_owned())
        }
    }

    /// Tells whether `self` and `other` are the same method.
    pub fn same(&self, other: &Method) -> (r: bool)
        ensures
            r == (self@ == other@),
    {
        match (self, other) {
            (Method::Get, Method::Get) => true,
            (Method::Post, Method::Post) => true,
            (Method::Other(a), Method::Other(b)) => same_text(a.as_str(), b.as_str()),
            _ => false,
        }
    }
}

impl core::str::FromStr for Method {
    type Err = core::convert::Infallible;

    /// Reads a method token; this never fails.
    fn from_str(s: &str) -> (r: Result<Method, core::convert::Infallible>)
        ensures
            r matches Ok(m) && m@ == method_of(s@),
    {
        Ok(Method::parse(s))
    }
}

impl Clone for Method {
    fn clone(&self) -> (m: Method)
        ensures
            m@ == self@,
    {
        match self {
            Method::Get => Method::Get,
            Method::Post => Method::Post,
            Method::Other(s) => Method::Other(s.clone()),
        }
    }
}

/// Query parameters as the contracts see them: each name with its value.
pub type Params = Map<Seq<char>, Seq<char>>;

/// The parameters that the segments `name=value` give, first to last, a
/// later value replacing an earlier one of the same name. `None` when a
/// segment has no `=`.
pub open spec fn params_of(segments: Seq<Seq<char>>) -> Option<Params>
    decreases segments.len(),
{
    if segments.len() == 0 {
        Some(Map::empty())
    } else {
        match (params_of(segments.drop_last()), split_once(segments.last(), '=')) {
            (Some(m), Some((name, value))) => Some(m.insert(name, value)),
            _ => None,
        }
    }
}

/// The parameters of the query string `s`: its segments between `&`, each
/// cut at its first `=`.
pub open spec fn search_of(s: Seq<char>) -> Option<Params> {
    params_of(split(s, '&'))
}

/// The parameters that a vector of pairs stands for: a later pair replaces
/// an earlier one of the same name.
pub open spec fn params_in(pairs: Seq<(String, String)>) -> Params
    decreases pairs.len(),
{
    if pairs.len() == 0 {
        Map::empty()
    } else {
        params_in(pairs.drop_last()).insert(pairs.last().0@, pairs.last().1@)
    }
}

/// URL search parameters. Values are kept as they were written: nothing is
/// decoded.
#[derive(Debug)]
pub struct Search {
    pairs: Vec<(String, String)>,
}

impl View for Search {
    type V = Params;

    closed spec fn view(&self) -> Params {
        params_in(self.pairs@)
    }
}

impl Search {
    /// No parameters.
    pub fn empty() -> (r: Search)
        ensures
            r@ == Params::empty(),
    {
        Search { pairs: Vec::new() }
    }

    /// Reads a query string `name=value&name=value...`. The whole string
    /// is refused when one of its segments has no `=`.
    pub fn parse(s: &str) -> (r: Result<Search, ()>)
        ensures
            r matches Ok(found) ==> search_of(s@) == Some(found@),
            r is Err ==> search_of(s@) is None,
    {
        let segments = split_text(s, '&');
        let ghost all = texts(segments@);
        let mut pairs: Vec<(String, String)> = Vec::new();
        let mut i: usize = 0;
        assert(all.take(0) =~= Seq::<Seq<char>>::empty());
        while i < segments.len()
            invariant
                all == texts(segments@),
                all == split(s@, '&'),
                i <= segments@.len(),
                params_of(all.take(i as int)) == Some(params_in(pairs@)),
            decreases segments@.len() - i,
        {
            proof {
                let next = all.take(i + 1);
                assert(next.drop_last() =~= all.take(i as int));
                assert(next.last() == segments@[i as int]@);
            }
            match split_once_text(segments[i].as_str(), '=') {
                Some((name, value)) => {
                    let ghost before = pairs@;
                    pairs.push((name, value));
                    assert(pairs@.drop_last() =~= before);
                },
                None => {
                    proof {
                        if params_of(all) is Some {
                            lemma_params_prefix(all, i + 1);
                        }
                    }
                    return Err(());
                },
            }
            i += 1;
        }
        assert(all.take(i as int) =~= all);
        Ok(Search { pairs })
    }

    /// The value of the parameter `name`.
    pub fn get(&self, name: &str) -> (r: Option<&String>)
        ensures
            match r {
                Some(v) => self@.contains_key(name@) && self@[name@] == v@,
                None => !self@.contains_key(name@),
            },
    {
        let mut i: usize = self.pairs.len();
        assert(self.pairs@.take(i as int) =~= self.pairs@);
        while i > 0
            invariant
                i <= self.pairs@.len(),
                self@.contains_key(name@) == params_in(self.pairs@.take(i as int)).contains_key(
                    name@,
                ),
                self@.contains_key(name@) ==> self@[name@] == params_in(
                    self.pairs@.take(i as int),
                )[name@],
            decreases i,
        {
            let ghost upto = self.pairs@.take(i as int);
            proof {
                assert(upto.drop_last() =~= self.pairs@.take(i - 1));
                assert(upto.last() == self.pairs@[i - 1]);
            }
            i -= 1;
            if same_text(self.pairs[i].0.as_str(), name) {
                return Some(&self.pairs[i].1);
            }
        }
        None
    }

    /// Tells whether there is a parameter `name`.
    pub fn contains_key(&self, name: &str) -> (r: bool)
        ensures
            r == self@.contains_key(name@),
    {
        self.get(name).is_some()
    }
}

impl Default for Search {
    fn default() -> (r: Search)
        ensures
            r@ == Params::empty(),
    {
        Search::empty()
    }
}

/// Segments give parameters only if each run of leading segments does.
pub proof fn lemma_params_prefix(segments: Seq<Seq<char>>, i: int)
    requires
        0 <= i <= segments.len(),
        params_of(segments) is Some,
    ensures
        params_of(segments.take(i)) is Some,
    decreases segments.len(),
{
    if i == segments.len() {
        assert(segments.take(i) =~= segments);
    } else {
        lemma_params_prefix(segments.drop_last(), i);
        assert(segments.drop_last().take(i) =~= segments.take(i));
    }
}

} // verus!

//! Text helpers shared by the protocol modules: searching and splitting
//! sequences, white space, the order of texts, and case folding.

use vstd::prelude::*;

verus! {

/// Position of the first `x` in `s`, or `s.len()` when `s` holds none.
pub open spec fn first_at<T>(s: Seq<T>, x: T) -> int
    decreases s.len(),
{
    if s.len() == 0 {
        0
    } else if s[0] == x {
        0
    } else {
        1 + first_at(s.drop_first(), x)
    }
}

/// `first_at` is in range, points at an `x` when it is inside `s`, and
/// nothing before it equals `x`.
pub proof fn lemma_first_at<T>(s: Seq<T>, x: T)
    ensures
        0 <= first_at(s, x) <= s.len(),
        first_at(s, x) < s.len() ==> s[first_at(s, x)] == x,
        forall|j: int| 0 <= j < first_at(s, x) ==> s[j] != x,
    decreases s.len(),
{
    if s.len() > 0 && s[0] != x {
        let t = s.drop_first();
        lemma_first_at(t, x);
        assert forall|j: int| 0 <= j < first_at(s, x) implies s[j] != x by {
            if j > 0 {
                assert(s[j] == t[j - 1]);
            }
        }
    }
}

/// Any position with the properties of `lemma_first_at` is `first_at`.
pub proof fn lemma_first_at_is<T>(s: Seq<T>, x: T, i: int)
    requires
        0 <= i <= s.len(),
        i < s.len() ==> s[i] == x,
        forall|j: int| 0 <= j < i ==> s[j] != x,
    ensures
        first_at(s, x) == i,
    decreases s.len(),
{
    if s.len() > 0 && s[0] != x {
        let t = s.drop_first();
        assert forall|j: int| 0 <= j < i - 1 implies t[j] != x by {
            assert(t[j] == s[j + 1]);
        }
        lemma_first_at_is(t, x, i - 1);
    }
}

/// The pieces of `s` between occurrences of `sep`; always at least one piece.
pub open spec fn split<T>(s: Seq<T>, sep: T) -> Seq<Seq<T>>
    decreases s.len(),
{
    let i = first_at(s, sep);
    if 0 <= i < s.len() {
        seq![s.take(i)] + split(s.skip(i + 1), sep)
    } else {
        seq![s]
    }
}

/// Position of the first `x` at or after `from`, or the length when none is left.
pub fn find_char(v: &[char], from: usize, x: char) -> (i: usize)
    requires
        from <= v@.len(),
    ensures
        from <= i <= v@.len(),
        i == from + first_at(v@.skip(from as int), x),
{
    let mut i: usize = from;
    while i < v.len() && v[i] != x
        invariant
            from <= i <= v@.len(),
            forall|j: int| from <= j < i ==> v@[j] != x,
        decreases v@.len() - i,
    {
        i += 1;
    }
    proof {
        lemma_first_at_is(v@.skip(from as int), x, i - from);
    }
    i
}

/// Position of the first byte `x` at or after `from`, or the length when none is left.
pub fn find_byte(v: &[u8], from: usize, x: u8) -> (i: usize)
    requires
        from <= v@.len(),
    ensures
        from <= i <= v@.len(),
        i == from + first_at(v@.skip(from as int), x),
{
    let mut i: usize = from;
    while i < v.len() && v[i] != x
        invariant
            from <= i <= v@.len(),
            forall|j: int| from <= j < i ==> v@[j] != x,
        decreases v@.len() - i,
    {
        i += 1;
    }
    proof {
        lemma_first_at_is(v@.skip(from as int), x, i - from);
    }
    i
}

/// The characters of `s`, in order.
pub fn chars_of(s: &str) -> (out: Vec<char>)
    ensures
        out@ == s@,
{
    broadcast use vstd::string::group_string_axioms;

    let mut out: Vec<char> = Vec::new();
    for c in it: s.chars()
        invariant
            it.seq() == s@,
            out@ == it.seq().take(it.index()),
    {
        out.push(c);
    }
    assert(out@ == s@);
    out
}

/// The views of a vector of strings, in order.
pub open spec fn texts(v: Seq<String>) -> Seq<Seq<char>> {
    v.map_values(|t: String| t@)
}

/// The part of `s` before the first `sep` and the part after it,
/// or `None` when `s` holds no `sep`.
pub open spec fn split_once<T>(s: Seq<T>, sep: T) -> Option<(Seq<T>, Seq<T>)> {
    let i = first_at(s, sep);
    if 0 <= i < s.len() {
        Some((s.take(i), s.skip(i + 1)))
    } else {
        None
    }
}

/// Cuts `s` at every `sep`.
pub fn split_text(s: &str, sep: char) -> (out: Vec<String>)
    ensures
        texts(out@) == split(s@, sep),
{
    let chars = chars_of(s);
    let n = chars.len();
    let mut out: Vec<String> = Vec::new();
    let mut start: usize = 0;
    proof {
        assert(s@.skip(0) =~= s@);
        assert(texts(out@) + split(s@, sep) =~= split(s@, sep));
    }
    loop
        invariant
            chars@ == s@,
            n == chars@.len(),
            start <= n,
            split(s@, sep) == texts(out@) + split(s@.skip(start as int), sep),
        decreases n - start,
    {
        let i = find_char(chars.as_slice(), start, sep);
        let piece = s.substring_char(start, i).to_owned();
        let ghost rest = s@.skip(start as int);
        let ghost before = texts(out@);
        proof {
            assert(rest.take(i - start) =~= s@.subrange(start as int, i as int));
        }
        out.push(piece);
        proof {
            assert(texts(out@) =~= before + seq![rest.take(i - start)]);
        }
        if i == n {
            proof {
                assert(rest.take(i - start) =~= rest);
                assert(split(rest, sep) =~= seq![rest]);
            }
            return out;
        }
        proof {
            assert(rest.skip(i - start + 1) =~= s@.skip(i + 1));
            assert(split(rest, sep) =~= seq![rest.take(i - start)] + split(s@.skip(i + 1), sep));
            assert(split(s@, sep) =~= texts(out@) + split(s@.skip(i + 1), sep));
        }
        start = i + 1;
    }
}

/// Cuts `s` at its first `sep`, if it has one.
pub fn split_once_text(s: &str, sep: char) -> (out: Option<(String, String)>)
    ensures
        out matches Some(p) ==> split_once(s@, sep) == Some((p.0@, p.1@)),
        out is None ==> split_once(s@, sep) is None,
{
    let chars = chars_of(s);
    let n = chars.len();
    let i = find_char(chars.as_slice(), 0, sep);
    proof {
        assert(s@.skip(0) =~= s@);
    }
    if i < n {
        let left = s.substring_char(0, i).to_owned();
        let right = s.substring_char(i + 1, n).to_owned();
        proof {
            assert(s@.take(i as int) =~= s@.subrange(0, i as int));
            assert(s@.skip(i + 1) =~= s@.subrange(i + 1, n as int));
        }
        Some((left, right))
    } else {
        None
    }
}

/// True when the two texts hold the same characters.
pub fn same_text(a: &str, b: &str) -> (r: bool)
    ensures
        r == (a@ == b@),
{
    let x = chars_of(a);
    let y = chars_of(b);
    if x.len() != y.len() {
        return false;
    }
    let mut i: usize = 0;
    while i < x.len()
        invariant
            x@ == a@,
            y@ == b@,
            x@.len() == y@.len(),
            i <= x@.len(),
            forall|j: int| 0 <= j < i ==> x@[j] == y@[j],
        decreases x@.len() - i,
    {
        if x[i] != y[i] {
            assert(a@[i as int] != b@[i as int]);
            return false;
        }
        i += 1;
    }
    proof {
        assert(x@ =~= y@);
    }
    true
}

/// Position of the first `a` that is directly followed by `b`, or
/// `s.len()` when `s` holds no such pair.
pub open spec fn first_pair<T>(s: Seq<T>, a: T, b: T) -> int
    decreases s.len(),
{
    if s.len() < 2 {
        s.len() as int
    } else if s[0] == a && s[1] == b {
        0
    } else {
        1 + first_pair(s.drop_first(), a, b)
    }
}

/// Any position that starts the first pair `a`, `b` in `s` (or the length,
/// when there is no pair) is `first_pair`.
pub proof fn lemma_first_pair_is<T>(s: Seq<T>, a: T, b: T, i: int)
    requires
        0 <= i <= s.len(),
        i < s.len() ==> i + 1 < s.len() && s[i] == a && s[i + 1] == b,
        forall|j: int| 0 <= j < i && j + 1 < s.len() ==> !(#[trigger] s[j] == a && s[j + 1] == b),
    ensures
        first_pair(s, a, b) == i,
    decreases s.len(),
{
    if s.len() >= 2 && !(s[0] == a && s[1] == b) {
        let t = s.drop_first();
        assert forall|j: int| 0 <= j < i - 1 && j + 1 < t.len() implies !(#[trigger] t[j] == a
            && t[j + 1] == b) by {
            assert(t[j] == s[j + 1]);
            assert(t[j + 1] == s[j + 2]);
        }
        lemma_first_pair_is(t, a, b, i - 1);
    }
}

/// The part of `s` before the first pair `a`, `b` and the part after it,
/// or `None` when `s` holds no such pair.
pub open spec fn split_once_pair<T>(s: Seq<T>, a: T, b: T) -> Option<(Seq<T>, Seq<T>)> {
    let i = first_pair(s, a, b);
    if 0 <= i < s.len() {
        Some((s.take(i), s.skip(i + 2)))
    } else {
        None
    }
}

/// Cuts `s` at the first place where `a` is directly followed by `b`.
pub fn split_once_pair_text(s: &str, a: char, b: char) -> (out: Option<(String, String)>)
    ensures
        out matches Some(p) ==> split_once_pair(s@, a, b) == Some((p.0@, p.1@)),
        out is None ==> split_once_pair(s@, a, b) is None,
{
    let chars = chars_of(s);
    let n = chars.len();
    let mut i: usize = 0;
    while i < n && !(i + 1 < n && chars[i] == a && chars[i + 1] == b)
        invariant
            chars@ == s@,
            n == chars@.len(),
            i <= n,
            forall|j: int| 0 <= j < i && j + 1 < n ==> !(#[trigger] s@[j] == a && s@[j + 1] == b),
        decreases n - i,
    {
        i += 1;
    }
    proof {
        lemma_first_pair_is(s@, a, b, i as int);
    }
    if i < n {
        let left = s.substring_char(0, i).to_owned();
        let right = s.substring_char(i + 2, n).to_owned();
        proof {
            assert(s@.take(i as int) =~= s@.subrange(0, i as int));
            assert(s@.skip(i + 2) =~= s@.subrange(i + 2, n as int));
        }
        Some((left, right))
    } else {
        None
    }
}

/// The white-space characters: those that trimming a line removes.
pub open spec fn is_space(c: char) -> bool {
    let u = c as u32;
    ||| 0x09 <= u <= 0x0d
    ||| u == 0x20
    ||| u == 0x85
    ||| u == 0xa0
    ||| u == 0x1680
    ||| 0x2000 <= u <= 0x200a
    ||| u == 0x2028
    ||| u == 0x2029
    ||| u == 0x202f
    ||| u == 0x205f
    ||| u == 0x3000
}

/// True when `s` holds nothing but white space.
pub open spec fn is_blank(s: Seq<char>) -> bool {
    forall|i: int| 0 <= i < s.len() ==> is_space(#[trigger] s[i])
}

/// Tells whether `c` is a white-space character.
pub fn space(c: char) -> (r: bool)
    ensures
        r == is_space(c),
{
    let u: u32 = c as u32;
    (0x09 <= u && u <= 0x0d) || u == 0x20 || u == 0x85 || u == 0xa0 || u == 0x1680 || (0x2000
        <= u && u <= 0x200a) || u == 0x2028 || u == 0x2029 || u == 0x202f || u == 0x205f || u
        == 0x3000
}

/// Tells whether `s` is empty once white space is trimmed from it.
pub fn blank(s: &str) -> (r: bool)
    ensures
        r == is_blank(s@),
{
    let chars = chars_of(s);
    let mut i: usize = 0;
    while i < chars.len()
        invariant
            chars@ == s@,
            i <= chars@.len(),
            forall|j: int| 0 <= j < i ==> is_space(#[trigger] s@[j]),
        decreases chars@.len() - i,
    {
        if !space(chars[i]) {
            return false;
        }
        i += 1;
    }
    true
}

/// The order of texts: at the first place where two texts differ, the one
/// with the smaller character comes first; a text comes before every text
/// that it begins.
pub open spec fn text_before(a: Seq<char>, b: Seq<char>) -> bool
    decreases a.len(),
{
    if b.len() == 0 {
        false
    } else if a.len() == 0 {
        true
    } else if a[0] != b[0] {
        (a[0] as u32) < (b[0] as u32)
    } else {
        text_before(a.drop_first(), b.drop_first())
    }
}

/// Of two texts, at most one comes before the other.
pub proof fn lemma_text_before_one_way(a: Seq<char>, b: Seq<char>)
    requires
        text_before(a, b),
    ensures
        !text_before(b, a),
    decreases a.len(),
{
    if a.len() > 0 && b.len() > 0 && a[0] == b[0] {
        lemma_text_before_one_way(a.drop_first(), b.drop_first());
    }
}

/// The order of texts carries over a text in between.
pub proof fn lemma_text_before_chain(a: Seq<char>, b: Seq<char>, c: Seq<char>)
    requires
        text_before(a, b),
        text_before(b, c),
    ensures
        text_before(a, c),
    decreases a.len(),
{
    if a.len() > 0 && b.len() > 0 && c.len() > 0 && a[0] == b[0] && b[0] == c[0] {
        lemma_text_before_chain(a.drop_first(), b.drop_first(), c.drop_first());
    }
}

/// Of two texts that differ, one comes before the other.
pub proof fn lemma_text_before_decides(a: Seq<char>, b: Seq<char>)
    ensures
        a == b || text_before(a, b) || text_before(b, a),
    decreases a.len(),
{
    if a.len() == 0 || b.len() == 0 {
        if a.len() == 0 && b.len() == 0 {
            assert(a =~= b);
        }
    } else if a[0] == b[0] {
        lemma_text_before_decides(a.drop_first(), b.drop_first());
        if a.drop_first() == b.drop_first() {
            assert(a =~= seq![a[0]] + a.drop_first());
            assert(b =~= seq![b[0]] + b.drop_first());
        }
    } else {
        vstd::utf8::char_u32_cast(a[0], a[0] as u32);
        vstd::utf8::char_u32_cast(b[0], b[0] as u32);
    }
}

/// Tells whether the text `a` comes before the text `b`.
pub fn text_less(a: &str, b: &str) -> (r: bool)
    ensures
        r == text_before(a@, b@),
{
    let x = chars_of(a);
    let y = chars_of(b);
    let mut i: usize = 0;
    assert(a@.skip(0) =~= a@);
    assert(b@.skip(0) =~= b@);
    loop
        invariant
            x@ == a@,
            y@ == b@,
            i <= x@.len(),
            i <= y@.len(),
            text_before(a@, b@) == text_before(a@.skip(i as int), b@.skip(i as int)),
        decreases x@.len() - i,
    {
        let ghost p = a@.skip(i as int);
        let ghost q = b@.skip(i as int);
        if i == y.len() {
            return false;
        }
        if i == x.len() {
            return true;
        }
        assert(p[0] == a@[i as int]);
        assert(q[0] == b@[i as int]);
        if x[i] != y[i] {
            return (x[i] as u32) < (y[i] as u32);
        }
        assert(p.drop_first() =~= a@.skip(i + 1));
        assert(q.drop_first() =~= b@.skip(i + 1));
        i += 1;
    }
}

/// The lower-case form that `str::to_lowercase` gives a text. It follows the
/// Unicode case tables, so it is named here and not written out.
pub uninterp spec fn lowercase(s: Seq<char>) -> Seq<char>;

/// Calls `str::to_lowercase`. Trusted: the result is the lower-case form of
/// `s` under the Unicode tables, a function of the characters of `s` alone.
#[verifier::external_body]
pub(crate) fn to_lowercase(s: &str) -> (r: String)
    ensures
        r@ == lowercase(s@),
{
    s.to_lowercase()
}

} // verus!

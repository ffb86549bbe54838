//! The reader on the other side of the wire: it takes the bytes of a
//! response apart again. With it comes the proof that a response which
//! announces the length of its body is read back as it was written.

use crate::common::{
    distinct_names, folded_names, headers_text, line_text, put, put_all, value_of, with_line,
    Headers, Line,
};
use crate::number::{decimal, digit_value, lemma_decimal_digits, lemma_decimal_reads_back, word_of};
use crate::request::{
    body_text, decode_text, framed_body, headers_from, line_after, line_bytes, line_end,
    parse_headers, read_framed, read_line, text_of, ParseError,
};
use crate::response::{status_text, wire_text, ResponseView};
use crate::text::{
    is_blank, is_space, lemma_first_at_is, lemma_first_pair_is, lowercase, split_once_pair,
};
use vstd::prelude::*;
use vstd::slice::slice_subrange;
use vstd::utf8::{
    encode_scalar, encode_utf8, encode_utf8_decode_utf8, encode_utf8_valid_utf8,
    has_width_1_encoding, is_ascii_chars, is_ascii_chars_encode_utf8,
};

verus! {

/// What a reader finds in the bytes of a response: the header lines and
/// the body. The status line is passed over. A `Content-Length` gives the
/// length of the body; without one the body is all that is left.
pub open spec fn reply_of(wire: Seq<u8>) -> Result<(Seq<Line>, Seq<char>), ParseError> {
    match text_of(line_bytes(wire, 0)) {
        None => Err(ParseError::Encoding),
        Some(_) => match headers_from(wire, line_after(wire, 0), Seq::empty()) {
            Err(e) => Err(e),
            Ok((lines, start)) => match value_of(lines, "Content-Length"@) {
                Some(value) => match framed_body(wire, start, value) {
                    Ok(data) => Ok((lines, data)),
                    Err(e) => Err(e),
                },
                None => match text_of(wire.skip(start)) {
                    Some(data) => Ok((lines, data)),
                    None => Err(ParseError::Encoding),
                },
            },
        },
    }
}

/// Reads the headers and the body from the bytes of a response.
pub fn read_reply(wire: &[u8]) -> (r: Result<(Headers, String), ParseError>)
    ensures
        r matches Ok(found) ==> reply_of(wire@) == Ok::<_, ParseError>((found.0@, found.1@)),
        r matches Err(e) ==> reply_of(wire@) == Err::<(Seq<Line>, Seq<char>), _>(e),
{
    let (first, after) = read_line(wire, 0);
    if first.is_none() {
        return Err(ParseError::Encoding);
    }
    let (headers, start) = match parse_headers(wire, after) {
        Ok(found) => found,
        Err(e) => {
            return Err(e);
        },
    };
    let body = match headers.get("Content-Length") {
        Some(value) => read_framed(wire, start, value.as_str()),
        None => {
            assert(wire@.skip(start as int) =~= wire@.subrange(start as int, wire@.len() as int));
            match decode_text(slice_subrange(wire, start, wire.len())) {
                Some(data) => Ok(data),
                None => Err(ParseError::Encoding),
            }
        },
    };
    match body {
        Ok(data) => Ok((headers, data)),
        Err(e) => Err(e),
    }
}

/// A character that is no line break: neither carriage return nor line
/// feed.
pub open spec fn plain_char(c: char) -> bool {
    c != '\n' && c != '\r'
}

/// A text that stays on one line: it holds no line break.
pub open spec fn plain(s: Seq<char>) -> bool {
    forall|i: int| 0 <= i < s.len() ==> plain_char(#[trigger] s[i])
}

/// A header line that can be written and read back: name and value stay
/// on one line, the name holds no colon that is followed by a space, and
/// the line is compared by the lower case of its name.
pub open spec fn plain_line(line: Line) -> bool {
    &&& plain(line.name)
    &&& plain(line.value)
    &&& forall|i: int|
        0 <= i && i + 1 < line.name.len() ==> !(#[trigger] line.name[i] == ':' && line.name[i + 1]
            == ' ')
    &&& line.folded == lowercase(line.name)
}

/// A response whose head can be written and read back: the reason phrase
/// and the header lines stay on one line each, and no two lines have the
/// same name.
pub open spec fn wire_safe(response: ResponseView) -> bool {
    &&& plain(body_text(response.status.message))
    &&& forall|i: int| 0 <= i < response.headers.len() ==> plain_line(#[trigger] response.headers[i])
    &&& distinct_names(response.headers)
}

/// The encoding of two texts one after the other is the encoding of the
/// first followed by that of the second.
pub proof fn lemma_encode_concat(a: Seq<char>, b: Seq<char>)
    ensures
        encode_utf8(a + b) == encode_utf8(a) + encode_utf8(b),
    decreases a.len(),
{
    if a.len() == 0 {
        assert(a + b =~= b);
        assert(encode_utf8(a) + encode_utf8(b) =~= encode_utf8(b));
    } else {
        lemma_encode_concat(a.drop_first(), b);
        assert((a + b).drop_first() =~= a.drop_first() + b);
        assert(encode_utf8(a + b) =~= encode_utf8(a) + encode_utf8(b));
    }
}

/// A byte with its highest bit set is neither a line feed nor a carriage
/// return.
proof fn lemma_high_byte(low: u8, high: u8)
    by (bit_vector)
    requires
        high == 0x80 || high == 0xC0 || high == 0xE0 || high == 0xF0,
    ensures
        high | low != 10,
        high | low != 13,
{
}

/// The one byte of a character below 128 is the character.
proof fn lemma_low_byte(scalar: u32)
    by (bit_vector)
    requires
        scalar <= 0x7F,
    ensures
        (scalar & 0x7F) as u8 == 10 <==> scalar == 10,
        (scalar & 0x7F) as u8 == 13 <==> scalar == 13,
{
}

/// The encoding of a character that is no line break holds no line feed
/// and no carriage return.
pub proof fn lemma_plain_char(c: char)
    requires
        plain_char(c),
    ensures
        forall|i: int|
            0 <= i < encode_scalar(c as u32).len() ==> #[trigger] encode_scalar(c as u32)[i] != 10u8
                && encode_scalar(c as u32)[i] != 13u8,
{
    let scalar = c as u32;
    vstd::utf8::char_is_scalar(c);
    if has_width_1_encoding(scalar) {
        lemma_low_byte(scalar);
        if scalar == 10 || scalar == 13 {
            vstd::utf8::char_u32_cast(c, scalar);
            vstd::utf8::char_u32_cast('\n', 10u32);
            vstd::utf8::char_u32_cast('\r', 13u32);
        }
    } else {
        lemma_high_byte((scalar & 0x3F) as u8, 0x80);
        lemma_high_byte(((scalar >> 6) & 0x3F) as u8, 0x80);
        lemma_high_byte(((scalar >> 12) & 0x3F) as u8, 0x80);
        lemma_high_byte(((scalar >> 6) & 0x1F) as u8, 0xC0);
        lemma_high_byte(((scalar >> 12) & 0x0F) as u8, 0xE0);
        lemma_high_byte(((scalar >> 18) & 0x7) as u8, 0xF0);
    }
}

/// The encoding of a text that stays on one line holds no line feed and
/// no carriage return, and the text is read back from it.
pub proof fn lemma_plain_text(s: Seq<char>)
    requires
        plain(s),
    ensures
        forall|i: int|
            0 <= i < encode_utf8(s).len() ==> #[trigger] encode_utf8(s)[i] != 10u8 && encode_utf8(
                s,
            )[i] != 13u8,
        text_of(encode_utf8(s)) == Some(s),
    decreases s.len(),
{
    encode_utf8_valid_utf8(s);
    encode_utf8_decode_utf8(s);
    if s.len() > 0 {
        let first = encode_scalar(s[0] as u32);
        let rest = s.drop_first();
        assert(plain_char(s[0]));
        lemma_plain_char(s[0]);
        assert forall|i: int| 0 <= i < rest.len() implies plain_char(#[trigger] rest[i]) by {
            assert(rest[i] == s[i + 1]);
        }
        lemma_plain_text(rest);
        assert forall|i: int| 0 <= i < encode_utf8(s).len() implies #[trigger] encode_utf8(s)[i]
            != 10u8 && encode_utf8(s)[i] != 13u8 by {
            if i < first.len() {
                assert(encode_utf8(s)[i] == first[i]);
            } else {
                assert(encode_utf8(s)[i] == encode_utf8(rest)[i - first.len()]);
            }
        }
    }
}

/// The encoding of a line feed is one byte.
pub proof fn lemma_line_feed()
    ensures
        encode_utf8("\n"@) == seq![10u8],
{
    reveal_strlit("\n");
    let s = "\n"@;
    assert(is_ascii_chars(s));
    is_ascii_chars_encode_utf8(s);
    assert(encode_utf8(s)[0] == s[0] as u8);
    assert(encode_utf8(s) =~= seq![10u8]);
}

/// Where the input holds the encoding of a line and then a line feed, the
/// reader finds that line there, and the next line after the line feed.
pub proof fn lemma_reads_line(input: Seq<u8>, pos: int, line: Seq<char>, rest: Seq<char>)
    requires
        0 <= pos <= input.len(),
        plain(line),
        input.skip(pos) == encode_utf8(line + "\n"@ + rest),
    ensures
        text_of(line_bytes(input, pos)) == Some(line),
        pos < line_after(input, pos) <= input.len(),
        input.skip(line_after(input, pos)) == encode_utf8(rest),
{
    let coded = encode_utf8(line);
    let n = coded.len() as int;
    let tail = input.skip(pos);
    lemma_plain_text(line);
    lemma_line_feed();
    lemma_encode_concat(line + "\n"@, rest);
    lemma_encode_concat(line, "\n"@);
    assert(tail == coded + seq![10u8] + encode_utf8(rest));
    assert(tail.len() == input.len() - pos);
    assert(tail[n] == 10u8);
    assert forall|j: int| 0 <= j < n implies tail[j] != 10u8 by {
        assert(tail[j] == coded[j]);
    }
    lemma_first_at_is(tail, 10u8, n);
    let end = pos + n;
    assert(line_end(input, pos) == end);
    if pos < end {
        assert(input[end - 1] == tail[n - 1]);
        assert(tail[n - 1] == coded[n - 1]);
    }
    assert(input.subrange(pos, end) =~= coded) by {
        assert forall|j: int| 0 <= j < n implies input.subrange(pos, end)[j] == coded[j] by {
            assert(input[pos + j] == tail[j]);
            assert(tail[j] == coded[j]);
        }
    }
    assert(input.skip(end + 1) =~= encode_utf8(rest)) by {
        assert forall|j: int| 0 <= j < encode_utf8(rest).len() implies input.skip(end + 1)[j]
            == encode_utf8(rest)[j] by {
            assert(input[end + 1 + j] == tail[n + 1 + j]);
        }
    }
}

/// The text of the header lines begins with the first line.
pub proof fn lemma_headers_text_front(lines: Seq<Line>)
    requires
        lines.len() > 0,
    ensures
        headers_text(lines) == line_text(lines[0]) + headers_text(lines.drop_first()),
    decreases lines.len(),
{
    if lines.len() == 1 {
        assert(lines.drop_last() =~= Seq::<Line>::empty());
        assert(lines.drop_first() =~= Seq::<Line>::empty());
        assert(headers_text(lines) =~= line_text(lines[0]) + headers_text(lines.drop_first()));
    } else {
        lemma_headers_text_front(lines.drop_last());
        assert(lines.drop_last().drop_first() =~= lines.drop_first().drop_last());
        assert(headers_text(lines) =~= line_text(lines[0]) + headers_text(lines.drop_first()));
    }
}

/// Storing lines one after the other begins with the first line.
pub proof fn lemma_put_all_front(acc: Seq<Line>, lines: Seq<Line>)
    requires
        lines.len() > 0,
    ensures
        put_all(acc, lines) == put_all(
            put(acc, lines[0].name, lines[0].folded, lines[0].value),
            lines.drop_first(),
        ),
    decreases lines.len(),
{
    let first = put(acc, lines[0].name, lines[0].folded, lines[0].value);
    let none = Seq::<Line>::empty();
    if lines.len() == 1 {
        assert(lines.drop_last() =~= none);
        assert(lines.drop_first() =~= none);
        assert(put_all(acc, none) == acc);
        assert(put_all(first, none) == first);
        assert(lines.last() == lines[0]);
    } else {
        let front = lines.drop_last();
        let back = lines.drop_first();
        lemma_put_all_front(acc, front);
        assert(front.drop_first() =~= back.drop_last());
        assert(front[0] == lines[0]);
        assert(back.last() == lines.last());
        assert(put_all(acc, lines) == put(
            put_all(acc, front),
            lines.last().name,
            lines.last().folded,
            lines.last().value,
        ));
        assert(put_all(first, back) == put(
            put_all(first, back.drop_last()),
            back.last().name,
            back.last().folded,
            back.last().value,
        ));
    }
}

/// Lines with distinct names, stored one after the other into an empty
/// table, give the same lines.
pub proof fn lemma_put_all_distinct(lines: Seq<Line>)
    requires
        distinct_names(lines),
    ensures
        put_all(Seq::empty(), lines) == lines,
    decreases lines.len(),
{
    if lines.len() > 0 {
        let front = lines.drop_last();
        let last = lines.last();
        lemma_put_all_distinct(front);
        assert forall|j: int| 0 <= j < front.len() implies folded_names(front)[j]
            != last.folded by {
            assert(front[j] == lines[j]);
        }
        lemma_first_at_is(folded_names(front), last.folded, front.len() as int);
        assert(put(front, last.name, last.folded, last.value) =~= lines);
    }
}

/// Where the input holds the encoding of plain header lines, a blank line
/// and a body, the reader finds those lines and, after them, the body.
pub proof fn lemma_reads_headers(
    input: Seq<u8>,
    pos: int,
    acc: Seq<Line>,
    lines: Seq<Line>,
    body: Seq<char>,
) -> (start: int)
    requires
        0 <= pos <= input.len(),
        forall|i: int| 0 <= i < lines.len() ==> plain_line(#[trigger] lines[i]),
        input.skip(pos) == encode_utf8(headers_text(lines) + "\n"@ + body),
    ensures
        headers_from(input, pos, acc) == Ok::<_, ParseError>((put_all(acc, lines), start)),
        0 <= start <= input.len(),
        input.skip(start) == encode_utf8(body),
    decreases lines.len(),
{
    reveal_strlit(": ");
    reveal_strlit("\n");
    if lines.len() == 0 {
        let none = Seq::<char>::empty();
        assert(headers_text(lines) + "\n"@ + body =~= none + "\n"@ + body);
        lemma_reads_line(input, pos, none, body);
        assert(is_blank(none));
        line_after(input, pos)
    } else {
        let name = lines[0].name;
        let value = lines[0].value;
        let line = name + ": "@ + value;
        let rest = lines.drop_first();
        let after = headers_text(rest) + "\n"@ + body;
        assert(plain_line(lines[0]));
        assert(plain(line)) by {
            assert forall|i: int| 0 <= i < line.len() implies plain_char(#[trigger] line[i]) by {
                if i < name.len() {
                    assert(line[i] == name[i]);
                } else if i >= name.len() + 2 {
                    assert(line[i] == value[i - name.len() - 2]);
                }
            }
        }
        lemma_headers_text_front(lines);
        assert(headers_text(lines) + "\n"@ + body =~= line + "\n"@ + after);
        lemma_reads_line(input, pos, line, after);
        let n = name.len() as int;
        assert(line[n] == ':');
        assert(line[n + 1] == ' ');
        assert(!is_blank(line)) by {
            assert(!is_space(line[n]));
        }
        assert forall|j: int| 0 <= j < n && j + 1 < line.len() implies !(#[trigger] line[j] == ':'
            && line[j + 1] == ' ') by {
            assert(line[j] == name[j]);
            if j + 1 < n {
                assert(line[j + 1] == name[j + 1]);
                assert(!(name[j] == ':' && name[j + 1] == ' '));
            }
        }
        lemma_first_pair_is(line, ':', ' ', n);
        assert(line.take(n) =~= name);
        assert(line.skip(n + 2) =~= value);
        assert(split_once_pair(line, ':', ' ') == Some((name, value)));
        assert forall|i: int| 0 <= i < rest.len() implies plain_line(#[trigger] rest[i]) by {
            assert(rest[i] == lines[i + 1]);
        }
        let start = lemma_reads_headers(
            input,
            line_after(input, pos),
            with_line(acc, name, value),
            rest,
            body,
        );
        lemma_put_all_front(acc, lines);
        start
    }
}

/// The decimal notation of a number is plain.
pub proof fn lemma_decimal_plain(n: nat)
    ensures
        plain(decimal(n)),
{
    lemma_decimal_digits(n);
    assert forall|i: int| 0 <= i < decimal(n).len() implies plain_char(#[trigger] decimal(n)[i]) by {
        assert(digit_value(decimal(n)[i]) is Some);
    }
}

/// A response that is safe for the wire and announces the length of its
/// body in bytes as `Content-Length` is read back from its bytes with the
/// header lines and the body that it was written with.
pub proof fn lemma_round_trip(response: ResponseView)
    requires
        wire_safe(response),
        encode_utf8(body_text(response.body)).len() <= usize::MAX,
        value_of(response.headers, "Content-Length"@) == Some(
            decimal(encode_utf8(body_text(response.body)).len()),
        ),
    ensures
        reply_of(encode_utf8(wire_text(response))) == Ok::<_, ParseError>(
            (response.headers, body_text(response.body)),
        ),
{
    reveal_strlit("HTTP/1.1 ");
    reveal_strlit(" ");
    reveal_strlit("\n");
    let body = body_text(response.body);
    let wire = encode_utf8(wire_text(response));
    let first = "HTTP/1.1 "@ + status_text(response.status);
    let after = headers_text(response.headers) + "\n"@ + body;
    assert(plain(first)) by {
        lemma_decimal_plain(response.status.code as nat);
        let message = body_text(response.status.message);
        let code = decimal(response.status.code as nat);
        assert forall|i: int| 0 <= i < first.len() implies plain_char(#[trigger] first[i]) by {
            if i < 9 {
            } else if i < 9 + code.len() {
                assert(first[i] == code[i - 9]);
            } else if i > 9 + code.len() {
                assert(first[i] == message[i - 10 - code.len()]);
            }
        }
    }
    assert(wire_text(response) =~= first + "\n"@ + after);
    assert(wire.skip(0) =~= wire);
    lemma_reads_line(wire, 0, first, after);
    let start = lemma_reads_headers(
        wire,
        line_after(wire, 0),
        Seq::empty(),
        response.headers,
        body,
    );
    lemma_put_all_distinct(response.headers);
    let n = encode_utf8(body).len();
    lemma_decimal_reads_back(n);
    assert(word_of(decimal(n)) == Some(n as usize));
    assert(wire.skip(start).len() == wire.len() - start);
    assert(wire.subrange(start, start + n) =~= wire.skip(start));
    encode_utf8_valid_utf8(body);
    encode_utf8_decode_utf8(body);
}

} // verus!

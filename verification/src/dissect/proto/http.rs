//! HTTP/1.x (RFC 9112), desegmented across TCP segments.
//!
//! A message is only dissected once all of it has arrived. Until then the
//! bytes are held by the TCP layer and the frame is reported as carrying a
//! segment of a message that completes later, which is what makes
//! `http.content_length`, the headers and the body usable on a real capture,
//! where a response rarely fits in one segment.
//!
//! Deciding where a message ends is the whole problem, and RFC 9112 section
//! 6.3 gives the rules: a `Transfer-Encoding: chunked` body ends at the
//! zero-length chunk, a `Content-Length` body is that many bytes, a response
//! with a 1xx/204/304 status has no body at all, and a response with none of
//! those runs until the connection closes. Getting this wrong does not merely
//! mislabel a field: it desynchronises the stream, and every later message in
//! it is parsed from the wrong offset.

use vstd::prelude::*;
use vstd::utf8::*;

use crate::bytes;
use crate::bytes::begins;
use crate::dissect::ctx::{Ctx, Model};
use crate::dissect::cursor::DissectError;
use crate::dissect::node::{Value, ValueView};
use crate::text;
use crate::text::{first_at, holds, lowered, spelled, trimmed, utf8_lossy};

use super::{addressable, error_of, Outcome, SEGMENT};

verus! {

/// What a request begins with.
pub const METHODS: [&'static str; 9] = [
    "GET ",
    "POST ",
    "PUT ",
    "DELETE ",
    "HEAD ",
    "OPTIONS ",
    "PATCH ",
    "CONNECT ",
    "TRACE ",
];

/// What a response begins with.
pub const RESPONSE: &'static str = "HTTP/1.";

/// Headers that get a field of their own; the rest are covered by the line.
pub const NAMED: [(&'static str, &'static str); 5] = [
    ("host", "http.host"),
    ("user-agent", "http.user_agent"),
    ("content-type", "http.content_type"),
    ("server", "http.server"),
    ("connection", "http.connection"),
];

// ---- telling messages from other bytes ------------------------------------------

/// The bytes begin with one of the methods from row `i` on.
pub open spec fn method_from(p: Seq<u8>, i: int) -> bool
    decreases METHODS@.len() - i,
{
    if i < 0 || i >= METHODS@.len() {
        false
    } else {
        begins(p, encode_utf8(METHODS@[i]@)) || method_from(p, i + 1)
    }
}

/// The bytes begin like a request or a response.
pub open spec fn resembles_http(p: Seq<u8>) -> bool {
    begins(p, encode_utf8(RESPONSE@)) || method_from(p, 0)
}

/// Cheap heuristic used by TCP for dispatch.
pub fn looks_like_http(payload: &[u8]) -> (r: bool)
    ensures
        r == resembles_http(payload@),
{
    if bytes::starts_with(payload, RESPONSE.as_bytes()) {
        return true;
    }
    let mut i: usize = 0;
    while i < METHODS.len()
        invariant
            i <= METHODS@.len(),
            method_from(payload@, 0) == method_from(payload@, i as int),
        decreases METHODS.len() - i,
    {
        if bytes::starts_with(payload, METHODS[i].as_bytes()) {
            return true;
        }
        i += 1;
    }
    false
}

/// The bytes are the beginning of `whole`, and not all of it.
pub open spec fn cut_of(p: Seq<u8>, whole: Seq<u8>) -> bool {
    p.len() < whole.len() && begins(whole, p)
}

/// The bytes are a piece of one of the methods from row `i` on.
pub open spec fn cut_method_from(p: Seq<u8>, i: int) -> bool
    decreases METHODS@.len() - i,
{
    if i < 0 || i >= METHODS@.len() {
        false
    } else {
        cut_of(p, encode_utf8(METHODS@[i]@)) || cut_method_from(p, i + 1)
    }
}

/// The bytes could be the beginning of a message, including one whose first
/// word has not fully arrived. Bytes that cannot begin a message are body
/// data continuing something whose start was never captured.
pub open spec fn may_start(p: Seq<u8>) -> bool {
    resembles_http(p) || (p.len() > 0 && (cut_of(p, encode_utf8(RESPONSE@)) || cut_method_from(
        p,
        0,
    )))
}

fn is_cut_of(p: &[u8], whole: &[u8]) -> (r: bool)
    ensures
        r == cut_of(p@, whole@),
{
    p.len() < whole.len() && bytes::starts_with(whole, p)
}

fn starts_message(p: &[u8]) -> (r: bool)
    ensures
        r == may_start(p@),
{
    if looks_like_http(p) {
        return true;
    }
    if p.len() == 0 {
        return false;
    }
    if is_cut_of(p, RESPONSE.as_bytes()) {
        return true;
    }
    let mut i: usize = 0;
    while i < METHODS.len()
        invariant
            0 < p@.len(),
            i <= METHODS@.len(),
            cut_method_from(p@, 0) == cut_method_from(p@, i as int),
        decreases METHODS.len() - i,
    {
        if is_cut_of(p, METHODS[i].as_bytes()) {
            return true;
        }
        i += 1;
    }
    false
}

// ---- where a message ends -------------------------------------------------------

/// The position of the first line end from `i` on.
pub open spec fn crlf(d: Seq<u8>, i: int) -> Option<int>
    decreases d.len() - i,
{
    if i < 0 || i + 2 > d.len() {
        None
    } else if d[i] == 13 && d[i + 1] == 10 {
        Some(i)
    } else {
        crlf(d, i + 1)
    }
}

fn find_crlf(d: &[u8], from: usize) -> (r: Option<usize>)
    ensures
        match r {
            Some(i) => crlf(d@, from as int) == Some(i as int) && from <= i && i + 2 <= d@.len()
                <= usize::MAX,
            None => crlf(d@, from as int) is None,
        },
{
    let mut i: usize = from;
    while i < d.len() && d.len() - i >= 2
        invariant
            from <= i,
            crlf(d@, from as int) == crlf(d@, i as int),
        decreases d.len() - i,
    {
        if d[i] == 13 && d[i + 1] == 10 {
            return Some(i);
        }
        i += 1;
    }
    None
}

/// The offset just past the blank line that ends the lines from `i` on.
pub open spec fn blank_line(d: Seq<u8>, i: int) -> Option<int>
    decreases d.len() - i,
{
    match crlf(d, i) {
        None => None,
        Some(end) => if end == i {
            Some(i + 2)
        } else if i < end && end + 2 <= d.len() {
            blank_line(d, end + 2)
        } else {
            None
        },
    }
}

/// The offset just past the header block.
pub open spec fn body_start(d: Seq<u8>) -> Option<int> {
    match crlf(d, 0) {
        None => None,
        Some(end) => blank_line(d, end + 2),
    }
}

fn find_blank_line(d: &[u8], from: usize) -> (r: Option<usize>)
    ensures
        match r {
            Some(i) => blank_line(d@, from as int) == Some(i as int) && from < i <= d@.len(),
            None => blank_line(d@, from as int) is None,
        },
{
    let mut i: usize = from;
    loop
        invariant
            from <= i,
            blank_line(d@, from as int) == blank_line(d@, i as int),
        decreases d@.len() - i,
    {
        match find_crlf(d, i) {
            None => {
                return None;
            },
            Some(end) => {
                if end == i {
                    return Some(i + 2);
                }
                i = end + 2;
            },
        }
    }
}

fn headers_end(d: &[u8]) -> (r: Option<usize>)
    ensures
        match r {
            Some(i) => body_start(d@) == Some(i as int) && 0 < i <= d@.len(),
            None => body_start(d@) is None,
        },
{
    match find_crlf(d, 0) {
        None => None,
        Some(end) => find_blank_line(d, end + 2),
    }
}

/// Header values that are needed in order to find the end of the body.
#[derive(Debug, Clone, Copy)]
pub struct Headers {
    pub content_length: Option<usize>,
    pub chunked: bool,
}

/// The position of the first `b` from `i` on, or the length.
pub open spec fn byte_at(l: Seq<u8>, b: u8, i: int) -> int
    decreases l.len() - i,
{
    if i < 0 || i >= l.len() || l[i] == b {
        i
    } else {
        byte_at(l, b, i + 1)
    }
}

fn find_byte(l: &[u8], b: u8) -> (r: usize)
    ensures
        r == byte_at(l@, b, 0),
        r <= l@.len(),
{
    let mut i: usize = 0;
    while i < l.len() && l[i] != b
        invariant
            i <= l@.len(),
            byte_at(l@, b, 0) == byte_at(l@, b, i as int),
        decreases l.len() - i,
    {
        i += 1;
    }
    i
}

/// `b` in lower case, if it is an ASCII letter.
pub open spec fn lower_byte(b: u8) -> u8 {
    if 65 <= b <= 90 {
        (b + 32) as u8
    } else {
        b
    }
}

/// The bytes spell `name`, in any case.
pub open spec fn spells(l: Seq<u8>, name: Seq<u8>) -> bool {
    l.map_values(|b: u8| lower_byte(b)) == name.map_values(|b: u8| lower_byte(b))
}

fn is_named(l: &[u8], name: &[u8]) -> (r: bool)
    ensures
        r == spells(l@, name@),
{
    let ghost x = l@.map_values(|b: u8| lower_byte(b));
    let ghost y = name@.map_values(|b: u8| lower_byte(b));
    if l.len() != name.len() {
        assert(x.len() != y.len());
        return false;
    }
    let mut i: usize = 0;
    while i < l.len()
        invariant
            i <= l@.len(),
            l@.len() == name@.len(),
            x == l@.map_values(|b: u8| lower_byte(b)),
            y == name@.map_values(|b: u8| lower_byte(b)),
            forall|j: int| 0 <= j < i ==> x[j] == y[j],
        decreases l.len() - i,
    {
        let a: u8 = if 65 <= l[i] && l[i] <= 90 {
            l[i] + 32
        } else {
            l[i]
        };
        let b: u8 = if 65 <= name[i] && name[i] <= 90 {
            name[i] + 32
        } else {
            name[i]
        };
        if a != b {
            assert(x[i as int] != y[i as int]);
            return false;
        }
        assert(x[i as int] == y[i as int]);
        i += 1;
    }
    assert(x =~= y);
    true
}

/// What the header line `l` adds to what is known. A length that is no number
/// takes back one given before.
pub open spec fn with_header(h: Headers, l: Seq<u8>) -> Headers {
    let colon = byte_at(l, 58, 0);
    if colon >= l.len() {
        h
    } else {
        let name = l.subrange(0, colon);
        let value = trimmed(utf8_lossy(l.subrange(colon + 1, l.len() as int)));
        if spells(name, encode_utf8("content-length"@)) {
            Headers {
                content_length: match spelled(value, 10, usize::MAX as int) {
                    Some(v) => Some(v as usize),
                    None => None,
                },
                ..h
            }
        } else if spells(name, encode_utf8("transfer-encoding"@)) && holds(
            lowered(value),
            "chunked"@,
        ) {
            Headers { chunked: true, ..h }
        } else {
            h
        }
    }
}

fn read_header(h: Headers, l: &[u8]) -> (r: Headers)
    ensures
        r == with_header(h, l@),
{
    let colon: usize = find_byte(l, 58);
    if colon >= l.len() {
        return h;
    }
    let name: &[u8] = bytes::part(l, 0, colon);
    let shown: String = text::from_utf8_lossy(bytes::part(l, colon + 1, l.len()));
    let chars: Vec<char> = text::chars_of(shown.as_str());
    let value: &[char] = text::trim(chars.as_slice());
    if is_named(name, "content-length".as_bytes()) {
        let length: Option<usize> = match text::parse(value, 10, usize::MAX as u64) {
            Some(v) => Some(v as usize),
            None => None,
        };
        return Headers { content_length: length, chunked: h.chunked };
    }
    if is_named(name, "transfer-encoding".as_bytes()) {
        let low: Vec<char> = text::lowercase(value);
        if text::contains(low.as_slice(), text::chars_of("chunked").as_slice()) {
            return Headers { content_length: h.content_length, chunked: true };
        }
    }
    h
}

/// The header lines from `i` on, up to the body.
pub open spec fn headers_from(d: Seq<u8>, i: int, body_at: int, h: Headers) -> Headers
    decreases d.len() - i,
{
    if i + 2 > body_at {
        h
    } else {
        match crlf(d, i) {
            None => h,
            Some(end) => if i < end && end + 2 <= d.len() {
                headers_from(d, end + 2, body_at, with_header(h, d.subrange(i, end)))
            } else {
                h
            },
        }
    }
}

/// The headers of the message.
pub open spec fn headers_of(d: Seq<u8>, body_at: int) -> Headers {
    let none = Headers { content_length: None, chunked: false };
    match crlf(d, 0) {
        None => none,
        Some(first) => headers_from(d, first + 2, body_at, none),
    }
}

fn scan_headers(d: &[u8], body_at: usize) -> (r: Headers)
    requires
        body_at <= d@.len(),
    ensures
        r == headers_of(d@, body_at as int),
{
    let mut h = Headers { content_length: None, chunked: false };
    match find_crlf(d, 0) {
        None => h,
        Some(first) => {
            let mut i: usize = first + 2;
            while i <= body_at && body_at - i >= 2
                invariant
                    body_at <= d@.len(),
                    headers_of(d@, body_at as int) == headers_from(
                        d@,
                        i as int,
                        body_at as int,
                        h,
                    ),
                decreases d@.len() - i,
            {
                match find_crlf(d, i) {
                    None => {
                        return h;
                    },
                    Some(end) => {
                        if end == i {
                            return h;
                        }
                        h = read_header(h, bytes::part(d, i, end));
                        i = end + 2;
                    },
                }
            }
            h
        },
    }
}

/// The length in a chunk's first line: hexadecimal, up to an extension.
pub open spec fn chunk_len(line: Seq<u8>) -> Option<int> {
    let digits = line.subrange(0, byte_at(line, 59, 0));
    if valid_utf8(digits) {
        spelled(trimmed(decode_utf8(digits)), 16, usize::MAX as int)
    } else {
        None
    }
}

fn read_chunk_len(line: &[u8]) -> (r: Option<usize>)
    ensures
        match r {
            Some(v) => chunk_len(line@) == Some(v as int),
            None => chunk_len(line@) is None,
        },
{
    let semi: usize = find_byte(line, 59);
    match text::from_utf8(bytes::part(line, 0, semi)) {
        None => None,
        Some(s) => {
            let chars: Vec<char> = text::chars_of(s);
            match text::parse(text::trim(chars.as_slice()), 16, usize::MAX as u64) {
                Some(v) => Some(v as usize),
                None => None,
            }
        },
    }
}

/// The end of a chunked body that starts at `i`, or none while it is still
/// arriving. Each chunk is a hex length, a line end, that many bytes and a
/// line end; a zero length ends the body, followed by trailer lines and a
/// blank line.
pub open spec fn chunks_end(d: Seq<u8>, i: int) -> Option<int>
    decreases d.len() - i,
{
    match crlf(d, i) {
        None => None,
        Some(end) => match chunk_len(d.subrange(i, end)) {
            None => None,
            Some(len) => {
                let next = end + 2 + len;
                if len == 0 {
                    blank_line(d, end + 2)
                } else if i <= end && 0 < len && next + 2 <= d.len() && d[next] == 13 && d[next
                    + 1] == 10 {
                    chunks_end(d, next + 2)
                } else {
                    None
                }
            },
        },
    }
}

fn chunked_end(d: &[u8], from: usize) -> (r: Option<usize>)
    requires
        from <= d@.len(),
    ensures
        match r {
            Some(i) => chunks_end(d@, from as int) == Some(i as int) && from < i <= d@.len(),
            None => chunks_end(d@, from as int) is None,
        },
{
    let mut i: usize = from;
    loop
        invariant
            from <= i <= d@.len(),
            chunks_end(d@, from as int) == chunks_end(d@, i as int),
        decreases d@.len() - i,
    {
        match find_crlf(d, i) {
            None => {
                return None;
            },
            Some(end) => match read_chunk_len(bytes::part(d, i, end)) {
                None => {
                    return None;
                },
                Some(len) => {
                    let at: usize = end + 2;
                    if len == 0 {
                        return find_blank_line(d, at);
                    }
                    let left: usize = d.len() - at;
                    if left < 2 || left - 2 < len {
                        return None;
                    }
                    let next: usize = at + len;
                    if d[next] != 13 || d[next + 1] != 10 {
                        return None;
                    }
                    i = next + 2;
                },
            },
        }
    }
}

/// The second word of the first line.
pub open spec fn status_word(d: Seq<u8>) -> Option<Seq<u8>> {
    match crlf(d, 0) {
        None => None,
        Some(end) => {
            let line = d.subrange(0, end);
            let a = byte_at(line, 32, 0);
            if a >= line.len() {
                None
            } else {
                let rest = line.subrange(a + 1, end);
                Some(rest.subrange(0, byte_at(rest, 32, 0)))
            }
        },
    }
}

/// 1xx, 204 and 304 responses never carry a body, whatever they say.
pub open spec fn bodiless(d: Seq<u8>) -> bool {
    match status_word(d) {
        None => false,
        Some(w) => w == seq![50u8, 48, 52] || w == seq![51u8, 48, 52] || (w.len() > 0 && w[0]
            == 49),
    }
}

fn no_body_status(d: &[u8]) -> (r: bool)
    ensures
        r == bodiless(d@),
{
    match find_crlf(d, 0) {
        None => false,
        Some(end) => {
            let line: &[u8] = bytes::part(d, 0, end);
            let a: usize = find_byte(line, 32);
            if a >= line.len() {
                return false;
            }
            let rest: &[u8] = bytes::part(line, a + 1, end);
            let w: &[u8] = bytes::part(rest, 0, find_byte(rest, 32));
            let none: [u8; 3] = [50, 48, 52];
            let same: [u8; 3] = [51, 48, 52];
            assert(none@ =~= seq![50u8, 48, 52]);
            assert(same@ =~= seq![51u8, 48, 52]);
            bytes::same(w, &none) || bytes::same(w, &same) || (w.len() > 0 && w[0] == 49)
        },
    }
}

/// Where the message at the start of `d` ends, or none if more is needed.
pub open spec fn end_of(d: Seq<u8>) -> Option<int> {
    match body_start(d) {
        None => None,
        Some(body_at) => {
            let h = headers_of(d, body_at);
            let response = begins(d, encode_utf8(RESPONSE@));
            if response && bodiless(d) {
                Some(body_at)
            } else if h.chunked {
                chunks_end(d, body_at)
            } else {
                match h.content_length {
                    Some(n) => if body_at + n <= d.len() {
                        Some(body_at + n)
                    } else {
                        None
                    },
                    // A response with no length runs until the connection
                    // closes; a request with none has no body.
                    None => if response {
                        Some(d.len() as int)
                    } else {
                        Some(body_at)
                    },
                }
            }
        },
    }
}

/// Where this message ends within `d`, or `None` if more is needed.
pub fn message_end(d: &[u8]) -> (r: Option<usize>)
    ensures
        match r {
            Some(i) => end_of(d@) == Some(i as int) && 0 < i <= d@.len(),
            None => end_of(d@) is None,
        },
{
    match headers_end(d) {
        None => None,
        Some(body_at) => {
            let response: bool = bytes::starts_with(d, RESPONSE.as_bytes());
            if response && no_body_status(d) {
                return Some(body_at);
            }
            let h: Headers = scan_headers(d, body_at);
            if h.chunked {
                return chunked_end(d, body_at);
            }
            match h.content_length {
                Some(n) => if n <= d.len() - body_at {
                    Some(body_at + n)
                } else {
                    None
                },
                None => if response {
                    Some(d.len())
                } else {
                    Some(body_at)
                },
            }
        },
    }
}

// ---- showing a message ----------------------------------------------------------

/// The field that the header `name` gets, from row `i` of the table on.
pub open spec fn field_from(name: Seq<char>, i: int) -> Option<Seq<char>>
    decreases NAMED@.len() - i,
{
    if i < 0 || i >= NAMED@.len() {
        None
    } else if lowered(name) == lowered(NAMED@[i].0@) {
        Some(NAMED@[i].1@)
    } else {
        field_from(name, i + 1)
    }
}

fn field_of(name: &[char]) -> (r: Option<&'static str>)
    ensures
        match r {
            Some(s) => field_from(name@, 0) == Some(s@),
            None => field_from(name@, 0) is None,
        },
{
    let mut i: usize = 0;
    while i < NAMED.len()
        invariant
            i <= NAMED@.len(),
            field_from(name@, 0) == field_from(name@, i as int),
        decreases NAMED.len() - i,
    {
        if text::same_but_case(name, NAMED[i].0) {
            return Some(NAMED[i].1);
        }
        i += 1;
    }
    None
}

/// The field of its own that a header line gets, if it is one of those that
/// have one.
pub open spec fn header_field(line: Seq<char>, start: int, end: int, m: Model) -> Model {
    match first_at(line, ':', 0) {
        None => m,
        Some(colon) => {
            let name = trimmed(line.subrange(0, colon));
            let value = trimmed(line.subrange(colon + 1, line.len() as int));
            match field_from(name, 0) {
                Some(abbrev) => m.leaf(abbrev, start, end, ValueView::Str(value)),
                None => if lowered(name) == lowered("content-length"@) {
                    match spelled(value, 10, u64::MAX as int) {
                        Some(v) => m.leaf(
                            "http.content_length"@,
                            start,
                            end,
                            ValueView::Unsigned(v as u64),
                        ),
                        None => m,
                    }
                } else if lowered(name) == lowered("transfer-encoding"@) {
                    m.leaf("http.transfer_encoding"@, start, end, ValueView::Str(value))
                } else {
                    m
                },
            }
        },
    }
}

fn write_header_field(line: &[char], start: usize, end: usize, ctx: &mut Ctx)
    ensures
        final(ctx)@ == header_field(line@, start as int, end as int, old(ctx)@),
        final(ctx)@.count() >= old(ctx)@.count(),
        final(ctx)@.base == old(ctx)@.base,
{
    if let Some(colon) = text::find_char(line, ':', 0) {
        let name: &[char] = text::trim(vstd::slice::slice_subrange(line, 0, colon));
        let value: &[char] = text::trim(vstd::slice::slice_subrange(line, colon + 1, line.len()));
        if let Some(abbrev) = field_of(name) {
            let _ = ctx.leaf(abbrev, start..end, Value::Str(text::from_chars(value)));
        } else if text::same_but_case(name, "content-length") {
            if let Some(v) = text::parse(value, 10, u64::MAX) {
                let _ = ctx.leaf("http.content_length", start..end, Value::Unsigned(v));
            }
        } else if text::same_but_case(name, "transfer-encoding") {
            let _ = ctx.leaf(
                "http.transfer_encoding",
                start..end,
                Value::Str(text::from_chars(value)),
            );
        }
    }
}

/// The header lines of the message `b`, which sits at `base`, from `i` on,
/// and where the body starts if the blank line is there.
pub open spec fn header_lines(b: Seq<u8>, i: int, base: int, abbrev: Seq<char>, m: Model) -> (
    Model,
    Option<int>,
)
    decreases b.len() - i,
{
    match crlf(b, i) {
        None => (m, None),
        Some(end) => if end == i {
            (m, Some(i + 2))
        } else if i < end && end + 2 <= b.len() {
            let line = utf8_lossy(b.subrange(i, end));
            header_lines(
                b,
                end + 2,
                base,
                abbrev,
                header_field(
                    line,
                    base + i,
                    base + end,
                    m.leaf(abbrev, base + i, base + end, ValueView::Str(line)),
                ),
            )
        } else {
            (m, None)
        },
    }
}

fn write_header_lines(
    b: &[u8],
    from: usize,
    base: usize,
    abbrev: &'static str,
    ctx: &mut Ctx,
) -> (r:
    Option<usize>)
    requires
        base + b@.len() <= usize::MAX,
    ensures
        ({
            let (m, body) = header_lines(b@, from as int, base as int, abbrev@, old(ctx)@);
            &&& final(ctx)@ == m
            &&& match r {
                Some(i) => body == Some(i as int) && i <= b@.len(),
                None => body is None,
            }
        }),
        final(ctx)@.count() >= old(ctx)@.count(),
        final(ctx)@.base == old(ctx)@.base,
{
    let mut i: usize = from;
    loop
        invariant
            base + b@.len() <= usize::MAX,
            ctx@.count() >= old(ctx)@.count(),
            ctx@.base == old(ctx)@.base,
            header_lines(b@, from as int, base as int, abbrev@, old(ctx)@) == header_lines(
                b@,
                i as int,
                base as int,
                abbrev@,
                ctx@,
            ),
        decreases b@.len() - i,
    {
        match find_crlf(b, i) {
            None => {
                return None;
            },
            Some(end) => {
                if end == i {
                    return Some(i + 2);
                }
                let line: String = text::from_utf8_lossy(bytes::part(b, i, end));
                let chars: Vec<char> = text::chars_of(line.as_str());
                let _ = ctx.leaf(abbrev, base + i..base + end, Value::Str(line));
                write_header_field(chars.as_slice(), base + i, base + end, ctx);
                i = end + 2;
            },
        }
    }
}

/// The part of `s` from `i` on up to the next space, and where the part after
/// it starts; nothing is left behind the last part.
pub open spec fn word_from(s: Seq<char>, i: int) -> (Seq<char>, int) {
    match first_at(s, ' ', i) {
        Some(k) => (s.subrange(i, k), k + 1),
        None => (s.subrange(i, s.len() as int), s.len() as int + 1),
    }
}

/// The three parts of a first line: two words and the rest. A part that is
/// not there is empty.
pub open spec fn parts_of(s: Seq<char>) -> (Seq<char>, Seq<char>, Seq<char>) {
    let (a, i) = word_from(s, 0);
    if i > s.len() {
        (a, ""@, ""@)
    } else {
        let (b, j) = word_from(s, i);
        if j > s.len() {
            (a, b, ""@)
        } else {
            (a, b, s.subrange(j, s.len() as int))
        }
    }
}

fn word(s: &[char], i: usize) -> (r: (String, Option<usize>))
    requires
        i <= s@.len(),
    ensures
        ({
            let (w, next) = word_from(s@, i as int);
            &&& r.0@ == w
            &&& match r.1 {
                Some(k) => next == k && k <= s@.len(),
                None => next > s@.len(),
            }
        }),
{
    match text::find_char(s, ' ', i) {
        Some(k) => (
            text::from_chars(vstd::slice::slice_subrange(s, i, k)),
            Some(k + 1),
        ),
        None => (text::from_chars(vstd::slice::slice_subrange(s, i, s.len())), None),
    }
}

fn split_line(s: &[char]) -> (r: (String, String, String))
    ensures
        (r.0@, r.1@, r.2@) == parts_of(s@),
{
    let (a, next) = word(s, 0);
    match next {
        None => (a, text::owned(""), text::owned("")),
        Some(i) => {
            let (b, next) = word(s, i);
            match next {
                None => (a, b, text::owned("")),
                Some(j) => (
                    a,
                    b,
                    text::from_chars(vstd::slice::slice_subrange(s, j, s.len())),
                ),
            }
        },
    }
}

/// The first line of a message, which runs from `start` to `end`.
pub open spec fn first_line(first: Seq<char>, start: int, end: int, m: Model) -> Model {
    let (a, b, c) = parts_of(first);
    if text::stands_at(first, "HTTP/"@, 0) {
        m.begin_text("http.response"@, start, end, first).leaf(
            "http.response.version"@,
            start,
            end,
            ValueView::Str(a),
        ).leaf(
            "http.response.code"@,
            start,
            end,
            ValueView::Unsigned(
                match spelled(b, 10, u64::MAX as int) {
                    Some(v) => v as u64,
                    None => 0,
                },
            ),
        ).leaf("http.response.phrase"@, start, end, ValueView::Str(c)).end()
    } else {
        m.begin_text("http.request"@, start, end, first).leaf(
            "http.request.method"@,
            start,
            end,
            ValueView::Str(a),
        ).leaf("http.request.uri"@, start, end, ValueView::Str(b)).leaf(
            "http.request.version"@,
            start,
            end,
            ValueView::Str(c),
        ).end()
    }
}

/// One message, `b`, which sits at `base`. A message that leads names the
/// Info column.
pub open spec fn message(b: Seq<u8>, base: int, lead: bool, m: Model) -> Model {
    let end = base + b.len();
    let http = m.count();
    let m = m.begin("http"@, base, end);
    match crlf(b, 0) {
        None => {
            // No complete line: a continuation of a message that is not there.
            let m = m.set_text(http, "Hypertext Transfer Protocol (continuation)"@).leaf(
                "http.file_data"@,
                base,
                end,
                ValueView::Bytes,
            );
            (if lead {
                m.set_info("Continuation"@)
            } else {
                m
            }).end()
        },
        Some(first_end) => {
            let first = utf8_lossy(b.subrange(0, first_end));
            let (x, y, z) = parts_of(first);
            let response = text::stands_at(first, "HTTP/"@, 0);
            let m = first_line(first, base, base + first_end, m);
            let m = if lead {
                m.set_info(x + " "@ + y + " "@ + z)
            } else {
                m
            };
            let m = m.set_text(
                http,
                "Hypertext Transfer Protocol ("@ + (if response {
                    "response"@
                } else {
                    "request"@
                }) + ")"@,
            );
            let (m, body) = header_lines(
                b,
                first_end + 2,
                base,
                if response {
                    "http.response.line"@
                } else {
                    "http.request.line"@
                },
                m,
            );
            let m = match body {
                Some(i) => if i < b.len() {
                    m.leaf("http.file_data"@, base + i, end, ValueView::Bytes)
                } else {
                    m
                },
                None => m,
            };
            m.end()
        },
    }
}

fn write_first_line(chars: &[char], first: &str, start: usize, end: usize, ctx: &mut Ctx) -> (r: (
    bool,
    String,
))
    requires
        chars@ == first@,
    ensures
        final(ctx)@ == first_line(first@, start as int, end as int, old(ctx)@),
        r.0 == text::stands_at(first@, "HTTP/"@, 0),
        r.1@ == parts_of(first@).0 + " "@ + parts_of(first@).1 + " "@ + parts_of(first@).2,
        final(ctx)@.count() >= old(ctx)@.count(),
        final(ctx)@.base == old(ctx)@.base,
{
    let (a, b, c) = split_line(chars);
    let mut info: String = text::cat(a.as_str(), " ");
    info.push_str(b.as_str());
    info.push_str(" ");
    info.push_str(c.as_str());
    let tag: Vec<char> = text::chars_of("HTTP/");
    let response: bool = chars.len() >= tag.len() && text::same_chars(
        vstd::slice::slice_subrange(chars, 0, tag.len()),
        tag.as_slice(),
    );
    if response {
        let code: u64 = match text::parse(text::chars_of(b.as_str()).as_slice(), 10, u64::MAX) {
            Some(v) => v,
            None => 0,
        };
        let _ = ctx.begin_text("http.response", start..end, first);
        let _ = ctx.leaf("http.response.version", start..end, Value::Str(a));
        let _ = ctx.leaf("http.response.code", start..end, Value::Unsigned(code));
        let _ = ctx.leaf("http.response.phrase", start..end, Value::Str(c));
        ctx.end();
    } else {
        let _ = ctx.begin_text("http.request", start..end, first);
        let _ = ctx.leaf("http.request.method", start..end, Value::Str(a));
        let _ = ctx.leaf("http.request.uri", start..end, Value::Str(b));
        let _ = ctx.leaf("http.request.version", start..end, Value::Str(c));
        ctx.end();
    }
    (response, info)
}

/// Dissect one message. `base` is where it starts within its data source, and
/// `lead` says whether it is the one that names the Info column.
fn one_message(b: &[u8], base: usize, lead: bool, ctx: &mut Ctx)
    requires
        base + b@.len() <= usize::MAX,
    ensures
        final(ctx)@ == message(b@, base as int, lead, old(ctx)@),
        final(ctx)@.base == old(ctx)@.base,
{
    let end: usize = base + b.len();
    let http: usize = ctx.begin("http", base..end);
    match find_crlf(b, 0) {
        None => {
            // No complete line: a continuation of a message we do not have.
            ctx.set_text(http, "Hypertext Transfer Protocol (continuation)");
            let _ = ctx.leaf("http.file_data", base..end, Value::Bytes);
            if lead {
                ctx.set_info(text::owned("Continuation"));
            }
            ctx.end();
        },
        Some(first_end) => {
            let first: String = text::from_utf8_lossy(bytes::part(b, 0, first_end));
            let chars: Vec<char> = text::chars_of(first.as_str());
            let (response, info) = write_first_line(
                chars.as_slice(),
                first.as_str(),
                base,
                base + first_end,
                ctx,
            );
            if lead {
                ctx.set_info(info);
            }
            let mut label: String = text::cat(
                "Hypertext Transfer Protocol (",
                if response {
                    "response"
                } else {
                    "request"
                },
            );
            label.push_str(")");
            ctx.set_text(http, label.as_str());
            // Header lines until the empty line.
            let abbrev: &'static str = if response {
                "http.response.line"
            } else {
                "http.request.line"
            };
            if let Some(i) = write_header_lines(b, first_end + 2, base, abbrev, ctx) {
                if i < b.len() {
                    let _ = ctx.leaf("http.file_data", base + i..end, Value::Bytes);
                }
            }
            ctx.end();
        },
    }
}

// ---- the layer ------------------------------------------------------------------

/// The complete messages from position `i` on, where they end, and whether
/// none has led yet. Several can share one buffer: a pipelined client sends
/// them back to back, and a desegmented buffer can hold a whole exchange.
pub open spec fn messages(d: Seq<u8>, i: int, base: int, lead: bool, m: Model) -> (
    Model,
    int,
    bool,
)
    decreases d.len() - i,
{
    if i < 0 || i >= d.len() {
        (m, i, lead)
    } else {
        match end_of(d.subrange(i, d.len() as int)) {
            None => (m, i, lead),
            Some(len) => if 0 < len <= d.len() - i {
                messages(
                    d,
                    i + len,
                    base,
                    false,
                    message(d.subrange(i, i + len), base + i, lead, m.set_protocol("http"@)),
                )
            } else {
                (m, i, lead)
            },
        }
    }
}

/// The HTTP layer. What is left behind the complete messages is either the
/// start of one still arriving, which is worth waiting for, or body bytes
/// continuing something whose start was never captured, which is not. A frame
/// that only carries part of a message stays a TCP frame.
pub open spec fn layer(d: Seq<u8>, m: Model) -> Outcome {
    let a = m.base;
    let n = d.len() as int;
    let (m, i, lead) = messages(d, 0, a, true, m);
    if i >= n {
        (m, None)
    } else {
        let rest = d.subrange(i, n);
        let (held, kept) = if may_start(rest) {
            m.hold(rest)
        } else {
            (m, false)
        };
        if kept {
            let m = held.begin_text("http.segment"@, a + i, a + n, SEGMENT@).leaf(
                "http.segment.len"@,
                0,
                0,
                ValueView::Unsigned(rest.len() as u64),
            ).end();
            (
                if lead {
                    m.set_info(SEGMENT@)
                } else {
                    m
                },
                None,
            )
        } else {
            (message(rest, a + i, lead, held.set_protocol("http"@)), None)
        }
    }
}

pub fn dissect(data: &[u8], ctx: &mut Ctx) -> (r: Result<(), DissectError>)
    requires
        addressable(data@, old(ctx)@),
    ensures
        (final(ctx)@, error_of(r)) == layer(data@, old(ctx)@),
{
    let a: usize = ctx.base();
    let n: usize = data.len();
    let mut i: usize = 0;
    let mut lead: bool = true;
    let mut more: bool = true;
    while i < n && more
        invariant
            n == data@.len(),
            i <= n,
            a + n <= usize::MAX,
            ctx@.base == a,
            more ==> messages(data@, 0, a as int, true, old(ctx)@) == messages(
                data@,
                i as int,
                a as int,
                lead,
                ctx@,
            ),
            !more ==> messages(data@, 0, a as int, true, old(ctx)@) == (ctx@, i as int, lead),
        decreases n - i, (if more {
            1int
        } else {
            0int
        }),
    {
        match message_end(bytes::part(data, i, n)) {
            Some(len) => {
                ctx.set_protocol("http");
                one_message(bytes::part(data, i, i + len), a + i, lead, ctx);
                i = i + len;
                lead = false;
            },
            None => {
                more = false;
            },
        }
    }
    if i == n {
        return Ok(());
    }
    let rest: &[u8] = bytes::part(data, i, n);
    if starts_message(rest) && ctx.hold(rest) {
        // The frame carries part of a message that completes later. It stays
        // a TCP frame in the protocol column: naming it HTTP would claim a
        // message this frame does not contain.
        let _ = ctx.begin_text("http.segment", a + i..a + n, SEGMENT);
        let _ = ctx.leaf("http.segment.len", 0..0, Value::Unsigned(rest.len() as u64));
        ctx.end();
        if lead {
            ctx.set_info(text::owned(SEGMENT));
        }
    } else {
        ctx.set_protocol("http");
        one_message(rest, a + i, lead, ctx);
    }
    Ok(())
}

} // verus!

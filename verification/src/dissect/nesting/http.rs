//! HTTP.

use vstd::prelude::*;

use super::ops::{keeping_nested, moving};
use super::{begins, closed_in, fits_all, nests, wrote, wrote_on};
use crate::dissect::ctx::Model;
use crate::dissect::node::ValueView;
use crate::dissect::proto::http::{
    crlf, end_of, first_line, header_field, header_lines, layer, may_start, message, messages,
    parts_of,
};
use crate::dissect::proto::SEGMENT;
use crate::dissect::ranges::http::line_ends;
use crate::text;
use crate::text::utf8_lossy;

verus! {

proof fn header_field_nests(line: Seq<char>, start: int, end: int, m: Model)
    requires
        fits_all(m, start, end),
    ensures
        closed_in(m, header_field(line, start, end, m), start, end),
{
    broadcast use {keeping_nested, moving};

}

proof fn header_lines_nest(b: Seq<u8>, i: int, base: int, abbrev: Seq<char>, m: Model)
    requires
        fits_all(m, base, base + b.len()),
    ensures
        closed_in(m, header_lines(b, i, base, abbrev, m).0, base, base + b.len()),
        header_lines(b, i, base, abbrev, m).1 matches Some(j) ==> 0 <= j <= b.len(),
    decreases b.len() - i,
{
    let stop = base + b.len();
    assert(wrote(m, m, base, stop));
    line_ends(b, i);
    if let Some(end) = crlf(b, i) {
        if i < end && end + 2 <= b.len() {
            let line = utf8_lossy(b.subrange(i, end));
            let x = m.leaf(abbrev, base + i, base + end, ValueView::Str(line));
            assert(closed_in(m, x, base, stop) && fits_all(x, base, stop)) by {
                broadcast use {keeping_nested, moving};

            }
            assert(fits_all(x, base + i, base + end));
            header_field_nests(line, base + i, base + end, x);
            let y = header_field(line, base + i, base + end, x);
            wrote_on(m, x, y, base, stop, base + i, base + end);
            assert(fits_all(y, base, stop));
            header_lines_nest(b, end + 2, base, abbrev, y);
            let z = header_lines(b, end + 2, base, abbrev, y).0;
            wrote_on(m, y, z, base, stop, base, stop);
        }
    }
}

proof fn first_line_nests(first: Seq<char>, start: int, end: int, m: Model)
    requires
        fits_all(m, start, end),
        m.trace.depth < 230,
    ensures
        closed_in(m, first_line(first, start, end, m), start, end),
{
    broadcast use {keeping_nested, moving};

}

proof fn message_nests(b: Seq<u8>, base: int, lead: bool, m: Model)
    requires
        fits_all(m, base, base + b.len()),
        m.trace.depth < 220,
    ensures
        closed_in(m, message(b, base, lead, m), base, base + b.len()),
{
    let end = base + b.len();
    let id = m.count();
    let x = m.begin("http"@, base, end);
    assert(wrote(m, x, base, end) && x.trace.depth == m.trace.depth + 1 && fits_all(x, base, end)
        && id < x.count()) by {
        broadcast use {keeping_nested, moving};

    }
    line_ends(b, 0);
    if let Some(first_end) = crlf(b, 0) {
        let first = utf8_lossy(b.subrange(0, first_end));
        let (u, v, w) = parts_of(first);
        let response = text::stands_at(first, "HTTP/"@, 0);
        assert(fits_all(x, base, base + first_end));
        first_line_nests(first, base, base + first_end, x);
        let l = first_line(first, base, base + first_end, x);
        wrote_on(m, x, l, base, end, base, base + first_end);
        let info = u + " "@ + v + " "@ + w;
        let t = if lead {
            l.set_info(info)
        } else {
            l
        };
        let label = "Hypertext Transfer Protocol ("@ + (if response {
            "response"@
        } else {
            "request"@
        }) + ")"@;
        let n = t.set_text(id, label);
        assert(closed_in(l, n, base, end)) by {
            broadcast use {keeping_nested, moving};

        }
        wrote_on(m, l, n, base, end, base, end);
        assert(fits_all(l, base, end));
        assert(fits_all(n, base, end));
        let abbrev = if response {
            "http.response.line"@
        } else {
            "http.request.line"@
        };
        header_lines_nest(b, first_end + 2, base, abbrev, n);
        let (k, body) = header_lines(b, first_end + 2, base, abbrev, n);
        wrote_on(m, n, k, base, end, base, end);
        assert(fits_all(k, base, end));
        let z = match body {
            Some(i) => if i < b.len() {
                k.leaf("http.file_data"@, base + i, end, ValueView::Bytes)
            } else {
                k
            },
            None => k,
        };
        assert(closed_in(m, z.end(), base, end)) by {
            broadcast use {keeping_nested, moving};

        }
        assert(message(b, base, lead, m) == z.end());
    } else {
        broadcast use {keeping_nested, moving};

    }
}

proof fn messages_nest(d: Seq<u8>, i: int, base: int, lead: bool, m: Model)
    requires
        fits_all(m, base, base + d.len()),
        m.trace.depth < 220,
        0 <= i <= d.len(),
    ensures
        closed_in(m, messages(d, i, base, lead, m).0, base, base + d.len()),
        i <= messages(d, i, base, lead, m).1 <= d.len(),
    decreases d.len() - i,
{
    let end = base + d.len();
    assert(wrote(m, m, base, end));
    if i < d.len() {
        if let Some(len) = end_of(d.subrange(i, d.len() as int)) {
            if 0 < len <= d.len() - i {
                let x = m.set_protocol("http"@);
                assert(closed_in(m, x, base, end)) by {
                    broadcast use {keeping_nested, moving};

                }
                let part = d.subrange(i, i + len);
                assert(fits_all(x, base + i, base + i + part.len()));
                message_nests(part, base + i, lead, x);
                let y = message(part, base + i, lead, x);
                wrote_on(m, x, y, base, end, base + i, base + i + len);
                assert(fits_all(y, base, end));
                messages_nest(d, i + len, base, false, y);
                let z = messages(d, i + len, base, false, y).0;
                wrote_on(m, y, z, base, end, base, end);
            }
        }
    }
}

pub proof fn http_nests(d: Seq<u8>, m: Model)
    requires
        begins(d, m),
    ensures
        nests(d, m, layer(d, m)),
{
    let a = m.base;
    let n = d.len() as int;
    messages_nest(d, 0, a, true, m);
    let (x, i, lead) = messages(d, 0, a, true, m);
    if i < n {
        let rest = d.subrange(i, n);
        let (h, kept) = if may_start(rest) {
            x.hold(rest)
        } else {
            (x, false)
        };
        assert(closed_in(x, h, a, a + n)) by {
            broadcast use {keeping_nested, moving};

        }
        wrote_on(m, x, h, a, a + n, a, a + n);
        assert(fits_all(h, a, a + n));
        if kept {
            let s = h.begin_text("http.segment"@, a + i, a + n, SEGMENT@).leaf(
                "http.segment.len"@,
                0,
                0,
                ValueView::Unsigned(rest.len() as u64),
            ).end();
            assert(wrote(m, s, a, a + n) && wrote(m, s.set_info(SEGMENT@), a, a + n)) by {
                broadcast use {keeping_nested, moving};

            }
        } else {
            let y = h.set_protocol("http"@);
            assert(closed_in(h, y, a, a + n)) by {
                broadcast use {keeping_nested, moving};

            }
            wrote_on(m, h, y, a, a + n, a, a + n);
            assert(fits_all(y, a + i, a + i + rest.len()));
            message_nests(rest, a + i, lead, y);
            let z = message(rest, a + i, lead, y);
            wrote_on(m, y, z, a, a + n, a + i, a + n);
        }
    }
}

} // verus!

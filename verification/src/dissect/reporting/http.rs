//! HTTP.

use vstd::prelude::*;

use super::ops::{hold_alike, hold_moves, keeping_alike};
use super::{added, agree, alike, alike_facts, chained, level, start_alike, Bases};
use crate::dissect::ctx::Model;
use crate::dissect::node::ValueView;
use crate::dissect::proto::http::{
    crlf, end_of, first_line, header_field, header_lines, layer, may_start, message, messages,
    parts_of,
};
use crate::dissect::proto::SEGMENT;
use crate::text;
use crate::text::utf8_lossy;

verus! {

proof fn header_field_agrees(
    bases: Bases,
    line: Seq<char>,
    start: int,
    end: int,
    m1: Model,
    m2: Model,
)
    requires
        alike(bases, m1, m2),
    ensures
        added(
            bases,
            m1,
            m2,
            header_field(line, start, end, m1),
            header_field(line, start, end, m2),
        ),
{
    broadcast use keeping_alike;

}

proof fn header_lines_agree(
    bases: Bases,
    b: Seq<u8>,
    i: int,
    base: int,
    abbrev: Seq<char>,
    m1: Model,
    m2: Model,
)
    requires
        alike(bases, m1, m2),
    ensures
        added(
            bases,
            m1,
            m2,
            header_lines(b, i, base, abbrev, m1).0,
            header_lines(b, i, base, abbrev, m2).0,
        ),
        header_lines(b, i, base, abbrev, m1).1 == header_lines(b, i, base, abbrev, m2).1,
    decreases b.len() - i,
{
    if let Some(end) = crlf(b, i) {
        if i < end && end + 2 <= b.len() {
            let line = utf8_lossy(b.subrange(i, end));
            let x1 = m1.leaf(abbrev, base + i, base + end, ValueView::Str(line));
            let x2 = m2.leaf(abbrev, base + i, base + end, ValueView::Str(line));
            assert(added(bases, m1, m2, x1, x2)) by {
                broadcast use keeping_alike;

            }
            header_field_agrees(bases, line, base + i, base + end, x1, x2);
            let y1 = header_field(line, base + i, base + end, x1);
            let y2 = header_field(line, base + i, base + end, x2);
            chained(bases, m1, m2, x1, x2, y1, y2);
            header_lines_agree(bases, b, end + 2, base, abbrev, y1, y2);
        }
    }
}

proof fn first_line_agrees(
    bases: Bases,
    first: Seq<char>,
    start: int,
    end: int,
    m1: Model,
    m2: Model,
)
    requires
        alike(bases, m1, m2),
        0 <= m1.trace.depth < 230,
    ensures
        added(bases, m1, m2, first_line(first, start, end, m1), first_line(first, start, end, m2)),
{
    broadcast use keeping_alike;

}

proof fn message_agrees(bases: Bases, b: Seq<u8>, base: int, lead: bool, m1: Model, m2: Model)
    requires
        alike(bases, m1, m2),
        0 <= m1.trace.depth < 220,
    ensures
        alike(bases, message(b, base, lead, m1), message(b, base, lead, m2)),
        message(b, base, lead, m1).trace.depth == m1.trace.depth,
{
    let end = base + b.len();
    let (h1, h2) = (m1.count(), m2.count());
    let (x1, x2) = (m1.begin("http"@, base, end), m2.begin("http"@, base, end));
    assert(alike(bases, x1, x2) && level(bases, x1, h1, x2, h2) && h1 < x1.count() && h2
        < x2.count() && x1.trace.depth == m1.trace.depth + 1) by {
        broadcast use keeping_alike;

    }
    if let Some(first_end) = crlf(b, 0) {
        let first = utf8_lossy(b.subrange(0, first_end));
        let (x, y, z) = parts_of(first);
        let response = text::stands_at(first, "HTTP/"@, 0);
        first_line_agrees(bases, first, base, base + first_end, x1, x2);
        let l1 = first_line(first, base, base + first_end, x1);
        let l2 = first_line(first, base, base + first_end, x2);
        let info = x + " "@ + y + " "@ + z;
        let (t1, t2) = if lead {
            (l1.set_info(info), l2.set_info(info))
        } else {
            (l1, l2)
        };
        assert(added(bases, l1, l2, t1, t2)) by {
            broadcast use keeping_alike;

        }
        chained(bases, x1, x2, l1, l2, t1, t2);
        let label = "Hypertext Transfer Protocol ("@ + (if response {
            "response"@
        } else {
            "request"@
        }) + ")"@;
        assert(level(bases, t1, h1, t2, h2));
        let (n1, n2) = (t1.set_text(h1, label), t2.set_text(h2, label));
        assert(alike(bases, n1, n2) && n1.trace.depth == x1.trace.depth) by {
            broadcast use keeping_alike;

        }
        let abbrev = if response {
            "http.response.line"@
        } else {
            "http.request.line"@
        };
        header_lines_agree(bases, b, first_end + 2, base, abbrev, n1, n2);
        let (k1, body) = header_lines(b, first_end + 2, base, abbrev, n1);
        let k2 = header_lines(b, first_end + 2, base, abbrev, n2).0;
        let (w1, w2) = match body {
            Some(i) => if i < b.len() {
                (
                    k1.leaf("http.file_data"@, base + i, end, ValueView::Bytes),
                    k2.leaf("http.file_data"@, base + i, end, ValueView::Bytes),
                )
            } else {
                (k1, k2)
            },
            None => (k1, k2),
        };
        assert(alike(bases, w1.end(), w2.end()) && w1.end().trace.depth == m1.trace.depth) by {
            broadcast use keeping_alike;

        }
        assert(message(b, base, lead, m1) == w1.end() && message(b, base, lead, m2) == w2.end());
    } else {
        broadcast use keeping_alike;

    }
}

proof fn messages_agree(
    bases: Bases,
    d: Seq<u8>,
    i: int,
    base: int,
    lead: bool,
    m1: Model,
    m2: Model,
)
    requires
        alike(bases, m1, m2),
        0 <= m1.trace.depth < 220,
    ensures
        alike(bases, messages(d, i, base, lead, m1).0, messages(d, i, base, lead, m2).0),
        messages(d, i, base, lead, m1).0.trace.depth == m1.trace.depth,
        messages(d, i, base, lead, m1).1 == messages(d, i, base, lead, m2).1,
        messages(d, i, base, lead, m1).2 == messages(d, i, base, lead, m2).2,
    decreases d.len() - i,
{
    if 0 <= i < d.len() {
        if let Some(len) = end_of(d.subrange(i, d.len() as int)) {
            if 0 < len <= d.len() - i {
                let (x1, x2) = (m1.set_protocol("http"@), m2.set_protocol("http"@));
                assert(alike(bases, x1, x2) && x1.trace.depth == m1.trace.depth) by {
                    broadcast use keeping_alike;

                }
                let part = d.subrange(i, i + len);
                message_agrees(bases, part, base + i, lead, x1, x2);
                messages_agree(
                    bases,
                    d,
                    i + len,
                    base,
                    false,
                    message(part, base + i, lead, x1),
                    message(part, base + i, lead, x2),
                );
            }
        }
    }
}

pub proof fn http_agrees(bases: Bases, d: Seq<u8>, m1: Model, m2: Model)
    requires
        start_alike(bases, m1, m2),
    ensures
        agree(bases, m1.trace.depth, layer(d, m1), layer(d, m2)),
{
    alike_facts(bases, m1, m2);
    let a = m1.base;
    let n = d.len() as int;
    messages_agree(bases, d, 0, a, true, m1, m2);
    let (x1, i, lead) = messages(d, 0, a, true, m1);
    let x2 = messages(d, 0, a, true, m2).0;
    if i < n {
        let rest = d.subrange(i, n);
        assert(alike(bases, x1.hold(rest).0, x2.hold(rest).0) && x1.hold(rest).1 == x2.hold(rest).1
            && x1.hold(rest).0.trace.depth == m1.trace.depth) by {
            hold_alike(bases, x1, x2, rest, rest);
            hold_moves(x1, rest);
        }
        let (h1, kept) = if may_start(rest) {
            x1.hold(rest)
        } else {
            (x1, false)
        };
        let h2 = if may_start(rest) {
            x2.hold(rest).0
        } else {
            x2
        };
        if kept {
            let value = ValueView::Unsigned(rest.len() as u64);
            let s1 = h1.begin_text("http.segment"@, a + i, a + n, SEGMENT@).leaf(
                "http.segment.len"@,
                0,
                0,
                value,
            ).end();
            let s2 = h2.begin_text("http.segment"@, a + i, a + n, SEGMENT@).leaf(
                "http.segment.len"@,
                0,
                0,
                value,
            ).end();
            assert(alike(bases, s1, s2) && s1.trace.depth == m1.trace.depth && alike(
                bases,
                s1.set_info(SEGMENT@),
                s2.set_info(SEGMENT@),
            ) && s1.set_info(SEGMENT@).trace.depth == m1.trace.depth) by {
                broadcast use keeping_alike;

            }
        } else {
            let (y1, y2) = (h1.set_protocol("http"@), h2.set_protocol("http"@));
            assert(alike(bases, y1, y2) && y1.trace.depth == m1.trace.depth) by {
                broadcast use keeping_alike;

            }
            message_agrees(bases, rest, a + i, lead, y1, y2);
        }
    }
}

} // verus!

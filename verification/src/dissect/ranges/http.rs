//! HTTP.

use vstd::prelude::*;

use super::names::{http_names, tame};
use super::{keeping_inside, nothing_written, ready, space, within};
use crate::dissect::ctx::Model;
use crate::dissect::node::ValueView;
use crate::dissect::proto::http::{
    crlf, end_of, field_from, first_line, header_field, header_lines, layer, may_start, message,
    messages, parts_of, NAMED,
};
use crate::text;
use crate::text::{first_at, trimmed, utf8_lossy};

verus! {

pub proof fn line_ends(d: Seq<u8>, i: int)
    ensures
        crlf(d, i) matches Some(e) ==> 0 <= i <= e && e + 2 <= d.len(),
    decreases d.len() - i,
{
    if 0 <= i && i + 2 <= d.len() {
        line_ends(d, i + 1);
    }
}

proof fn own_field_is_tame(name: Seq<char>, i: int)
    ensures
        field_from(name, i) matches Some(abbrev) ==> tame(abbrev),
    decreases NAMED@.len() - i,
{
    http_names();
    if 0 <= i < NAMED@.len() {
        assert(tame(NAMED@[i].1@));
        own_field_is_tame(name, i + 1);
    }
}

proof fn header_lines_stay(
    m0: Model,
    b: Seq<u8>,
    i: int,
    base: int,
    abbrev: Seq<char>,
    m: Model,
    n: int,
)
    requires
        within(m0, m, n),
        0 <= base,
        base + b.len() <= space(m0, n),
        tame(abbrev),
    ensures
        within(m0, header_lines(b, i, base, abbrev, m).0, n),
        header_lines(b, i, base, abbrev, m).0.count() >= m.count(),
        header_lines(b, i, base, abbrev, m).1 matches Some(j) ==> 0 <= j <= b.len(),
    decreases b.len() - i,
{
    http_names();
    line_ends(b, i);
    if let Some(end) = crlf(b, i) {
        if i < end && end + 2 <= b.len() {
            let line = utf8_lossy(b.subrange(i, end));
            let row = m.leaf(abbrev, base + i, base + end, ValueView::Str(line));
            let next = header_field(line, base + i, base + end, row);
            assert(within(m0, next, n) && next.count() >= m.count()) by {
                broadcast use keeping_inside;

                if let Some(colon) = first_at(line, ':', 0) {
                    own_field_is_tame(trimmed(line.subrange(0, colon)), 0);
                }
            }
            header_lines_stay(m0, b, end + 2, base, abbrev, next, n);
        }
    }
}

proof fn first_line_stays(m0: Model, first: Seq<char>, start: int, end: int, m: Model, n: int)
    requires
        within(m0, m, n),
        0 <= start <= space(m0, n),
        end <= space(m0, n),
    ensures
        within(m0, first_line(first, start, end, m), n),
        first_line(first, start, end, m).count() >= m.count(),
{
    broadcast use keeping_inside;

    http_names();
}

proof fn message_stays(m0: Model, b: Seq<u8>, base: int, lead: bool, m: Model, n: int)
    requires
        within(m0, m, n),
        0 <= base,
        base + b.len() <= space(m0, n),
    ensures
        within(m0, message(b, base, lead, m), n),
{
    broadcast use keeping_inside;

    http_names();
    let open = m.begin("http"@, base, base + b.len());
    let http = m.count();
    line_ends(b, 0);
    if let Some(first_end) = crlf(b, 0) {
        let first = utf8_lossy(b.subrange(0, first_end));
        let (x, y, z) = parts_of(first);
        let response = text::stands_at(first, "HTTP/"@, 0);
        first_line_stays(m0, first, base, base + first_end, open, n);
        let line = first_line(first, base, base + first_end, open);
        let told = if lead {
            line.set_info(x + " "@ + y + " "@ + z)
        } else {
            line
        };
        assert(within(m0, told, n) && told.count() > http);
        let named = told.set_text(
            http,
            "Hypertext Transfer Protocol ("@ + (if response {
                "response"@
            } else {
                "request"@
            }) + ")"@,
        );
        assert(within(m0, named, n));
        header_lines_stay(
            m0,
            b,
            first_end + 2,
            base,
            if response {
                "http.response.line"@
            } else {
                "http.request.line"@
            },
            named,
            n,
        );
    }
}

proof fn messages_stay(m0: Model, d: Seq<u8>, i: int, base: int, lead: bool, m: Model, n: int)
    requires
        within(m0, m, n),
        0 <= i <= d.len(),
        0 <= base,
        base + d.len() <= space(m0, n),
    ensures
        within(m0, messages(d, i, base, lead, m).0, n),
        i <= messages(d, i, base, lead, m).1 <= d.len(),
    decreases d.len() - i,
{
    http_names();
    if i < d.len() {
        if let Some(len) = end_of(d.subrange(i, d.len() as int)) {
            if 0 < len <= d.len() - i {
                let named = m.set_protocol("http"@);
                assert(within(m0, named, n)) by {
                    broadcast use keeping_inside;

                }
                message_stays(m0, d.subrange(i, i + len), base + i, lead, named, n);
                messages_stay(
                    m0,
                    d,
                    i + len,
                    base,
                    false,
                    message(d.subrange(i, i + len), base + i, lead, named),
                    n,
                );
            }
        }
    }
}

pub proof fn http_stays_inside(d: Seq<u8>, m: Model, n: int)
    requires
        ready(d, m, n),
    ensures
        within(m, layer(d, m).0, n),
{
    broadcast use keeping_inside;

    http_names();
    nothing_written(m, n);
    let a = m.base;
    messages_stay(m, d, 0, a, true, m, n);
    let (after, i, lead) = messages(d, 0, a, true, m);
    if i < d.len() {
        let rest = d.subrange(i, d.len() as int);
        let (held, kept) = if may_start(rest) {
            after.hold(rest)
        } else {
            (after, false)
        };
        assert(within(m, after.hold(rest).0, n));
        assert(within(m, held, n));
        message_stays(m, rest, a + i, lead, held.set_protocol("http"@), n);
    }
}

} // verus!

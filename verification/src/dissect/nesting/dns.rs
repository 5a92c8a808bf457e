//! DNS.

use vstd::prelude::*;

use super::ops::{keeping_nested, moving};
use super::{
    all_nested, begins, closed_in, covers, fine, fits_all, kids, last_at_most, last_bounds, nests,
    no_parent, opened, roomy, row_nested, rows_deeper, shut, wrote, wrote_on,
};
use crate::bytes::be16;
use crate::dissect::ctx::Model;
use crate::dissect::cursor::SourceId;
use crate::dissect::node::{Row, Trace, ValueView};
use crate::dissect::proto::dns::{
    capped, header_fields, info_head, items, layer, name_at, question, record, record_data,
    section, strings, Section,
};
use crate::dissect::ranges::dns::names_end_inside;
use crate::text::utf8_lossy;

verus! {

/// Every row is `depth` deep, about source `s`, and lies in `lo..hi`.
spec fn listed(rows: Seq<Row>, k: int, depth: int, s: SourceId, lo: int, hi: int) -> bool {
    forall|i: int|
        #![trigger rows[i]]
        k <= i < rows.len() ==> rows[i].depth == depth && rows[i].source == s && lo
            <= rows[i].start && rows[i].end <= hi
}

/// A row with its fields under it, all about source `s`.
spec fn is_item(t: Trace, depth: int, s: SourceId, lo: int, hi: int) -> bool {
    &&& t.rows.len() > 0
    &&& t.rows[0].depth == depth
    &&& t.rows[0].source == s
    &&& lo <= t.rows[0].start
    &&& t.rows[0].end <= hi
    &&& listed(t.rows, 1, depth + 1, s, t.rows[0].start, t.rows[0].end)
}

proof fn question_listed(d: Seq<u8>, pos: int, base: int, s: SourceId, depth: int)
    requires
        0 <= pos,
        0 <= depth < 250,
    ensures
        question(d, pos, base, s, Trace { rows: Seq::empty(), depth }) matches Ok(x) ==> is_item(
            x.0,
            depth,
            s,
            base + pos,
            base + x.1,
        ) && pos <= x.1 <= d.len(),
{
    names_end_inside(d, pos);
}

proof fn strings_listed(
    d: Seq<u8>,
    i: int,
    end: int,
    base: int,
    s: SourceId,
    t: Trace,
    parts: Seq<Seq<char>>,
    lo: int,
)
    requires
        listed(t.rows, 1, t.depth, s, lo, base + end),
        lo <= base + i,
        t.rows.len() > 0,
    ensures
        strings(d, i, end, base, s, t, parts) matches Ok(x) ==> listed(
            x.0.rows,
            1,
            t.depth,
            s,
            lo,
            base + end,
        ) && x.0.rows[0] == t.rows[0] && x.0.rows.len() > 0,
    decreases end - i,
{
    if i < end {
        let len = d[i] as int;
        if end - i - 1 >= len {
            let shown = utf8_lossy(d.subrange(i + 1, i + 1 + len));
            let next = t.leaf(
                "dns.txt"@,
                s,
                base + i + 1,
                base + i + 1 + len,
                ValueView::Str(shown),
            );
            strings_listed(d, i + 1 + len, end, base, s, next, parts.push(shown), lo);
        }
    }
}

proof fn record_data_listed(
    ty: u16,
    d: Seq<u8>,
    rd: int,
    len: u16,
    base: int,
    s: SourceId,
    t: Trace,
    lo: int,
)
    requires
        listed(t.rows, 1, t.depth, s, lo, base + rd + len),
        lo <= base + rd,
        t.rows.len() > 0,
    ensures
        record_data(ty, d, rd, len, base, s, t) matches Ok(x) ==> listed(
            x.0.rows,
            1,
            t.depth,
            s,
            lo,
            base + rd + len,
        ) && x.0.rows[0] == t.rows[0] && x.0.rows.len() > 0,
{
    strings_listed(d, rd, rd + len, base, s, t, Seq::empty(), lo);
    if ty == 6 {
        names_end_inside(d, rd);
        if let Ok((mname, p1)) = name_at(d, rd) {
            names_end_inside(d, p1);
        }
    }
}

proof fn record_listed(d: Seq<u8>, pos: int, base: int, s: SourceId, depth: int)
    requires
        0 <= pos,
        0 <= depth < 250,
    ensures
        record(d, pos, base, s, Trace { rows: Seq::empty(), depth }) matches Ok(x) ==> is_item(
            x.0,
            depth,
            s,
            base + pos,
            base + x.1,
        ) && pos <= x.1 <= d.len(),
{
    names_end_inside(d, pos);
    assert forall|ty: u16, rd: int, len: u16, u: Trace|
        listed(u.rows, 1, u.depth, s, base + pos, base + rd + len) && pos <= rd && u.rows.len()
            > 0 implies (#[trigger] record_data(ty, d, rd, len, base, s, u) matches Ok(x)
        ==> listed(x.0.rows, 1, u.depth, s, base + pos, base + rd + len) && x.0.rows[0]
        == u.rows[0] && x.0.rows.len() > 0) by {
        record_data_listed(ty, d, rd, len, base, s, u, base + pos);
    }
}

/// Rows put behind others, each in the row it stands under.
proof fn appended_fine(rows: Seq<Row>, t: Seq<Row>, depth: int, s: SourceId, k: int)
    requires
        all_nested(rows),
        forall|i: int| #![trigger rows[i]] 0 <= i < rows.len() ==> 0 <= rows[i].depth,
        0 <= depth,
        t.len() > 0,
        t[0].depth == depth,
        t[0].source == s,
        last_container(rows, depth, t[0]),
        listed(t, 1, depth + 1, s, t[0].start, t[0].end),
        0 < k <= t.len(),
    ensures
        all_nested(rows + t.take(k)),
    decreases k,
{
    let a = rows + t.take(k);
    if k == 1 {
        assert(a =~= rows.push(t[0]));
        no_parent(rows);
        row_nested(rows, t[0]);
    } else {
        appended_fine(rows, t, depth, s, k - 1);
        let b = rows + t.take(k - 1);
        assert(a =~= b.push(t[k - 1]));
        assert forall|i: int| #![trigger b[i]] rows.len() <= i < b.len() implies b[i].depth
            >= depth by {
            assert(b[i] == t[i - rows.len()]);
        }
        assert forall|i: int| #![trigger b[i]] rows.len() < i < b.len() implies b[i].depth
            > depth by {
            assert(b[i] == t[i - rows.len()]);
        }
        assert(b[rows.len() as int] == t[0]);
        rows_deeper(rows, b, depth, depth);
        row_nested(b, t[k - 1]);
    }
}

/// The container that row `r` would stand in has room for it.
spec fn last_container(rows: Seq<Row>, depth: int, r: Row) -> bool {
    last_at_most(rows, depth - 1) >= 0 ==> covers(
        rows[last_at_most(rows, depth - 1)],
        r.source,
        r.start,
        r.end,
    )
}

proof fn appended_nests(m: Model, t: Trace, lo: int, hi: int)
    requires
        fits_all(m, lo, hi),
        is_item(t, m.trace.depth, m.source, lo, hi),
    ensures
        closed_in(m, m.append(t), lo, hi),
{
    reveal(Model::append);
    let x = m.append(t);
    let (a, b) = (m.trace.rows, x.trace.rows);
    assert(roomy(m, m.trace.depth - 1, m.source, t.rows[0].start, t.rows[0].end));
    assert(fine(x)) by {
        reveal(fine);
        reveal(roomy);
        no_parent(a);
        appended_fine(a, t.rows, m.trace.depth, m.source, t.rows.len() as int);
        assert(a + t.rows.take(t.rows.len() as int) =~= b);
        assert forall|i: int| #![trigger b[i]] 0 <= i < b.len() implies 0 <= b[i].depth by {
            if i >= a.len() {
                assert(b[i] == t.rows[i - a.len()]);
            }
        }
    }
    assert forall|i: int| #![trigger b[i]] a.len() <= i < b.len() implies b[i].depth
        >= m.trace.depth && lo <= b[i].start && b[i].end <= hi by {
        assert(b[i] == t.rows[i - a.len()]);
    }
    assert forall|id: int, p: int, q: int|
        kids(m, id, m.source, p, q) && p <= lo && hi <= q implies #[trigger] kids(
        x,
        id,
        m.source,
        p,
        q,
    ) by {
        reveal(kids);
    }
    assert forall|d: int, p: int, q: int|
        roomy(m, d, m.source, p, q) && d < m.trace.depth implies #[trigger] roomy(
        x,
        d,
        m.source,
        p,
        q,
    ) by {
        reveal(roomy);
        rows_deeper(a, b, m.trace.depth, d);
        last_bounds(a, d);
    }
    assert forall|d: int, id: int, p: int|
        opened(m, d, id, m.source, p) implies #[trigger] opened(x, d, id, m.source, p) by {
        reveal(opened);
        rows_deeper(a, b, m.trace.depth, d);
    }
}

proof fn items_nest(
    k: nat,
    d: Seq<u8>,
    pos: int,
    base: int,
    questions: bool,
    told: bool,
    m: Model,
    info: Seq<char>,
)
    requires
        fits_all(m, base, base + d.len()),
        0 <= pos <= d.len(),
    ensures
        ({
            let x = items(k, d, pos, base, questions, told, m, info);
            &&& closed_in(
                m,
                x.m,
                base + pos,
                base + (if x.ok {
                    x.pos
                } else {
                    d.len() as int
                }),
            )
            &&& pos <= x.pos <= d.len()
        }),
    decreases k,
{
    if k > 0 {
        let t = Trace { rows: Seq::empty(), depth: m.trace.depth };
        question_listed(d, pos, base, m.source, m.trace.depth);
        record_listed(d, pos, base, m.source, m.trace.depth);
        let item = if questions {
            question(d, pos, base, m.source, t)
        } else {
            record(d, pos, base, m.source, t)
        };
        if let Ok((rows, next, text)) = item {
            assert(fits_all(m, base + pos, base + next));
            appended_nests(m, rows, base + pos, base + next);
            let x = m.append(rows);
            let more = if told {
                info + " "@ + text
            } else {
                info
            };
            assert(fits_all(x, base, base + d.len()));
            items_nest((k - 1) as nat, d, next, base, questions, told, x, more);
            let y = items((k - 1) as nat, d, next, base, questions, told, x, more);
            let end = base + (if y.ok {
                y.pos
            } else {
                d.len() as int
            });
            wrote_on(m, x, y.m, base + pos, end, base + next, end);
        } else {
            broadcast use {keeping_nested, moving};

        }
    }
}

proof fn section_nests(
    m: Model,
    x: Section,
    count: u16,
    abbrev: Seq<char>,
    questions: bool,
    told: bool,
    d: Seq<u8>,
    base: int,
)
    requires
        closed_in(m, x.m, base, base + d.len()),
        fits_all(m, base, base + d.len()),
        m.trace.depth < 230,
        0 <= x.pos <= d.len(),
    ensures
        ({
            let y = section(x, count, abbrev, questions, told, d, base);
            &&& closed_in(m, y.m, base, base + d.len())
            &&& 0 <= y.pos <= d.len()
        }),
{
    let end = base + d.len();
    if x.ok && count > 0 {
        let id = x.m.count();
        let p = base + x.pos;
        let b = x.m.begin(abbrev, p, p);
        assert(fits_all(x.m, base, end));
        assert(wrote(x.m, b, base, end) && b.trace.depth == x.m.trace.depth + 1 && opened(
            b,
            x.m.trace.depth,
            id,
            m.source,
            p,
        ) && fits_all(b, base, end)) by {
            broadcast use {keeping_nested, moving};

        }
        let k = capped(count);
        items_nest(k, d, x.pos, base, questions, told, b, x.info);
        let u = items(k, d, x.pos, base, questions, told, b, x.info);
        let stop = base + (if u.ok {
            u.pos
        } else {
            d.len() as int
        });
        assert(kids(b, id, m.source, p, stop)) by {
            broadcast use {keeping_nested, moving};

        }
        wrote_on(x.m, b, u.m, base, end, p, stop);
        assert(kids(u.m, id, m.source, p, stop));
        assert(opened(u.m, x.m.trace.depth, id, m.source, p));
        shut(x.m, u.m, id, p, stop, base, end);
        wrote_on(m, x.m, u.m.end_at(id, stop), base, end, base, end);
    }
}

#[verifier::spinoff_prover]
proof fn header_nests(d: Seq<u8>, m: Model)
    requires
        begins(d, m),
        12 <= d.len(),
    ensures
        ({
            let x = header_fields(d, m);
            &&& wrote(m, x, m.base, m.base + d.len())
            &&& x.trace.depth == m.trace.depth + 1
            &&& fits_all(x, m.base, m.base + d.len())
        }),
{
    broadcast use {keeping_nested, moving};

}

pub proof fn dns_nests(d: Seq<u8>, m: Model)
    requires
        begins(d, m),
    ensures
        nests(d, m, layer(d, m)),
{
    let a = m.base;
    let end = a + d.len();
    assert(wrote(m, m, a, end));
    if d.len() >= 12 {
        header_nests(d, m);
        let h = header_fields(d, m);
        assert(closed_in(h, h, a, end));
        let x = Section { m: h, pos: 12, info: info_head(d), ok: true };
        let (c, name) = (be16(d, 4), "dns.queries"@);
        section_nests(h, x, c, name, true, true, d, a);
        let x = section(x, c, name, true, true, d, a);
        let (c, name) = (be16(d, 6), "dns.answers"@);
        section_nests(h, x, c, name, false, true, d, a);
        let x = section(x, c, name, false, true, d, a);
        let (c, name) = (be16(d, 8), "dns.authority"@);
        section_nests(h, x, c, name, false, false, d, a);
        let x = section(x, c, name, false, false, d, a);
        let (c, name) = (be16(d, 10), "dns.additional"@);
        section_nests(h, x, c, name, false, false, d, a);
        let x = section(x, c, name, false, false, d, a);
        let info = if x.ok {
            x.info
        } else {
            x.info + " [Malformed]"@
        };
        wrote_on(m, h, x.m, a, end, a, end);
        assert(wrote(m, x.m.set_info(info).end(), a, end)) by {
            broadcast use {keeping_nested, moving};

        }
    }
}

} // verus!

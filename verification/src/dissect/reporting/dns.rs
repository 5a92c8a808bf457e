//! DNS.

use vstd::prelude::*;

use super::ops::keeping_alike;
use super::{
    added, agree, alike, alike_facts, carries, chained, ends_by, level, rows_appended, start_alike,
    Bases,
};
use crate::bytes::be16;
use crate::dissect::ctx::Model;
use crate::dissect::node::Trace;
use crate::dissect::proto::dns::{
    capped, header_fields, info_head, items, layer, question, record, section, Section,
};
use crate::dissect::ranges::dns::names_end_inside;

verus! {

/// Sections read in both.
spec fn read_alike(bases: Bases, m1: Model, m2: Model, x: Section, y: Section) -> bool {
    &&& added(bases, m1, m2, x.m, y.m)
    &&& x.pos == y.pos
    &&& x.info == y.info
    &&& x.ok == y.ok
}

proof fn appended_agree(bases: Bases, m1: Model, m2: Model, t: Trace)
    requires
        alike(bases, m1, m2),
    ensures
        added(bases, m1, m2, m1.append(t), m2.append(t)),
{
    reveal(Model::append);
    let (x1, x2) = (m1.append(t), m2.append(t));
    assert(alike(bases, x1, x2)) by {
        reveal(alike);
        rows_appended(bases, m1.trace.rows, m2.trace.rows, t.rows);
    }
    assert forall|i1: int, i2: int|
        level(bases, m1, i1, m2, i2) && i1 < m1.count() implies #[trigger] level(
        bases,
        x1,
        i1,
        x2,
        i2,
    ) by {
        reveal(level);
        assert(x1.trace.rows.take(i1) =~= m1.trace.rows.take(i1));
        assert(x2.trace.rows.take(i2) =~= m2.trace.rows.take(i2));
    }
    assert forall|i: int, e: int| ends_by(m1, i, e) && i < m1.count() implies #[trigger] ends_by(
        x1,
        i,
        e,
    ) by {
        reveal(ends_by);
    }
    assert forall|i: int, e: int| ends_by(m2, i, e) && i < m2.count() implies #[trigger] ends_by(
        x2,
        i,
        e,
    ) by {
        reveal(ends_by);
    }
}

proof fn items_agree(
    bases: Bases,
    k: nat,
    d: Seq<u8>,
    pos: int,
    base: int,
    questions: bool,
    told: bool,
    m1: Model,
    m2: Model,
    info: Seq<char>,
)
    requires
        alike(bases, m1, m2),
        0 <= m1.trace.depth < 240,
    ensures
        read_alike(
            bases,
            m1,
            m2,
            items(k, d, pos, base, questions, told, m1, info),
            items(k, d, pos, base, questions, told, m2, info),
        ),
    decreases k,
{
    alike_facts(bases, m1, m2);
    if k > 0 {
        let t = Trace { rows: Seq::empty(), depth: m1.trace.depth };
        let item = if questions {
            question(d, pos, base, m1.source, t)
        } else {
            record(d, pos, base, m1.source, t)
        };
        match item {
            Ok((rows, next, text)) => {
                appended_agree(bases, m1, m2, rows);
                let (x1, x2) = (m1.append(rows), m2.append(rows));
                let more = if told {
                    info + " "@ + text
                } else {
                    info
                };
                items_agree(
                    bases,
                    (k - 1) as nat,
                    d,
                    next,
                    base,
                    questions,
                    told,
                    x1,
                    x2,
                    more,
                );
                let y1 = items((k - 1) as nat, d, next, base, questions, told, x1, more).m;
                let y2 = items((k - 1) as nat, d, next, base, questions, told, x2, more).m;
                chained(bases, m1, m2, x1, x2, y1, y2);
            },
            Err(e) => {
                broadcast use keeping_alike;

            },
        }
    } else {
        broadcast use keeping_alike;

    }
}

proof fn items_end(
    k: nat,
    d: Seq<u8>,
    pos: int,
    base: int,
    questions: bool,
    told: bool,
    m: Model,
    info: Seq<char>,
)
    requires
        pos <= d.len(),
    ensures
        ({
            let x = items(k, d, pos, base, questions, told, m, info);
            pos <= x.pos <= d.len()
        }),
    decreases k,
{
    if k > 0 {
        names_end_inside(d, pos);
        let t = Trace { rows: Seq::empty(), depth: m.trace.depth };
        let item = if questions {
            question(d, pos, base, m.source, t)
        } else {
            record(d, pos, base, m.source, t)
        };
        if let Ok((rows, next, text)) = item {
            let more = if told {
                info + " "@ + text
            } else {
                info
            };
            items_end((k - 1) as nat, d, next, base, questions, told, m.append(rows), more);
        }
    }
}

proof fn section_agrees(
    bases: Bases,
    m1: Model,
    m2: Model,
    x: Section,
    y: Section,
    count: u16,
    abbrev: Seq<char>,
    questions: bool,
    told: bool,
    d: Seq<u8>,
    base: int,
)
    requires
        read_alike(bases, m1, m2, x, y),
        0 <= m1.trace.depth < 230,
        x.pos <= d.len(),
    ensures
        read_alike(
            bases,
            m1,
            m2,
            section(x, count, abbrev, questions, told, d, base),
            section(y, count, abbrev, questions, told, d, base),
        ),
        section(x, count, abbrev, questions, told, d, base).pos <= d.len(),
{
    if x.ok && count > 0 {
        let (n1, n2) = (x.m.count(), y.m.count());
        let p = base + x.pos;
        let (b1, b2) = (x.m.begin(abbrev, p, p), y.m.begin(abbrev, p, p));
        assert(alike(bases, b1, b2) && carries(bases, x.m, y.m, b1, b2) && level(
            bases,
            b1,
            n1,
            b2,
            n2,
        ) && n1 < b1.count() && n2 < b2.count() && b1.trace.depth == m1.trace.depth + 1) by {
            broadcast use keeping_alike;

        }
        chained(bases, m1, m2, x.m, y.m, b1, b2);
        let k = capped(count);
        items_agree(bases, k, d, x.pos, base, questions, told, b1, b2, x.info);
        items_end(k, d, x.pos, base, questions, told, b1, x.info);
        let u = items(k, d, x.pos, base, questions, told, b1, x.info);
        let v = items(k, d, x.pos, base, questions, told, b2, x.info);
        chained(bases, m1, m2, b1, b2, u.m, v.m);
        let end = base + (if u.ok {
            u.pos
        } else {
            d.len() as int
        });
        assert(level(bases, u.m, n1, v.m, n2));
        assert(ends_by(b1, n1, end) && ends_by(b2, n2, end)) by {
            broadcast use keeping_alike;

        }
        assert(ends_by(u.m, n1, end) && ends_by(v.m, n2, end));
        let (w1, w2) = (u.m.end_at(n1, end), v.m.end_at(n2, end));
        assert(added(bases, m1, m2, w1, w2)) by {
            assert(x.m.count() >= m1.count() && y.m.count() >= m2.count());
            broadcast use keeping_alike;

        }
    }
}

#[verifier::spinoff_prover]
proof fn header_agrees(bases: Bases, d: Seq<u8>, m1: Model, m2: Model)
    requires
        start_alike(bases, m1, m2),
    ensures
        alike(bases, header_fields(d, m1), header_fields(d, m2)),
        header_fields(d, m1).trace.depth == m1.trace.depth + 1,
{
    broadcast use keeping_alike;

}

pub proof fn dns_agrees(bases: Bases, d: Seq<u8>, m1: Model, m2: Model)
    requires
        start_alike(bases, m1, m2),
    ensures
        agree(bases, m1.trace.depth, layer(d, m1), layer(d, m2)),
{
    alike_facts(bases, m1, m2);
    let a = m1.base;
    if d.len() >= 12 {
        header_agrees(bases, d, m1, m2);
        let (h1, h2) = (header_fields(d, m1), header_fields(d, m2));
        let x = Section { m: h1, pos: 12, info: info_head(d), ok: true };
        let y = Section { m: h2, pos: 12, info: info_head(d), ok: true };
        assert(carries(bases, h1, h2, h1, h2));
        let (c, name) = (be16(d, 4), "dns.queries"@);
        section_agrees(bases, h1, h2, x, y, c, name, true, true, d, a);
        let x = section(x, c, name, true, true, d, a);
        let y = section(y, c, name, true, true, d, a);
        let (c, name) = (be16(d, 6), "dns.answers"@);
        section_agrees(bases, h1, h2, x, y, c, name, false, true, d, a);
        let x = section(x, c, name, false, true, d, a);
        let y = section(y, c, name, false, true, d, a);
        let (c, name) = (be16(d, 8), "dns.authority"@);
        section_agrees(bases, h1, h2, x, y, c, name, false, false, d, a);
        let x = section(x, c, name, false, false, d, a);
        let y = section(y, c, name, false, false, d, a);
        let (c, name) = (be16(d, 10), "dns.additional"@);
        section_agrees(bases, h1, h2, x, y, c, name, false, false, d, a);
        let x = section(x, c, name, false, false, d, a);
        let y = section(y, c, name, false, false, d, a);
        let info = if x.ok {
            x.info
        } else {
            x.info + " [Malformed]"@
        };
        assert(alike(bases, x.m.set_info(info).end(), y.m.set_info(info).end())
            && x.m.set_info(info).end().trace.depth == m1.trace.depth) by {
            broadcast use keeping_alike;

        }
    }
}

} // verus!

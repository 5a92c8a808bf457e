//! DNS.

use vstd::prelude::*;

use super::names::{dns_names, giving_none, tame};
use super::{fits, keeping_inside, nothing_written, ready, space, within};
use crate::bytes::be16;
use crate::dissect::ctx::Model;
use crate::dissect::cursor::SourceId;
use crate::dissect::node::{Trace, ValueView};
use crate::dissect::proto::dns::{
    authority, capped, flag, header_fields, info_head, items, label_shown, layer, name_at,
    name_from, question, record, record_data, section, strings, MAX_POINTER_HOPS, Section,
};
use crate::text::utf8_lossy;

verus! {

/// Every row lies in source `s`, which has room for `room` bytes, and says
/// nothing of a checksum.
pub open spec fn placed(t: Trace, s: SourceId, room: int) -> bool {
    forall|i: int|
        #![trigger t.rows[i]]
        0 <= i < t.rows.len() ==> t.rows[i].source == s && fits(t.rows[i], room) && tame(
            t.rows[i].abbrev,
        )
}

proof fn name_ends(
    d: Seq<u8>,
    p: int,
    labels: int,
    hops: int,
    name: Seq<char>,
    end: Option<int>,
)
    ensures
        name_from(d, p, labels, hops, name, end) matches Ok(x) ==> match end {
            Some(e) => x.1 == e,
            None => p < x.1 <= d.len(),
        },
    decreases MAX_POINTER_HOPS + 1 - hops, d.len() - p,
{
    if 0 <= p < d.len() {
        let len = d[p];
        if len & 0xc0 == 0xc0 {
            let target = (len & 0x3f) * 256 + d[p + 1];
            if p + 1 < d.len() && hops + 1 <= MAX_POINTER_HOPS && target < p {
                name_ends(
                    d,
                    target,
                    labels,
                    hops + 1,
                    name,
                    if end is None {
                        Some(p + 2)
                    } else {
                        end
                    },
                );
            }
        } else if len & 0xc0 == 0 && len != 0 && p + 1 + len <= d.len() {
            let dotted = if name.len() == 0 {
                name
            } else {
                name + "."@
            };
            name_ends(
                d,
                p + 1 + len,
                labels + 1,
                hops,
                dotted + label_shown(d.subrange(p + 1, p + 1 + len), len as int),
                end,
            );
        }
    }
}

/// A name ends behind where it starts, inside the message.
pub proof fn names_end_inside(d: Seq<u8>, pos: int)
    ensures
        name_at(d, pos) matches Ok(x) ==> pos < x.1 <= d.len(),
{
    name_ends(d, pos, 0, 0, Seq::empty(), None);
}

proof fn question_placed(d: Seq<u8>, pos: int, base: int, s: SourceId, t: Trace, room: int)
    requires
        placed(t, s, room),
        0 <= pos,
        0 <= base,
        base + d.len() <= room,
    ensures
        question(d, pos, base, s, t) matches Ok(x) ==> placed(x.0, s, room) && pos <= x.1
            <= d.len(),
{
    dns_names();
    names_end_inside(d, pos);
}

proof fn strings_placed(
    d: Seq<u8>,
    i: int,
    end: int,
    base: int,
    s: SourceId,
    t: Trace,
    parts: Seq<Seq<char>>,
    room: int,
)
    requires
        placed(t, s, room),
        0 <= i,
        end <= d.len(),
        0 <= base,
        base + d.len() <= room,
    ensures
        strings(d, i, end, base, s, t, parts) matches Ok(x) ==> placed(x.0, s, room)
            && x.0.rows.len() >= t.rows.len(),
    decreases end - i,
{
    dns_names();
    if i < end {
        let len = d[i] as int;
        if end - i - 1 >= len {
            let shown = utf8_lossy(d.subrange(i + 1, i + 1 + len));
            strings_placed(
                d,
                i + 1 + len,
                end,
                base,
                s,
                t.leaf("dns.txt"@, s, base + i + 1, base + i + 1 + len, ValueView::Str(shown)),
                parts.push(shown),
                room,
            );
        }
    }
}

proof fn authority_placed(
    d: Seq<u8>,
    rd: int,
    end: int,
    base: int,
    s: SourceId,
    t: Trace,
    room: int,
)
    requires
        placed(t, s, room),
        0 <= rd,
        end <= d.len(),
        0 <= base,
        base + d.len() <= room,
    ensures
        authority(d, rd, end, base, s, t) matches Ok(x) ==> placed(x.0, s, room) && x.0.rows.len()
            >= t.rows.len(),
{
    dns_names();
    names_end_inside(d, rd);
    if let Ok((mname, p1)) = name_at(d, rd) {
        names_end_inside(d, p1);
    }
}

proof fn record_data_placed(
    ty: u16,
    d: Seq<u8>,
    rd: int,
    len: u16,
    base: int,
    s: SourceId,
    t: Trace,
    room: int,
)
    requires
        placed(t, s, room),
        0 <= rd,
        rd + len <= d.len(),
        0 <= base,
        base + d.len() <= room,
    ensures
        record_data(ty, d, rd, len, base, s, t) matches Ok(x) ==> placed(x.0, s, room)
            && x.0.rows.len() >= t.rows.len(),
{
    dns_names();
    authority_placed(d, rd, rd + len, base, s, t, room);
    strings_placed(d, rd, rd + len, base, s, t, Seq::empty(), room);
}

proof fn record_placed(d: Seq<u8>, pos: int, base: int, s: SourceId, t: Trace, room: int)
    requires
        placed(t, s, room),
        0 <= pos,
        0 <= base,
        base + d.len() <= room,
    ensures
        record(d, pos, base, s, t) matches Ok(x) ==> placed(x.0, s, room) && pos <= x.1 <= d.len(),
{
    dns_names();
    names_end_inside(d, pos);
    assert forall|ty: u16, rd: int, len: u16, u: Trace|
        placed(u, s, room) && 0 <= rd && rd + len <= d.len() implies (#[trigger] record_data(
        ty,
        d,
        rd,
        len,
        base,
        s,
        u,
    ) matches Ok(x) ==> placed(x.0, s, room) && x.0.rows.len() >= u.rows.len()) by {
        record_data_placed(ty, d, rd, len, base, s, u, room);
    }
}

proof fn items_stay(
    m0: Model,
    k: nat,
    d: Seq<u8>,
    pos: int,
    base: int,
    questions: bool,
    told: bool,
    m: Model,
    info: Seq<char>,
    n: int,
)
    requires
        within(m0, m, n),
        0 <= pos <= d.len(),
        0 <= base,
        base + d.len() <= space(m0, n),
    ensures
        ({
            let x = items(k, d, pos, base, questions, told, m, info);
            &&& within(m0, x.m, n)
            &&& x.m.count() >= m.count()
            &&& 0 <= x.pos <= d.len()
        }),
    decreases k,
{
    dns_names();
    if k > 0 {
        let t = Trace { rows: Seq::empty(), depth: m.trace.depth };
        assert(m.source == m0.source) by {
            reveal(within);
        }
        let room = space(m0, n);
        question_placed(d, pos, base, m.source, t, room);
        record_placed(d, pos, base, m.source, t, room);
        let item = if questions {
            question(d, pos, base, m.source, t)
        } else {
            record(d, pos, base, m.source, t)
        };
        if let Ok((rows, next, text)) = item {
            assert(within(m0, m.append(rows), n) && m.append(rows).count() >= m.count()) by {
                broadcast use giving_none;

                reveal(within);
                reveal(Model::append);
            }
            items_stay(
                m0,
                (k - 1) as nat,
                d,
                next,
                base,
                questions,
                told,
                m.append(rows),
                if told {
                    info + " "@ + text
                } else {
                    info
                },
                n,
            );
        } else {
            broadcast use keeping_inside;

        }
    }
}

proof fn section_stays(
    m0: Model,
    x: Section,
    count: u16,
    abbrev: Seq<char>,
    questions: bool,
    told: bool,
    d: Seq<u8>,
    base: int,
    n: int,
)
    requires
        within(m0, x.m, n),
        0 <= x.pos <= d.len(),
        0 <= base,
        base + d.len() <= space(m0, n),
        tame(abbrev),
    ensures
        ({
            let y = section(x, count, abbrev, questions, told, d, base);
            &&& within(m0, y.m, n)
            &&& 0 <= y.pos <= d.len()
        }),
{
    broadcast use keeping_inside;

    dns_names();
    let p = base + x.pos;
    items_stay(
        m0,
        capped(count),
        d,
        x.pos,
        base,
        questions,
        told,
        x.m.begin(abbrev, p, p),
        x.info,
        n,
    );
}

proof fn header_stays(d: Seq<u8>, m: Model, n: int)
    requires
        within(m, m, n),
        0 <= m.base,
        m.base + d.len() <= space(m, n),
        12 <= d.len(),
    ensures
        within(m, header_fields(d, m), n),
{
    broadcast use keeping_inside;

    dns_names();
    let a = m.base;
    assert forall|x: Model, abbrev: Seq<char>, flags: u16, mask: u16|
        within(m, x, n) && tame(abbrev) implies #[trigger] within(
        m,
        flag(x, abbrev, a, flags, mask),
        n,
    ) by {
    }
}

pub proof fn dns_stays_inside(d: Seq<u8>, m: Model, n: int)
    requires
        ready(d, m, n),
    ensures
        within(m, layer(d, m).0, n),
{
    dns_names();
    nothing_written(m, n);
    let a = m.base;
    if d.len() >= 12 {
        header_stays(d, m, n);
        let x = Section { m: header_fields(d, m), pos: 12, info: info_head(d), ok: true };
        section_stays(m, x, be16(d, 4), "dns.queries"@, true, true, d, a, n);
        let x = section(x, be16(d, 4), "dns.queries"@, true, true, d, a);
        section_stays(m, x, be16(d, 6), "dns.answers"@, false, true, d, a, n);
        let x = section(x, be16(d, 6), "dns.answers"@, false, true, d, a);
        section_stays(m, x, be16(d, 8), "dns.authority"@, false, false, d, a, n);
        let x = section(x, be16(d, 8), "dns.authority"@, false, false, d, a);
        section_stays(m, x, be16(d, 10), "dns.additional"@, false, false, d, a, n);
        broadcast use keeping_inside;

    }
}

} // verus!

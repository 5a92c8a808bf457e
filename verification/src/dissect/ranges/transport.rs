//! UDP and TCP.

use vstd::prelude::*;

use super::names::{tame, tcp_names, udp_names, unasked, verdict_names};
use super::{
    grown, keeping_inside, new_source_stays, nothing_written, ready, space, within, within_grows,
};
use crate::bytes::{be16, be32};
use crate::dissect::ctx::Model;
use crate::dissect::node::ValueView;
use crate::dissect::proto::{checked, tcp, udp};
use crate::dissect::reporting::is_status;
use crate::dissect::reporting::verdicts::no_verdict;
use crate::dissect::stream::desegment::{prefix_for, PrefixView};
use crate::dissect::stream::table::LookupView;
use crate::dissect::stream::tcp::Findings;
use crate::text::dec;

verus! {

pub proof fn checked_stays(
    m0: Model,
    m: Model,
    n: int,
    abbrev: Seq<char>,
    start: int,
    end: int,
    status: u64,
)
    requires
        within(m0, m, n),
        0 <= start <= space(m0, n),
        end <= space(m0, n),
        is_status(abbrev),
        unasked(m0.options) ==> no_verdict(status),
    ensures
        within(m0, checked(m, abbrev, start, end, status), n),
        checked(m, abbrev, start, end, status).count() > m.count(),
        checked(m, abbrev, start, end, status).base == m.base,
{
    broadcast use keeping_inside;

    verdict_names();

}

pub proof fn udp_stays_inside(d: Seq<u8>, m: Model, n: int)
    requires
        ready(d, m, n),
    ensures
        within(m, udp::layer(d, m).0, n),
{
    broadcast use keeping_inside;

    udp_names();
    nothing_written(m, n);
    if d.len() >= 8 {
        let (a, status) = (m.base, udp::status_of(d, m));
        assert forall|x: Model| within(m, x, n) implies #[trigger] within(
            m,
            checked(x, "udp.checksum.status"@, a + 6, a + 8, status),
            n,
        ) by {
            checked_stays(m, x, n, "udp.checksum.status"@, a + 6, a + 8, status);
        }
    }
}

proof fn flag_fields_count(m: Model, flags: u16, start: int, end: int, i: int)
    ensures
        tcp::flag_fields(m, flags, start, end, i).count() >= m.count(),
    decreases tcp::FLAG_NAMES@.len() - i,
{
    broadcast use keeping_inside;

    tcp_names();
    if 0 <= i < tcp::FLAG_NAMES@.len() {
        assert(tame(tcp::FLAG_NAMES@[i].1@));
        let next = m.leaf(
            tcp::FLAG_NAMES@[i].1@,
            start,
            end,
            ValueView::Bool(flags & tcp::FLAG_NAMES@[i].0 != 0),
        );
        flag_fields_count(next, flags, start, end, i + 1);
    }
}

proof fn flag_fields_stay(m0: Model, m: Model, n: int, flags: u16, start: int, end: int, i: int)
    requires
        within(m0, m, n),
        0 <= start <= space(m0, n),
        end <= space(m0, n),
    ensures
        within(m0, tcp::flag_fields(m, flags, start, end, i), n),
    decreases tcp::FLAG_NAMES@.len() - i,
{
    broadcast use keeping_inside;

    tcp_names();
    if 0 <= i < tcp::FLAG_NAMES@.len() {
        let next = m.leaf(
            tcp::FLAG_NAMES@[i].1@,
            start,
            end,
            ValueView::Bool(flags & tcp::FLAG_NAMES@[i].0 != 0),
        );
        flag_fields_stay(m0, next, n, flags, start, end, i + 1);
    }
}

proof fn sack_blocks_stay(
    m0: Model,
    o: Seq<u8>,
    i: int,
    k: int,
    at: int,
    m: Model,
    shown: Seq<char>,
    n: int,
)
    requires
        within(m0, m, n),
        0 <= i <= o.len(),
        0 <= at,
        at + o.len() <= space(m0, n),
    ensures
        within(m0, tcp::sack_blocks(o, i, k, at, m, shown).0, n),
        tcp::sack_blocks(o, i, k, at, m, shown).0.count() >= m.count(),
        i <= tcp::sack_blocks(o, i, k, at, m, shown).1 <= o.len(),
    decreases k,
{
    broadcast use keeping_inside;

    tcp_names();
    if k > 0 && o.len() - i >= 8 {
        let (le, re) = (be32(o, i), be32(o, i + 4));
        sack_blocks_stay(
            m0,
            o,
            i + 8,
            k - 1,
            at,
            m.leaf(
                "tcp.options.sack_le"@,
                at + i,
                at + i + 4,
                ValueView::Unsigned(le as u64),
            ).leaf(
                "tcp.options.sack_re"@,
                at + i + 4,
                at + i + 8,
                ValueView::Unsigned(re as u64),
            ),
            shown + " "@ + dec(le as int) + "-"@ + dec(re as int),
            n,
        );
    }
}

proof fn option_body_stays(
    m0: Model,
    o: Seq<u8>,
    i: int,
    at: int,
    kind: u8,
    body: int,
    node: int,
    m: Model,
    n: int,
)
    requires
        within(m0, m, n),
        0 <= i <= o.len(),
        0 <= body,
        0 <= at,
        at + o.len() <= space(m0, n),
        m0.count() <= node < m.count(),
    ensures
        within(m0, tcp::option_body(o, i, at, kind, body, node, m).0, n),
        tcp::option_body(o, i, at, kind, body, node, m).0.count() >= m.count(),
        i <= tcp::option_body(o, i, at, kind, body, node, m).1 <= o.len(),
{
    broadcast use keeping_inside;

    tcp_names();
    reveal_strlit("tcp.options.mss");
    reveal_strlit("tcp.options.wscale");
    reveal_strlit("tcp.options.sack_perm");
    reveal_strlit("tcp.options.sack");
    reveal_strlit("tcp.options.timestamp");
    reveal_strlit("tcp.options.unknown");
    let field = tcp::option_field(kind, body);
    assert(field == "tcp.options.mss"@ ==> body == 2) by {
        assert(field.len() == 15 ==> body == 2);
    }
    assert(field == "tcp.options.wscale"@ ==> body == 1) by {
        assert(field.len() == 18 ==> body == 1);
    }
    sack_blocks_stay(m0, o, i, body / 8, at, m, "SACK:"@, n);
}

proof fn option_stays(m0: Model, o: Seq<u8>, i: int, at: int, m: Model, n: int)
    requires
        within(m0, m, n),
        0 <= i < o.len(),
        0 <= at,
        at + o.len() <= space(m0, n),
    ensures
        within(m0, tcp::option(o, i, at, m).0, n),
        tcp::option(o, i, at, m).0.count() >= m.count(),
        i <= tcp::option(o, i, at, m).1 <= o.len(),
{
    broadcast use keeping_inside;

    tcp_names();
    if o[i] != 0 && o[i] != 1 && i + 1 < o.len() && o[i + 1] >= 2 {
        let p = at + i;
        let kind = o[i];
        let len = o[i + 1];
        let body = len - 2;
        let open = m.begin(tcp::option_field(kind, body), p, p).leaf(
            "tcp.option_kind"@,
            p,
            p + 1,
            ValueView::Unsigned(kind as u64),
        ).leaf(
            "tcp.option_len"@,
            p + 1,
            p + 2,
            ValueView::Unsigned(len as u64),
        );
        assert(within(m0, open, n));
        option_body_stays(m0, o, i + 2, at, kind, body, m.count(), open, n);
    }
}

proof fn options_stay(
    m0: Model,
    o: Seq<u8>,
    i: int,
    at: int,
    m: Model,
    scale: Option<u8>,
    n: int,
)
    requires
        within(m0, m, n),
        0 <= at,
        at + o.len() <= space(m0, n),
    ensures
        within(m0, tcp::options(o, i, at, m, scale).0, n),
        tcp::options(o, i, at, m, scale).0.count() >= m.count(),
    decreases o.len() - i,
{
    broadcast use keeping_inside;

    tcp_names();
    if 0 <= i < o.len() {
        option_stays(m0, o, i, at, m, n);
        let (next, j, step) = tcp::option(o, i, at, m);
        let scale = if tcp::scale_at(o, i) is Some {
            tcp::scale_at(o, i)
        } else {
            scale
        };
        if i < j <= o.len() {
            options_stay(m0, o, j, at, next, scale, n);
        }
    }
}

proof fn analysis_stays(m0: Model, m: Model, f: Findings, n: int)
    requires
        within(m0, m, n),
        0 <= space(m0, n),
    ensures
        within(m0, tcp::analysis(m, f), n),
        tcp::analysis(m, f).count() >= m.count(),
{
    broadcast use keeping_inside;

    tcp_names();
}

proof fn header_fields_stay(
    m0: Model,
    d: Seq<u8>,
    m: Model,
    payload: int,
    stream: Option<u32>,
    status: u64,
    n: int,
)
    requires
        within(m0, m, n),
        0 <= m0.base,
        m0.base + 20 <= space(m0, n),
        unasked(m0.options) ==> no_verdict(status),
    ensures
        within(m0, tcp::header_fields(d, m, payload, stream, status), n),
        tcp::header_fields(d, m, payload, stream, status).count() > m.count(),
{
    broadcast use keeping_inside;

    tcp_names();
    let a = m.base;
    assert forall|x: Model, flags: u16|
        within(m0, x, n) implies #[trigger] within(
        m0,
        tcp::flag_fields(x, flags, a + 12, a + 14, 0),
        n,
    ) by {
        flag_fields_stay(m0, x, n, flags, a + 12, a + 14, 0);
    }
    assert forall|x: Model, flags: u16|
        (#[trigger] tcp::flag_fields(x, flags, a + 12, a + 14, 0)).count() >= x.count() by {
        flag_fields_count(x, flags, a + 12, a + 14, 0);
    }
    assert forall|x: Model|
        within(m0, x, n) implies #[trigger] within(
        m0,
        checked(x, "tcp.checksum.status"@, a + 16, a + 18, status),
        n,
    ) by {
        checked_stays(m0, x, n, "tcp.checksum.status"@, a + 16, a + 18, status);
    }
}

proof fn hand_on_stays(
    m0: Model,
    m: Model,
    row: int,
    head: int,
    payload: Seq<u8>,
    sport: u16,
    dport: u16,
    look: Option<LookupView>,
    f: Findings,
    reset: bool,
    n: int,
)
    requires
        within(m0, m, n),
        0 <= n,
        0 <= m0.base,
        0 <= head,
        m0.base + head + payload.len() <= space(m0, n),
        m0.count() <= row < m.count(),
    ensures
        grown(m0, tcp::hand_on(m, row, head, payload, sport, dport, look, f, reset), n),
        look is None ==> within(
            m0,
            tcp::hand_on(m, row, head, payload, sport, dport, look, f, reset),
            n,
        ),
{
    broadcast use keeping_inside;

    tcp_names();
    let after = tcp::hand_on(m, row, head, payload, sport, dport, look, f, reset);
    if look is None || tcp::disturbed(f) || reset || payload.len() == 0 {
        within_grows(m0, after, n);
    } else if let Some(look) = look {
        let prefix = prefix_for(m.state.desegment, look.id, look.direction, payload, m.ts);
        let taken = m.take_held(look.id, look.direction);
        match prefix {
            PrefixView::Nothing => within_grows(m0, after, n),
            PrefixView::Combined { bytes, origin } => {
                let a = m.base;
                let end = a + head + payload.len();
                let closed = taken.with_origin(Some(origin)).leaf(
                    "tcp.payload"@,
                    a + head,
                    end,
                    ValueView::Bytes,
                ).end_at(row, end);
                assert(within(m0, closed, n));
                new_source_stays(m0, closed, n, bytes, origin.proto);
            },
        }
    }
}

pub proof fn tcp_stays_inside(d: Seq<u8>, m: Model, n: int)
    requires
        ready(d, m, n),
    ensures
        grown(m, tcp::layer(d, m).0, n),
        m.nesting > 0 ==> within(m, tcp::layer(d, m).0, n),
{
    broadcast use keeping_inside;

    tcp_names();
    nothing_written(m, n);
    within_grows(m, m, n);
    if d.len() >= 20 {
        let a = m.base;
        let k = d.len() as int;
        let head = (be16(d, 12) >> 12) * 4;
        let flags = be16(d, 12) & 0x0fff;
        let (sport, dport) = (be16(d, 0), be16(d, 2));
        let payload = if head < k {
            k - head
        } else {
            0
        };
        let status = tcp::status_of(d, m);
        let (m1, look) = tcp::flow(m, sport, dport, flags);
        assert(within(m, m1, n));
        let stream = match look {
            Some(l) => Some(l.id),
            None => None,
        };
        let row = m1.set_protocol("tcp"@).set_info(tcp::info_text(d, flags, payload)).count();
        let m2 = tcp::header_fields(d, m1, payload, stream, status);
        header_fields_stay(m, d, m1, payload, stream, status, n);
        within_grows(m, m2, n);
        if 20 <= head <= k {
            let (m3, scale) = if head > 20 {
                let x = m2.begin_text(
                    "tcp.options"@,
                    a + 20,
                    a + head,
                    "Options: ("@ + dec(head - 20) + " bytes)"@,
                );
                options_stay(m, d.subrange(20, head as int), 0, a + 20, x, None, n);
                let (x, scale) = tcp::options(d.subrange(20, head as int), 0, a + 20, x, None);
                (x.end(), scale)
            } else {
                (m2, None)
            };
            assert(within(m, m3, n));
            let (m4, f) = match look {
                Some(l) => m3.analyse(
                    l.key,
                    l.direction,
                    tcp::segment_of(d, m3, payload, scale),
                ),
                None => (m3, crate::dissect::stream::tcp::no_findings()),
            };
            assert(within(m, m4, n));
            analysis_stays(m, m4, f, n);
            let m5 = tcp::analysis(m4, f);
            hand_on_stays(
                m,
                m5,
                row,
                head as int,
                d.subrange(head as int, k),
                sport,
                dport,
                look,
                f,
                flags & 0x04 != 0,
                n,
            );
        }
    }
}

} // verus!

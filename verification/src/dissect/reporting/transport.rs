//! UDP and TCP.

use vstd::prelude::*;

use super::ops::keeping_alike;
use super::{
    added, agree, alike, alike_facts, carries, chained, ends_by, level, start_alike, Bases,
};
use crate::bytes::{be16, be32};
use crate::dissect::ctx::Model;
use crate::dissect::expert::Severity;
use crate::dissect::node::ValueView;
use crate::dissect::proto::{tcp, udp};
use crate::dissect::stream::endpoints_of;
use crate::dissect::stream::table::LookupView;
use crate::dissect::stream::tcp::{no_findings, DupAck, Findings, Segment};
use crate::text::dec;

verus! {

pub proof fn udp_agrees(bases: Bases, d: Seq<u8>, m1: Model, m2: Model)
    requires
        start_alike(bases, m1, m2),
    ensures
        agree(bases, m1.trace.depth, udp::layer(d, m1), udp::layer(d, m2)),
{
    broadcast use keeping_alike;

    let (sport, dport) = (be16(d, 0), be16(d, 2));
    let (f1, f2) = (udp::flow(m1, sport, dport), udp::flow(m2, sport, dport));
    if let Some(a) = m1.addrs {
        let ends = endpoints_of(a, sport, dport);
        assert(alike(
            bases,
            m1.look_up(ends.0, ends.1, 17, false).0,
            m2.look_up(ends.0, ends.1, 17, false).0,
        ));
    }
    assert(alike(bases, f1.0, f2.0) && f1.1 == f2.1);
    assert(f1.0.base == m1.base && f1.0.trace.depth == m1.trace.depth);
}

proof fn flags_agree(bases: Bases, m1: Model, m2: Model, flags: u16, start: int, end: int, i: int)
    requires
        alike(bases, m1, m2),
        0 <= m1.trace.depth < 240,
    ensures
        added(
            bases,
            m1,
            m2,
            tcp::flag_fields(m1, flags, start, end, i),
            tcp::flag_fields(m2, flags, start, end, i),
        ),
    decreases tcp::FLAG_NAMES@.len() - i,
{
    broadcast use keeping_alike;

    if 0 <= i < tcp::FLAG_NAMES@.len() {
        let value = ValueView::Bool(flags & tcp::FLAG_NAMES@[i].0 != 0);
        flags_agree(
            bases,
            m1.leaf(tcp::FLAG_NAMES@[i].1@, start, end, value),
            m2.leaf(tcp::FLAG_NAMES@[i].1@, start, end, value),
            flags,
            start,
            end,
            i + 1,
        );
    }
}

proof fn blocks_agree(
    bases: Bases,
    o: Seq<u8>,
    i: int,
    k: int,
    at: int,
    m1: Model,
    m2: Model,
    shown: Seq<char>,
)
    requires
        alike(bases, m1, m2),
        0 <= m1.trace.depth < 240,
    ensures
        added(
            bases,
            m1,
            m2,
            tcp::sack_blocks(o, i, k, at, m1, shown).0,
            tcp::sack_blocks(o, i, k, at, m2, shown).0,
        ),
        tcp::sack_blocks(o, i, k, at, m1, shown).1 == tcp::sack_blocks(o, i, k, at, m2, shown).1,
        tcp::sack_blocks(o, i, k, at, m1, shown).2 == tcp::sack_blocks(o, i, k, at, m2, shown).2,
        tcp::sack_blocks(o, i, k, at, m1, shown).3 == tcp::sack_blocks(o, i, k, at, m2, shown).3,
        i <= tcp::sack_blocks(o, i, k, at, m1, shown).1,
    decreases k,
{
    broadcast use keeping_alike;

    if k > 0 && o.len() - i >= 8 {
        let (le, re) = (be32(o, i), be32(o, i + 4));
        blocks_agree(
            bases,
            o,
            i + 8,
            k - 1,
            at,
            m1.leaf(
                "tcp.options.sack_le"@,
                at + i,
                at + i + 4,
                ValueView::Unsigned(le as u64),
            ).leaf(
                "tcp.options.sack_re"@,
                at + i + 4,
                at + i + 8,
                ValueView::Unsigned(re as u64),
            ),
            m2.leaf(
                "tcp.options.sack_le"@,
                at + i,
                at + i + 4,
                ValueView::Unsigned(le as u64),
            ).leaf(
                "tcp.options.sack_re"@,
                at + i + 4,
                at + i + 8,
                ValueView::Unsigned(re as u64),
            ),
            shown + " "@ + dec(le as int) + "-"@ + dec(re as int),
        );
    }
}

proof fn option_body_agrees(
    bases: Bases,
    o: Seq<u8>,
    i: int,
    at: int,
    kind: u8,
    body: int,
    n1: int,
    m1: Model,
    n2: int,
    m2: Model,
)
    requires
        alike(bases, m1, m2),
        level(bases, m1, n1, m2, n2),
        n1 < m1.count(),
        0 <= body,
        0 <= m1.trace.depth < 240,
    ensures
        added(
            bases,
            m1,
            m2,
            tcp::option_body(o, i, at, kind, body, n1, m1).0,
            tcp::option_body(o, i, at, kind, body, n2, m2).0,
        ),
        tcp::option_body(o, i, at, kind, body, n1, m1).1 == tcp::option_body(
            o,
            i,
            at,
            kind,
            body,
            n2,
            m2,
        ).1,
        tcp::option_body(o, i, at, kind, body, n1, m1).2 == tcp::option_body(
            o,
            i,
            at,
            kind,
            body,
            n2,
            m2,
        ).2,
        i <= tcp::option_body(o, i, at, kind, body, n1, m1).1,
{
    broadcast use keeping_alike;

    blocks_agree(bases, o, i, body / 8, at, m1, m2, "SACK:"@);
}

proof fn option_agrees(bases: Bases, o: Seq<u8>, i: int, at: int, m1: Model, m2: Model)
    requires
        alike(bases, m1, m2),
        0 <= m1.trace.depth < 230,
    ensures
        alike(bases, tcp::option(o, i, at, m1).0, tcp::option(o, i, at, m2).0),
        carries(bases, m1, m2, tcp::option(o, i, at, m1).0, tcp::option(o, i, at, m2).0),
        !(tcp::option(o, i, at, m1).2 is Failed) ==> tcp::option(o, i, at, m1).0.trace.depth
            == m1.trace.depth,
        tcp::option(o, i, at, m1).1 == tcp::option(o, i, at, m2).1,
        tcp::option(o, i, at, m1).2 == tcp::option(o, i, at, m2).2,
{
    broadcast use keeping_alike;

    if o[i] != 0 && o[i] != 1 && i + 1 < o.len() && o[i + 1] >= 2 {
        let p = at + i;
        let kind = o[i];
        let len = o[i + 1];
        let body = len - 2;
        let x1 = m1.begin(tcp::option_field(kind, body), p, p).leaf(
            "tcp.option_kind"@,
            p,
            p + 1,
            ValueView::Unsigned(kind as u64),
        ).leaf("tcp.option_len"@, p + 1, p + 2, ValueView::Unsigned(len as u64));
        let x2 = m2.begin(tcp::option_field(kind, body), p, p).leaf(
            "tcp.option_kind"@,
            p,
            p + 1,
            ValueView::Unsigned(kind as u64),
        ).leaf("tcp.option_len"@, p + 1, p + 2, ValueView::Unsigned(len as u64));
        assert(alike(bases, x1, x2));
        assert(level(bases, x1, m1.count(), x2, m2.count()));
        assert(carries(bases, m1, m2, x1, x2));
        option_body_agrees(
            bases,
            o,
            i + 2,
            at,
            kind,
            body,
            m1.count(),
            x1,
            m2.count(),
            x2,
        );
        let y1 = tcp::option_body(o, i + 2, at, kind, body, m1.count(), x1);
        let y2 = tcp::option_body(o, i + 2, at, kind, body, m2.count(), x2);
        assert(level(bases, y1.0, m1.count(), y2.0, m2.count()));
        assert(ends_by(x1, m1.count(), at + y1.1) && ends_by(x2, m2.count(), at + y1.1));
        assert(ends_by(y1.0, m1.count(), at + y1.1) && ends_by(y2.0, m2.count(), at + y1.1));
        assert(carries(bases, m1, m2, y1.0, y2.0));
        let z1 = y1.0.end_at(m1.count(), at + y1.1);
        let z2 = y2.0.end_at(m2.count(), at + y2.1);
        assert(alike(bases, z1, z2));
        assert(carries(bases, m1, m2, z1, z2));
    }
}

proof fn options_agree(
    bases: Bases,
    o: Seq<u8>,
    i: int,
    at: int,
    m1: Model,
    m2: Model,
    scale: Option<u8>,
)
    requires
        alike(bases, m1, m2),
        0 <= m1.trace.depth < 230,
    ensures
        added(
            bases,
            m1,
            m2,
            tcp::options(o, i, at, m1, scale).0,
            tcp::options(o, i, at, m2, scale).0,
        ),
        tcp::options(o, i, at, m1, scale).1 == tcp::options(o, i, at, m2, scale).1,
    decreases o.len() - i,
{
    broadcast use keeping_alike;

    if 0 <= i < o.len() {
        option_agrees(bases, o, i, at, m1, m2);
        let (next, j, step) = tcp::option(o, i, at, m1);
        let next2 = tcp::option(o, i, at, m2).0;
        let scale = if tcp::scale_at(o, i) is Some {
            tcp::scale_at(o, i)
        } else {
            scale
        };
        if step is Next && i < j <= o.len() {
            options_agree(bases, o, j, at, next, next2, scale);
        }
    }
}

/// A finding in both, if there is one.
proof fn finding_agrees(
    bases: Bases,
    m1: Model,
    m2: Model,
    there: bool,
    abbrev: Seq<char>,
    severity: Severity,
    why: Seq<char>,
)
    requires
        alike(bases, m1, m2),
        0 <= m1.trace.depth < 241,
    ensures
        added(
            bases,
            m1,
            m2,
            if there {
                tcp::found(m1, abbrev, severity, why)
            } else {
                m1
            },
            if there {
                tcp::found(m2, abbrev, severity, why)
            } else {
                m2
            },
        ),
{
    broadcast use keeping_alike;

}

proof fn analysis_agrees(bases: Bases, m1: Model, m2: Model, f: Findings)
    requires
        alike(bases, m1, m2),
        0 <= m1.trace.depth < 240,
    ensures
        added(bases, m1, m2, tcp::analysis(m1, f), tcp::analysis(m2, f)),
{
    if f != no_findings() {
        let text = "SEQ/ACK analysis"@;
        let a1 = m1.begin_text("tcp.analysis"@, 0, 0, text);
        let a2 = m2.begin_text("tcp.analysis"@, 0, 0, text);
        assert(alike(bases, a1, a2) && carries(bases, m1, m2, a1, a2) && a1.trace.depth
            == m1.trace.depth + 1) by {
            broadcast use keeping_alike;

        }
        let b1 = match f.sequence {
            Some(s) => tcp::found(a1, s.field(), s.weight(), s.sentence()),
            None => a1,
        };
        let b2 = match f.sequence {
            Some(s) => tcp::found(a2, s.field(), s.weight(), s.sentence()),
            None => a2,
        };
        if let Some(s) = f.sequence {
            finding_agrees(bases, a1, a2, true, s.field(), s.weight(), s.sentence());
        }
        chained(bases, m1, m2, a1, a2, b1, b2);
        let c1 = match f.duplicate_ack {
            Some(d) => dup_ack(b1, d),
            None => b1,
        };
        let c2 = match f.duplicate_ack {
            Some(d) => dup_ack(b2, d),
            None => b2,
        };
        assert(added(bases, b1, b2, c1, c2)) by {
            broadcast use keeping_alike;

        }
        chained(bases, m1, m2, b1, b2, c1, c2);
        let (field, why) = ("tcp.analysis.zero_window"@, tcp::ZERO_WINDOW@);
        finding_agrees(bases, c1, c2, f.zero_window, field, Severity::Warn, why);
        let d1 = maybe(c1, f.zero_window, field, Severity::Warn, why);
        let d2 = maybe(c2, f.zero_window, field, Severity::Warn, why);
        chained(bases, m1, m2, c1, c2, d1, d2);
        let (field, why) = ("tcp.analysis.window_full"@, tcp::WINDOW_FULL@);
        finding_agrees(bases, d1, d2, f.window_full, field, Severity::Note, why);
        let e1 = maybe(d1, f.window_full, field, Severity::Note, why);
        let e2 = maybe(d2, f.window_full, field, Severity::Note, why);
        chained(bases, m1, m2, d1, d2, e1, e2);
        let (field, why) = ("tcp.analysis.keep_alive"@, tcp::KEEP_ALIVE@);
        finding_agrees(bases, e1, e2, f.keep_alive, field, Severity::Note, why);
        let g1 = maybe(e1, f.keep_alive, field, Severity::Note, why);
        let g2 = maybe(e2, f.keep_alive, field, Severity::Note, why);
        chained(bases, m1, m2, e1, e2, g1, g2);
        let (field, why) = ("tcp.analysis.ack_lost_segment"@, tcp::ACK_LOST@);
        finding_agrees(bases, g1, g2, f.ack_lost_segment, field, Severity::Warn, why);
        let h1 = maybe(g1, f.ack_lost_segment, field, Severity::Warn, why);
        let h2 = maybe(g2, f.ack_lost_segment, field, Severity::Warn, why);
        chained(bases, m1, m2, g1, g2, h1, h2);
        let field = "tcp.analysis.bytes_in_flight"@;
        let value = ValueView::Unsigned(f.bytes_in_flight as u64);
        let (k1, k2) = if f.bytes_in_flight > 0 {
            (h1.leaf(field, 0, 0, value), h2.leaf(field, 0, 0, value))
        } else {
            (h1, h2)
        };
        assert(added(bases, h1, h2, k1, k2)) by {
            broadcast use keeping_alike;

        }
        chained(bases, m1, m2, h1, h2, k1, k2);
        assert(added(bases, m1, m2, k1.end(), k2.end())) by {
            broadcast use keeping_alike;

        }
    }
}

/// A finding, if there is one.
pub open spec fn maybe(
    m: Model,
    there: bool,
    abbrev: Seq<char>,
    severity: Severity,
    why: Seq<char>,
) -> Model {
    if there {
        tcp::found(m, abbrev, severity, why)
    } else {
        m
    }
}

/// The finding of a duplicate acknowledgement.
pub open spec fn dup_ack(m: Model, d: DupAck) -> Model {
    tcp::found(
        m,
        "tcp.analysis.duplicate_ack"@,
        Severity::Note,
        tcp::DUPLICATE_ACK@,
    ).leaf(
        "tcp.analysis.duplicate_ack_num"@,
        0,
        0,
        ValueView::Unsigned(d.number as u64),
    ).leaf("tcp.analysis.duplicate_ack_frame"@, 0, 0, ValueView::Unsigned(d.frame as u64))
}

proof fn header_agrees(
    bases: Bases,
    d: Seq<u8>,
    m1: Model,
    m2: Model,
    payload: int,
    stream: Option<u32>,
    s1: u64,
    s2: u64,
)
    requires
        start_alike(bases, m1, m2),
    ensures
        ({
            let x1 = tcp::header_fields(d, m1, payload, stream, s1);
            let x2 = tcp::header_fields(d, m2, payload, stream, s2);
            &&& alike(bases, x1, x2)
            &&& level(bases, x1, m1.count(), x2, m2.count())
            &&& forall|e: int| m1.base <= e ==> #[trigger] ends_by(x1, m1.count(), e)
            &&& forall|e: int| m1.base <= e ==> #[trigger] ends_by(x2, m2.count(), e)
            &&& x1.trace.depth == m1.trace.depth + 1
            &&& x1.count() > m1.count()
            &&& x2.count() > m2.count()
            &&& x1.base == m1.base
        }),
{
    broadcast use keeping_alike;

    let a = m1.base;
    assert forall|x1: Model, x2: Model, flags: u16|
        alike(bases, x1, x2) && 0 <= x1.trace.depth < 240 implies added(
        bases,
        x1,
        x2,
        #[trigger] tcp::flag_fields(x1, flags, a + 12, a + 14, 0),
        #[trigger] tcp::flag_fields(x2, flags, a + 12, a + 14, 0),
    ) by {
        flags_agree(bases, x1, x2, flags, a + 12, a + 14, 0);
    }
}

proof fn hand_on_agrees(
    bases: Bases,
    m1: Model,
    r1: int,
    m2: Model,
    r2: int,
    head: int,
    payload: Seq<u8>,
    sport: u16,
    dport: u16,
    look: Option<LookupView>,
    f: Findings,
    reset: bool,
)
    requires
        alike(bases, m1, m2),
        level(bases, m1, r1, m2, r2),
        r1 < m1.count(),
        0 <= head,
        forall|e: int| m1.base <= e ==> #[trigger] ends_by(m1, r1, e),
        forall|e: int| m1.base <= e ==> #[trigger] ends_by(m2, r2, e),
        0 < m1.trace.depth < 240,
    ensures
        alike(
            bases,
            tcp::hand_on(m1, r1, head, payload, sport, dport, look, f, reset),
            tcp::hand_on(m2, r2, head, payload, sport, dport, look, f, reset),
        ),
        tcp::hand_on(m1, r1, head, payload, sport, dport, look, f, reset).trace.depth
            == m1.trace.depth - 1,
{
    broadcast use keeping_alike;

}

/// The options of the header, if it holds any, and the window scale in them.
pub open spec fn with_options(d: Seq<u8>, head: int, m: Model) -> (Model, Option<u8>) {
    let a = m.base;
    if head > 20 {
        let m = m.begin_text(
            "tcp.options"@,
            a + 20,
            a + head,
            "Options: ("@ + dec(head - 20) + " bytes)"@,
        );
        let (m, scale) = tcp::options(d.subrange(20, head), 0, a + 20, m, None);
        (m.end(), scale)
    } else {
        (m, None)
    }
}

proof fn with_options_agrees(bases: Bases, d: Seq<u8>, head: int, m1: Model, m2: Model)
    requires
        alike(bases, m1, m2),
        0 <= m1.trace.depth < 220,
    ensures
        added(bases, m1, m2, with_options(d, head, m1).0, with_options(d, head, m2).0),
        with_options(d, head, m1).1 == with_options(d, head, m2).1,
{
    let a = m1.base;
    let o = d.subrange(20, head);
    let text = "Options: ("@ + dec(head - 20) + " bytes)"@;
    let o1 = m1.begin_text("tcp.options"@, a + 20, a + head, text);
    let o2 = m2.begin_text("tcp.options"@, a + 20, a + head, text);
    assert(m2.base == a && alike(bases, o1, o2) && carries(bases, m1, m2, o1, o2)
        && o1.trace.depth == m1.trace.depth + 1) by {
        broadcast use keeping_alike;

    }
    options_agree(bases, o, 0, a + 20, o1, o2, None);
    let p1 = tcp::options(o, 0, a + 20, o1, None).0;
    let p2 = tcp::options(o, 0, a + 20, o2, None).0;
    chained(bases, m1, m2, o1, o2, p1, p2);
    assert(added(bases, m1, m2, p1.end(), p2.end())) by {
        broadcast use keeping_alike;

    }
}

/// The segment folded into its conversation, if it has one.
pub open spec fn with_analysis(
    m: Model,
    look: Option<LookupView>,
    seg: Segment,
) -> (Model, Findings) {
    let (m, f) = match look {
        Some(l) => m.analyse(l.key, l.direction, seg),
        None => (m, no_findings()),
    };
    (tcp::analysis(m, f), f)
}

proof fn with_analysis_agrees(
    bases: Bases,
    m1: Model,
    m2: Model,
    look: Option<LookupView>,
    seg: Segment,
)
    requires
        alike(bases, m1, m2),
        0 <= m1.trace.depth < 240,
    ensures
        added(bases, m1, m2, with_analysis(m1, look, seg).0, with_analysis(m2, look, seg).0),
        with_analysis(m1, look, seg).1 == with_analysis(m2, look, seg).1,
{
    if let Some(l) = look {
        let (x1, f) = m1.analyse(l.key, l.direction, seg);
        let (x2, g) = m2.analyse(l.key, l.direction, seg);
        assert(added(bases, m1, m2, x1, x2) && f == g) by {
            broadcast use keeping_alike;

        }
        analysis_agrees(bases, x1, x2, f);
        chained(bases, m1, m2, x1, x2, tcp::analysis(x1, f), tcp::analysis(x2, f));
    } else {
        analysis_agrees(bases, m1, m2, no_findings());
    }
}

proof fn flow_agrees(bases: Bases, m1: Model, m2: Model, sport: u16, dport: u16, flags: u16)
    requires
        alike(bases, m1, m2),
    ensures
        alike(
            bases,
            tcp::flow(m1, sport, dport, flags).0,
            tcp::flow(m2, sport, dport, flags).0,
        ),
        tcp::flow(m1, sport, dport, flags).1 == tcp::flow(m2, sport, dport, flags).1,
        tcp::flow(m1, sport, dport, flags).0.base == m1.base,
        tcp::flow(m1, sport, dport, flags).0.trace.depth == m1.trace.depth,
{
    broadcast use keeping_alike;

    if let Some(ad) = m1.addrs {
        let ends = endpoints_of(ad, sport, dport);
        let fresh = flags & 0x02 != 0 && flags & 0x10 == 0;
        assert(alike(
            bases,
            m1.look_up(ends.0, ends.1, 6, fresh).0,
            m2.look_up(ends.0, ends.1, 6, fresh).0,
        ));
    }
}

pub proof fn tcp_agrees(bases: Bases, d: Seq<u8>, m1: Model, m2: Model)
    requires
        start_alike(bases, m1, m2),
    ensures
        agree(bases, m1.trace.depth, tcp::layer(d, m1), tcp::layer(d, m2)),
{
    let k = d.len() as int;
    let head = (be16(d, 12) >> 12) * 4;
    alike_facts(bases, m1, m2);
    if k >= 20 && head >= 20 {
        let flags = be16(d, 12) & 0x0fff;
        let (sport, dport) = (be16(d, 0), be16(d, 2));
        let payload = if head < k {
            k - head
        } else {
            0
        };
        let (s1, s2) = (tcp::status_of(d, m1), tcp::status_of(d, m2));
        flow_agrees(bases, m1, m2, sport, dport, flags);
        let (x1, look) = tcp::flow(m1, sport, dport, flags);
        let x2 = tcp::flow(m2, sport, dport, flags).0;
        let stream = match look {
            Some(l) => Some(l.id),
            None => None,
        };
        header_agrees(bases, d, x1, x2, payload, stream, s1, s2);
        let h1 = tcp::header_fields(d, x1, payload, stream, s1);
        let h2 = tcp::header_fields(d, x2, payload, stream, s2);
        let (r1, r2) = (x1.count(), x2.count());
        assert(r1 == x1.set_protocol("tcp"@).set_info(tcp::info_text(d, flags, payload)).count()
            && r2 == x2.set_protocol("tcp"@).set_info(
            tcp::info_text(d, flags, payload),
        ).count()) by {
            broadcast use keeping_alike;

        }
        alike_facts(bases, h1, h2);
        if head <= k {
            with_options_agrees(bases, d, head as int, h1, h2);
            let (q1, scale) = with_options(d, head as int, h1);
            let q2 = with_options(d, head as int, h2).0;
            alike_facts(bases, q1, q2);
            let seg = tcp::segment_of(d, q1, payload, scale);
            assert(seg == tcp::segment_of(d, q2, payload, scale));
            with_analysis_agrees(bases, q1, q2, look, seg);
            let (u1, f) = with_analysis(q1, look, seg);
            let u2 = with_analysis(q2, look, seg).0;
            chained(bases, h1, h2, q1, q2, u1, u2);
            assert(level(bases, u1, r1, u2, r2));
            hand_on_agrees(
                bases,
                u1,
                r1,
                u2,
                r2,
                head as int,
                d.subrange(head as int, k),
                sport,
                dport,
                look,
                f,
                flags & 0x04 != 0,
            );
            let rest = d.subrange(head as int, k);
            let reset = flags & 0x04 != 0;
            assert(tcp::layer(d, m1).0 == tcp::hand_on(
                u1,
                r1,
                head as int,
                rest,
                sport,
                dport,
                look,
                f,
                reset,
            ));
            assert(tcp::layer(d, m2).0 == tcp::hand_on(
                u2,
                r2,
                head as int,
                rest,
                sport,
                dport,
                look,
                f,
                reset,
            ));
        }
    }
}

} // verus!

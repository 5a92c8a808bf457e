//! UDP and TCP.

use vstd::prelude::*;

use super::ops::{keeping_nested, moving};
use super::{begins, closed_in, fine, fits_all, kids, nests, opened, shut, wrote, wrote_on};
use crate::bytes::{be16, be32};
use crate::dissect::ctx::Model;
use crate::dissect::expert::Severity;
use crate::dissect::node::ValueView;
use crate::dissect::proto::{checked, tcp, udp};
use crate::dissect::reporting::transport::{dup_ack, maybe, with_analysis, with_options};
use crate::dissect::stream::desegment::{prefix_for, Origin, PrefixView};
use crate::dissect::stream::table::LookupView;
use crate::dissect::stream::tcp::{no_findings, Findings, Segment};
use crate::text::{dec, hex_pad};

verus! {

pub proof fn udp_nests(d: Seq<u8>, m: Model)
    requires
        begins(d, m),
    ensures
        nests(d, m, udp::layer(d, m)),
{
    let (sport, dport) = (be16(d, 0), be16(d, 2));
    let x = udp::flow(m, sport, dport).0;
    assert(wrote(m, x, m.base, m.base + d.len()) && x.trace.depth == m.trace.depth && fits_all(
        x,
        m.base,
        m.base + d.len(),
    )) by {
        broadcast use {keeping_nested, moving};

    }
    broadcast use {keeping_nested, moving};

}

proof fn flags_nest(m: Model, flags: u16, start: int, end: int, i: int)
    requires
        fits_all(m, start, end),
    ensures
        closed_in(m, tcp::flag_fields(m, flags, start, end, i), start, end),
    decreases tcp::FLAG_NAMES@.len() - i,
{
    broadcast use {keeping_nested, moving};

    if 0 <= i < tcp::FLAG_NAMES@.len() {
        let value = ValueView::Bool(flags & tcp::FLAG_NAMES@[i].0 != 0);
        flags_nest(m.leaf(tcp::FLAG_NAMES@[i].1@, start, end, value), flags, start, end, i + 1);
    }
}

proof fn blocks_nest(
    o: Seq<u8>,
    i: int,
    k: int,
    at: int,
    m: Model,
    shown: Seq<char>,
    lo: int,
    hi: int,
)
    requires
        fits_all(m, lo, hi),
        lo <= at + i,
        at + o.len() <= hi,
        i <= o.len(),
    ensures
        ({
            let x = tcp::sack_blocks(o, i, k, at, m, shown);
            &&& closed_in(m, x.0, lo, at + x.1)
            &&& i <= x.1 <= o.len()
        }),
    decreases k,
{
    broadcast use {keeping_nested, moving};

    if k > 0 && o.len() - i >= 8 {
        let (le, re) = (be32(o, i), be32(o, i + 4));
        let x = m.leaf(
            "tcp.options.sack_le"@,
            at + i,
            at + i + 4,
            ValueView::Unsigned(le as u64),
        ).leaf(
            "tcp.options.sack_re"@,
            at + i + 4,
            at + i + 8,
            ValueView::Unsigned(re as u64),
        );
        blocks_nest(
            o,
            i + 8,
            k - 1,
            at,
            x,
            shown + " "@ + dec(le as int) + "-"@ + dec(re as int),
            lo,
            hi,
        );
    }
}

proof fn option_body_nests(
    o: Seq<u8>,
    i: int,
    at: int,
    kind: u8,
    body: int,
    node: int,
    m: Model,
    lo: int,
    hi: int,
)
    requires
        fits_all(m, lo, hi),
        lo <= at + i,
        at + o.len() <= hi,
        0 <= i <= o.len(),
        0 <= body,
        0 <= node < m.count(),
    ensures
        ({
            let x = tcp::option_body(o, i, at, kind, body, node, m);
            &&& closed_in(m, x.0, lo, at + x.1)
            &&& i <= x.1 <= o.len()
        }),
{
    reveal_strlit("tcp.options.mss");
    reveal_strlit("tcp.options.wscale");
    reveal_strlit("tcp.options.sack_perm");
    reveal_strlit("tcp.options.sack");
    reveal_strlit("tcp.options.timestamp");
    reveal_strlit("tcp.options.unknown");
    let field = tcp::option_field(kind, body);
    assert(field == "tcp.options.mss"@ ==> body == 2) by {
        assert(field.len() == 15 ==> body == 2);
    }
    assert(field == "tcp.options.wscale"@ ==> body == 1) by {
        assert(field.len() == 18 ==> body == 1);
    }
    blocks_nest(o, i, body / 8, at, m, "SACK:"@, lo, hi);
    broadcast use {keeping_nested, moving};

}

proof fn option_nests(o: Seq<u8>, i: int, at: int, m: Model)
    requires
        fits_all(m, at, at + o.len()),
        m.trace.depth < 230,
        0 <= i < o.len(),
    ensures
        ({
            let x = tcp::option(o, i, at, m);
            &&& wrote(m, x.0, at, at + o.len())
            &&& x.0.trace.depth >= m.trace.depth
            &&& !(x.2 is Failed) ==> x.0.trace.depth == m.trace.depth
            &&& i <= x.1 <= o.len()
        }),
{
    let p = at + i;
    let kind = o[i];
    let end = at + o.len();
    let node = m.count();
    assert(wrote(m, m, at, end));
    if kind == 0 || kind == 1 {
        let field = if kind == 0 {
            "tcp.options.eol"@
        } else {
            "tcp.options.nop"@
        };
        let value = ValueView::Unsigned(kind as u64);
        let x = m.begin(field, p, p + 1).leaf("tcp.option_kind"@, p, p + 1, value);
        assert(wrote(m, x, at, end) && x.trace.depth == m.trace.depth + 1 && opened(
            x,
            m.trace.depth,
            node,
            m.source,
            p,
        ) && kids(x, node, m.source, p, p + 1)) by {
            broadcast use {keeping_nested, moving};

        }
        shut(m, x, node, p, p + 1, at, end);
    } else if i + 1 < o.len() && o[i + 1] >= 2 {
        let len = o[i + 1];
        let body = len - 2;
        let x = m.begin(tcp::option_field(kind, body), p, p).leaf(
            "tcp.option_kind"@,
            p,
            p + 1,
            ValueView::Unsigned(kind as u64),
        ).leaf("tcp.option_len"@, p + 1, p + 2, ValueView::Unsigned(len as u64));
        assert(wrote(m, x, at, end) && fits_all(x, at, end) && x.trace.depth == m.trace.depth + 1
            && opened(x, m.trace.depth, node, m.source, p) && node < x.count()) by {
            broadcast use {keeping_nested, moving};

        }
        option_body_nests(o, i + 2, at, kind, body, node, x, p, end);
        let (y, j, e) = tcp::option_body(o, i + 2, at, kind, body, node, x);
        assert(kids(x, node, m.source, p, at + j)) by {
            broadcast use {keeping_nested, moving};

        }
        wrote_on(m, x, y, at, end, p, at + j);
        assert(kids(y, node, m.source, p, at + j));
        assert(opened(y, m.trace.depth, node, m.source, p));
        shut(m, y, node, p, at + j, at, end);
    }
}

proof fn options_nest(o: Seq<u8>, i: int, at: int, m: Model, scale: Option<u8>)
    requires
        fits_all(m, at, at + o.len()),
        m.trace.depth < 230,
    ensures
        closed_in(m, tcp::options(o, i, at, m, scale).0, at, at + o.len()),
    decreases o.len() - i,
{
    let end = at + o.len();
    assert(wrote(m, m, at, end));
    if 0 <= i < o.len() {
        option_nests(o, i, at, m);
        let (next, j, step) = tcp::option(o, i, at, m);
        let known = if tcp::scale_at(o, i) is Some {
            tcp::scale_at(o, i)
        } else {
            scale
        };
        if step is Next && i < j <= o.len() {
            assert(fits_all(next, at, end));
            options_nest(o, j, at, next, known);
            wrote_on(m, next, tcp::options(o, j, at, next, known).0, at, end, at, end);
        } else {
            broadcast use {keeping_nested, moving};

        }
    }
}

proof fn finding_nests(
    m: Model,
    there: bool,
    abbrev: Seq<char>,
    severity: Severity,
    why: Seq<char>,
    lo: int,
    hi: int,
)
    requires
        fine(m),
        0 <= m.trace.depth < 240,
    ensures
        closed_in(m, maybe(m, there, abbrev, severity, why), lo, hi),
{
    broadcast use {keeping_nested, moving};

}

proof fn analysis_nests(m: Model, f: Findings, lo: int, hi: int)
    requires
        fine(m),
        0 <= m.trace.depth < 230,
    ensures
        closed_in(m, tcp::analysis(m, f), lo, hi),
{
    if f != no_findings() {
        let a = m.begin_text("tcp.analysis"@, 0, 0, "SEQ/ACK analysis"@);
        assert(wrote(m, a, lo, hi) && a.trace.depth == m.trace.depth + 1) by {
            broadcast use {keeping_nested, moving};

        }
        let b = match f.sequence {
            Some(s) => tcp::found(a, s.field(), s.weight(), s.sentence()),
            None => a,
        };
        if let Some(s) = f.sequence {
            finding_nests(a, true, s.field(), s.weight(), s.sentence(), lo, hi);
        }
        let c = match f.duplicate_ack {
            Some(d) => dup_ack(b, d),
            None => b,
        };
        assert(closed_in(b, c, lo, hi)) by {
            broadcast use {keeping_nested, moving};

        }
        let (field, why) = ("tcp.analysis.zero_window"@, tcp::ZERO_WINDOW@);
        finding_nests(c, f.zero_window, field, Severity::Warn, why, lo, hi);
        let d = maybe(c, f.zero_window, field, Severity::Warn, why);
        let (field, why) = ("tcp.analysis.window_full"@, tcp::WINDOW_FULL@);
        finding_nests(d, f.window_full, field, Severity::Note, why, lo, hi);
        let e = maybe(d, f.window_full, field, Severity::Note, why);
        let (field, why) = ("tcp.analysis.keep_alive"@, tcp::KEEP_ALIVE@);
        finding_nests(e, f.keep_alive, field, Severity::Note, why, lo, hi);
        let g = maybe(e, f.keep_alive, field, Severity::Note, why);
        let (field, why) = ("tcp.analysis.ack_lost_segment"@, tcp::ACK_LOST@);
        finding_nests(g, f.ack_lost_segment, field, Severity::Warn, why, lo, hi);
        let h = maybe(g, f.ack_lost_segment, field, Severity::Warn, why);
        let value = ValueView::Unsigned(f.bytes_in_flight as u64);
        let k = if f.bytes_in_flight > 0 {
            h.leaf("tcp.analysis.bytes_in_flight"@, 0, 0, value)
        } else {
            h
        };
        assert(closed_in(h, k, lo, hi)) by {
            broadcast use {keeping_nested, moving};

        }
        wrote_on(m, a, b, lo, hi, lo, hi);
        wrote_on(m, b, c, lo, hi, lo, hi);
        wrote_on(m, c, d, lo, hi, lo, hi);
        wrote_on(m, d, e, lo, hi, lo, hi);
        wrote_on(m, e, g, lo, hi, lo, hi);
        wrote_on(m, g, h, lo, hi, lo, hi);
        wrote_on(m, h, k, lo, hi, lo, hi);
        assert(closed_in(m, k.end(), lo, hi)) by {
            broadcast use {keeping_nested, moving};

        }
    }
}

proof fn header_nests(d: Seq<u8>, m: Model, payload: int, stream: Option<u32>, status: u64)
    requires
        begins(d, m),
        20 <= d.len(),
    ensures
        ({
            let x = tcp::header_fields(d, m, payload, stream, status);
            &&& wrote(m, x, m.base, m.base + 20)
            &&& x.trace.depth == m.trace.depth + 1
            &&& opened(x, m.trace.depth, m.count(), m.source, m.base)
            &&& kids(x, m.count(), m.source, m.base, m.base + 20)
            &&& fits_all(x, m.base, m.base + d.len())
        }),
{
    let a = m.base;
    assert forall|x: Model, flags: u16| fits_all(x, a + 12, a + 14) implies #[trigger] closed_in(
        x,
        tcp::flag_fields(x, flags, a + 12, a + 14, 0),
        a + 12,
        a + 14,
    ) by {
        flags_nest(x, flags, a + 12, a + 14, 0);
    }
    let flags = be16(d, 12) & 0x0fff;
    let hdr_len = (be16(d, 12) >> 12) * 4;
    let b = m.set_protocol("tcp"@).set_info(tcp::info_text(d, flags, payload)).begin(
        "tcp"@,
        a,
        a,
    ).leaf("tcp.srcport"@, a, a + 2, ValueView::Unsigned(be16(d, 0) as u64)).leaf(
        "tcp.dstport"@,
        a + 2,
        a + 4,
        ValueView::Unsigned(be16(d, 2) as u64),
    );
    let c = match stream {
        Some(id) => b.leaf("tcp.stream"@, 0, 0, ValueView::Unsigned(id as u64)),
        None => b,
    };
    let e = c.leaf("tcp.len"@, 0, 0, ValueView::Unsigned(payload as u64)).leaf(
        "tcp.seq"@,
        a + 4,
        a + 8,
        ValueView::Unsigned(be32(d, 4) as u64),
    ).leaf("tcp.ack"@, a + 8, a + 12, ValueView::Unsigned(be32(d, 8) as u64)).leaf(
        "tcp.hdr_len"@,
        a + 12,
        a + 13,
        ValueView::Unsigned(hdr_len as u64),
    ).begin_value_text(
        "tcp.flags"@,
        a + 12,
        a + 14,
        ValueView::Unsigned(flags as u64),
        "Flags: 0x"@ + hex_pad(flags as int, 3) + " ("@ + tcp::flags_shown(flags) + ")"@,
    );
    assert(wrote(m, c, a, a + 20) && c.trace.depth == m.trace.depth + 1 && opened(
        c,
        m.trace.depth,
        m.count(),
        m.source,
        a,
    ) && kids(c, m.count(), m.source, a, a + 20) && c.count() > m.count()) by {
        broadcast use {keeping_nested, moving};

    }
    assert(fits_all(c, a, a + d.len())) by {
        broadcast use {keeping_nested, moving};

    }
    assert(wrote(c, e, a, a + 20) && e.trace.depth == m.trace.depth + 2 && fits_all(
        e,
        a + 12,
        a + 14,
    )) by {
        broadcast use {keeping_nested, moving};

    }
    let f = tcp::flag_fields(e, flags, a + 12, a + 14, 0);
    flags_nest(e, flags, a + 12, a + 14, 0);
    wrote_on(c, e, f, a, a + 20, a + 12, a + 14);
    let g = f.end().leaf(
        "tcp.window_size_value"@,
        a + 14,
        a + 16,
        ValueView::Unsigned(be16(d, 14) as u64),
    ).leaf("tcp.checksum"@, a + 16, a + 18, ValueView::Unsigned(be16(d, 16) as u64));
    let h = checked(g, "tcp.checksum.status"@, a + 16, a + 18, status).leaf(
        "tcp.urgent_pointer"@,
        a + 18,
        a + 20,
        ValueView::Unsigned(be16(d, 18) as u64),
    );
    assert(wrote(c, h, a, a + 20) && h.trace.depth == m.trace.depth + 1) by {
        broadcast use {keeping_nested, moving};

    }
    wrote_on(m, c, h, a, a + 20, a, a + 20);
    assert(fits_all(h, a, a + d.len()));
    assert(kids(h, m.count(), m.source, a, a + 20));
    assert(h == tcp::header_fields(d, m, payload, stream, status));
}

proof fn with_options_nests(d: Seq<u8>, head: int, m: Model)
    requires
        fits_all(m, m.base, m.base + d.len()),
        m.trace.depth < 220,
        20 <= head <= d.len(),
    ensures
        closed_in(m, with_options(d, head, m).0, m.base, m.base + head),
{
    let a = m.base;
    let o = d.subrange(20, head);
    let x = m.begin_text(
        "tcp.options"@,
        a + 20,
        a + head,
        "Options: ("@ + dec(head - 20) + " bytes)"@,
    );
    assert(wrote(m, m, a, a + head));
    if head > 20 {
        assert(wrote(m, x, a, a + head) && x.trace.depth == m.trace.depth + 1 && fits_all(
            x,
            a + 20,
            a + head,
        )) by {
            broadcast use {keeping_nested, moving};

        }
        options_nest(o, 0, a + 20, x, None);
        let y = tcp::options(o, 0, a + 20, x, None).0;
        wrote_on(m, x, y, a, a + head, a + 20, a + head);
        assert(closed_in(m, y.end(), a, a + head)) by {
            broadcast use {keeping_nested, moving};

        }
    }
}

proof fn with_analysis_nests(
    m: Model,
    look: Option<LookupView>,
    seg: Segment,
    lo: int,
    hi: int,
)
    requires
        fine(m),
        0 <= m.trace.depth < 230,
    ensures
        closed_in(m, with_analysis(m, look, seg).0, lo, hi),
{
    if let Some(l) = look {
        let (x, f) = m.analyse(l.key, l.direction, seg);
        assert(closed_in(m, x, lo, hi)) by {
            broadcast use {keeping_nested, moving};

        }
        analysis_nests(x, f, lo, hi);
        wrote_on(m, x, tcp::analysis(x, f), lo, hi, lo, hi);
    } else {
        analysis_nests(m, no_findings(), lo, hi);
    }
}

proof fn hand_on_nests(
    m: Model,
    x: Model,
    head: int,
    payload: Seq<u8>,
    sport: u16,
    dport: u16,
    look: Option<LookupView>,
    f: Findings,
    reset: bool,
    hi: int,
)
    requires
        wrote(m, x, m.base, hi),
        x.trace.depth == m.trace.depth + 1,
        opened(x, m.trace.depth, m.count(), m.source, m.base),
        kids(x, m.count(), m.source, m.base, m.base + head),
        fits_all(m, m.base, hi),
        0 <= head,
        m.base + head + payload.len() <= hi,
        fits_all(x, m.base, hi),
    ensures
        wrote(
            m,
            tcp::hand_on(x, m.count(), head, payload, sport, dport, look, f, reset),
            m.base,
            hi,
        ),
{
    let a = m.base;
    let id = m.count();
    let end = a + head + payload.len();
    let next = tcp::next_by_payload(payload, sport, dport);
    let here = Origin { proto: next, first_frame: x.frame_number, frames: 1 };
    shut(m, x, id, a, a + head, a, hi);
    let dropped = x.drop_held().with_origin(None);
    assert(wrote(m, dropped, a, hi) && dropped.trace.depth == x.trace.depth && opened(
        dropped,
        m.trace.depth,
        id,
        m.source,
        a,
    ) && kids(dropped, id, m.source, a, a + head)) by {
        broadcast use {keeping_nested, moving};

    }
    shut(m, dropped, id, a, a + head, a, hi);
    if let Some(look) = look {
        let taken = x.take_held(look.id, look.direction);
        let kept = taken.with_origin(Some(here));
        assert(wrote(m, kept, a, hi) && kept.trace.depth == x.trace.depth && opened(
            kept,
            m.trace.depth,
            id,
            m.source,
            a,
        ) && kids(kept, id, m.source, a, a + head)) by {
            broadcast use {keeping_nested, moving};

        }
        shut(m, kept, id, a, a + head, a, hi);
        let prefix = prefix_for(x.state.desegment, look.id, look.direction, payload, x.ts);
        if let PrefixView::Combined { bytes, origin } = prefix {
            let told = taken.with_origin(Some(origin)).leaf(
                "tcp.payload"@,
                a + head,
                end,
                ValueView::Bytes,
            );
            assert(kids(x, id, m.source, a, end)) by {
                reveal(kids);
            }
            assert(wrote(m, told, a, hi) && told.trace.depth == x.trace.depth && opened(
                told,
                m.trace.depth,
                id,
                m.source,
                a,
            ) && kids(told, id, m.source, a, end)) by {
                broadcast use {keeping_nested, moving};

            }
            shut(m, told, id, a, end, a, hi);
            let done = told.end_at(id, end);
            let last = done.add_source(bytes).call_next_in_source(
                origin.proto,
                done.next_source(),
            );
            assert(wrote(m, last, a, hi)) by {
                reveal(Model::add_source);
                reveal(Model::call_next_in_source);
                broadcast use {keeping_nested, moving};

            }
        }
    }
    broadcast use {keeping_nested, moving};

}

proof fn flow_nests(m: Model, sport: u16, dport: u16, flags: u16, lo: int, hi: int)
    requires
        fits_all(m, lo, hi),
    ensures
        closed_in(m, tcp::flow(m, sport, dport, flags).0, lo, hi),
        fits_all(tcp::flow(m, sport, dport, flags).0, lo, hi),
        tcp::flow(m, sport, dport, flags).0.count() == m.count(),
{
    broadcast use {keeping_nested, moving};

}

pub proof fn tcp_nests(d: Seq<u8>, m: Model)
    requires
        begins(d, m),
    ensures
        nests(d, m, tcp::layer(d, m)),
{
    let k = d.len() as int;
    let head = (be16(d, 12) >> 12) * 4;
    let a = m.base;
    assert(wrote(m, m, a, a + k));
    if k >= 20 && head >= 20 {
        let flags = be16(d, 12) & 0x0fff;
        let (sport, dport) = (be16(d, 0), be16(d, 2));
        let payload = if head < k {
            k - head
        } else {
            0
        };
        let status = tcp::status_of(d, m);
        flow_nests(m, sport, dport, flags, a, a + k);
        let (x, look) = tcp::flow(m, sport, dport, flags);
        let stream = match look {
            Some(l) => Some(l.id),
            None => None,
        };
        header_nests(d, x, payload, stream, status);
        let h = tcp::header_fields(d, x, payload, stream, status);
        wrote_on(m, x, h, a, a + k, a, a + 20);
        let r = x.count();
        assert(r == x.set_protocol("tcp"@).set_info(
            tcp::info_text(d, flags, payload),
        ).count()) by {
            broadcast use {keeping_nested, moving};

        }
        if head <= k {
            with_options_nests(d, head as int, h);
            let (q, scale) = with_options(d, head as int, h);
            let seg = tcp::segment_of(d, q, payload, scale);
            with_analysis_nests(q, look, seg, a, a + head);
            let (u, f) = with_analysis(q, look, seg);
            wrote_on(h, q, u, a, a + head, a, a + head);
            wrote_on(m, h, u, a, a + k, a, a + head);
            assert(kids(h, r, m.source, a, a + head)) by {
                reveal(kids);
            }
            assert(kids(u, r, m.source, a, a + head));
            assert(opened(u, m.trace.depth, r, m.source, a));
            assert(fits_all(u, a, a + k));
            let rest = d.subrange(head as int, k);
            let reset = flags & 0x04 != 0;
            hand_on_nests(
                m,
                u,
                head as int,
                rest,
                sport,
                dport,
                look,
                f,
                reset,
                a + k,
            );
            assert(tcp::layer(d, m).0 == tcp::hand_on(
                u,
                r,
                head as int,
                rest,
                sport,
                dport,
                look,
                f,
                reset,
            ));
        } else {
            assert(tcp::layer(d, m).0 == h);
            assert(opened(h, m.trace.depth, m.count(), m.source, a));
        }
    }
}

} // verus!

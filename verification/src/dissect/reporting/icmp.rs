//! ICMP, and the packets that its messages quote.

use vstd::prelude::*;

use super::link::data_agrees;
use super::network::ipv4_agrees;
use super::ops::keeping_alike;
use super::transport::{tcp_agrees, udp_agrees};
use super::{agree, alike, alike_facts, start_alike, Bases};
use crate::bytes::be16;
use crate::dissect::ctx::{Model, Proto};
use crate::dissect::cursor::SourceId;
use crate::dissect::node::ValueView;
use crate::dissect::proto::checked;
use crate::dissect::proto::icmp::{
    detail_of, error_fields, is_error, layer, layer_at, quote, quoted, quoted_layer, quoted_slice,
    status_of, MAX_NESTING,
};
use crate::dissect::registry::named_or;
use crate::dissect::tables::ICMP_TYPES;

verus! {

pub proof fn quoted_layer_agrees(
    bases: Bases,
    proto: Proto,
    slice: Seq<u8>,
    m1: Model,
    m2: Model,
    deep: u8,
)
    requires
        start_alike(bases, m1, m2),
        m1.trace.depth < 180 + 2 * deep,
        deep <= MAX_NESTING,
    ensures
        agree(
            bases,
            m1.trace.depth,
            quoted_layer(proto, slice, m1, deep),
            quoted_layer(proto, slice, m2, deep),
        ),
    decreases 3 - deep, 2int,
{
    match proto {
        Proto::Ipv4 => ipv4_agrees(bases, slice, m1, m2),
        Proto::Tcp => tcp_agrees(bases, slice, m1, m2),
        Proto::Udp => udp_agrees(bases, slice, m1, m2),
        Proto::Icmp => message_agrees(bases, slice, m1, m2, deep),
        _ => data_agrees(bases, slice, m1, m2),
    }
}

pub proof fn quoted_agrees(
    bases: Bases,
    k: nat,
    d: Seq<u8>,
    base: int,
    source: SourceId,
    proto: Proto,
    offset: int,
    len: Option<usize>,
    deep: u8,
    m1: Model,
    m2: Model,
)
    requires
        alike(bases, m1, m2),
        0 <= offset,
        0 <= m1.trace.depth < 180 + 2 * deep,
        0 < deep,
    ensures
        ({
            let q1 = quoted(k, d, base, source, proto, offset, len, deep, m1);
            let q2 = quoted(k, d, base, source, proto, offset, len, deep, m2);
            &&& alike(bases, q1, q2)
            &&& q1.trace.depth == m1.trace.depth
        }),
    decreases 3 - deep, 2 + k,
{
    if k > 0 && deep <= MAX_NESTING {
        let end = base + d.len();
        let slice = quoted_slice(d, base, offset, len);
        let x1 = m1.nested(deep).with_base(offset);
        let x2 = m2.nested(deep).with_base(offset);
        assert(start_alike(bases, x1, x2) && x1.trace.depth == m1.trace.depth && m1.trace.depth
            == m2.trace.depth) by {
            broadcast use keeping_alike;

        }
        quoted_layer_agrees(bases, proto, slice, x1, x2, deep);
        let (a1, e) = quoted_layer(proto, slice, x1, deep);
        let a2 = quoted_layer(proto, slice, x2, deep).0;
        alike_facts(bases, a1, a2);
        if e is None {
            let (t1, t2) = (a1.next_taken(), a2.next_taken());
            assert(alike(bases, t1, t2) && t1.trace.depth == a1.trace.depth) by {
                broadcast use keeping_alike;

            }
            if let Some(h) = a1.next {
                if h.source == source && base <= h.offset < end {
                    quoted_agrees(
                        bases,
                        (k - 1) as nat,
                        d,
                        base,
                        source,
                        h.proto,
                        h.offset as int,
                        h.len,
                        deep,
                        t1,
                        t2,
                    );
                }
            }
        } else {
            broadcast use keeping_alike;

        }
    }
}

proof fn error_fields_agree(bases: Bases, d: Seq<u8>, m1: Model, m2: Model)
    requires
        alike(bases, m1, m2),
    ensures
        alike(bases, error_fields(d, m1), error_fields(d, m2)),
        error_fields(d, m1).trace.depth == m1.trace.depth,
{
    broadcast use keeping_alike;

}

pub proof fn quote_agrees(bases: Bases, d: Seq<u8>, base: int, deep: u8, m1: Model, m2: Model)
    requires
        alike(bases, m1, m2),
        0 <= base,
        0 <= m1.trace.depth < 182 + 2 * deep,
        deep < MAX_NESTING,
    ensures
        alike(bases, quote(d, base, deep, m1), quote(d, base, deep, m2)),
        quote(d, base, deep, m1).trace.depth == m1.trace.depth,
    decreases 3 - deep, 0int,
{
    alike_facts(bases, m1, m2);
    let next = (deep + 1) as u8;
    quoted_agrees(bases, 4, d, base, m1.source, Proto::Ipv4, base, None, next, m1, m2);
    let q1 = quoted(4, d, base, m1.source, Proto::Ipv4, base, None, next, m1);
    let q2 = quoted(4, d, base, m1.source, Proto::Ipv4, base, None, next, m2);
    assert(alike(bases, q1.with_base(m1.base).nested(deep), q2.with_base(m2.base).nested(deep))
        && q1.with_base(m1.base).nested(deep).trace.depth == m1.trace.depth) by {
        broadcast use keeping_alike;

    }
}

proof fn message_agrees(bases: Bases, d: Seq<u8>, m1: Model, m2: Model, deep: u8)
    requires
        start_alike(bases, m1, m2),
        m1.trace.depth < 180 + 2 * deep,
    ensures
        agree(bases, m1.trace.depth, layer_at(d, m1, deep), layer_at(d, m2, deep)),
    decreases 3 - deep, 1int,
{
    alike_facts(bases, m1, m2);
    let a = m1.base;
    let k = d.len() as int;
    if k >= 4 {
        let (ty, code) = (d[0], d[1]);
        let x1 = m1.set_protocol("icmp"@).begin("icmp"@, a, a + k).leaf(
            "icmp.type"@,
            a,
            a + 1,
            ValueView::Unsigned(ty as u64),
        ).leaf("icmp.code"@, a + 1, a + 2, ValueView::Unsigned(code as u64)).leaf(
            "icmp.checksum"@,
            a + 2,
            a + 4,
            ValueView::Unsigned(be16(d, 2) as u64),
        );
        let x2 = m2.set_protocol("icmp"@).begin("icmp"@, a, a + k).leaf(
            "icmp.type"@,
            a,
            a + 1,
            ValueView::Unsigned(ty as u64),
        ).leaf("icmp.code"@, a + 1, a + 2, ValueView::Unsigned(code as u64)).leaf(
            "icmp.checksum"@,
            a + 2,
            a + 4,
            ValueView::Unsigned(be16(d, 2) as u64),
        );
        let y1 = checked(x1, "icmp.checksum.status"@, a + 2, a + 4, status_of(d, m1));
        let y2 = checked(x2, "icmp.checksum.status"@, a + 2, a + 4, status_of(d, m2));
        assert(alike(bases, y1, y2) && y1.trace.depth == m1.trace.depth + 1) by {
            broadcast use keeping_alike;

        }
        if is_error(ty) && k >= 8 {
            let kind = named_or(ICMP_TYPES@, ty as u64, "Unknown"@);
            error_fields_agree(bases, d, y1, y2);
            let z1 = error_fields(d, y1).set_info(detail_of(ty, code, kind));
            let z2 = error_fields(d, y2).set_info(detail_of(ty, code, kind));
            assert(alike(bases, z1, z2) && z1.trace.depth == m1.trace.depth + 1) by {
                broadcast use keeping_alike;

            }
            alike_facts(bases, z1, z2);
            let rest = d.subrange(8, k);
            let (q1, q2) = if deep < MAX_NESTING {
                quote_agrees(bases, rest, a + 8, deep, z1, z2);
                (quote(rest, a + 8, deep, z1), quote(rest, a + 8, deep, z2))
            } else {
                (z1, z2)
            };
            let k1 = z1.protocols.len() as int;
            let w1 = q1.with_summary(z1.summary).with_addrs(z1.addrs).truncate_protocols(k1);
            let w2 = q2.with_summary(z2.summary).with_addrs(z2.addrs).truncate_protocols(k1);
            assert(alike(bases, w1.end(), w2.end()) && w1.end().trace.depth == m1.trace.depth) by {
                broadcast use keeping_alike;

            }
            assert(alike(bases, z1.end(), z2.end()) && z1.end().trace.depth == m1.trace.depth) by {
                broadcast use keeping_alike;

            }
        } else {
            broadcast use keeping_alike;

        }
    }
}

pub proof fn layer_agrees(bases: Bases, d: Seq<u8>, m1: Model, m2: Model)
    requires
        start_alike(bases, m1, m2),
        m1.trace.depth < 180,
    ensures
        agree(bases, m1.trace.depth, layer(d, m1), layer(d, m2)),
{
    alike_facts(bases, m1, m2);
    message_agrees(bases, d, m1, m2, m1.nesting);
}

} // verus!

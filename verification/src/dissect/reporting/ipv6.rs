//! IPv6 and its extension headers.

use vstd::prelude::*;

use super::ops::keeping_alike;
use super::{
    added, agree, alike, alike_facts, carries, chained, ends_by, level, start_alike, Bases,
};
use crate::bytes::{be16, be32};
use crate::dissect::ctx::{AddrsView, Model};
use crate::dissect::node::ValueView;
use crate::dissect::proto::ipv6::{
    claimed, extensions, fragment_header, layer, option, options, options_header, route,
    routing_header, Extension, MAX_EXT_HEADERS,
};
use crate::dissect::AddrView;
use crate::text::dec;

verus! {

/// An extension header read in both.
spec fn read_alike(bases: Bases, m1: Model, m2: Model, x: Extension, y: Extension) -> bool {
    &&& alike(bases, x.m, y.m)
    &&& carries(bases, m1, m2, x.m, y.m)
    &&& x.error is None ==> x.m.trace.depth == m1.trace.depth
    &&& x.at == y.at
    &&& x.next == y.next
    &&& x.fragment == y.fragment
    &&& x.error == y.error
}

proof fn option_agrees(bases: Bases, o: Seq<u8>, i: int, at: int, m1: Model, m2: Model)
    requires
        alike(bases, m1, m2),
        0 <= m1.trace.depth < 230,
    ensures
        added(bases, m1, m2, option(o, i, at, m1).0, option(o, i, at, m2).0),
        option(o, i, at, m1).1 == option(o, i, at, m2).1,
        option(o, i, at, m1).2 == option(o, i, at, m2).2,
{
    broadcast use keeping_alike;

}

proof fn options_agree(bases: Bases, o: Seq<u8>, i: int, at: int, m1: Model, m2: Model)
    requires
        alike(bases, m1, m2),
        0 <= m1.trace.depth < 230,
    ensures
        added(bases, m1, m2, options(o, i, at, m1), options(o, i, at, m2)),
    decreases o.len() - i,
{
    if 0 <= i < o.len() {
        option_agrees(bases, o, i, at, m1, m2);
        let (next, j, e) = option(o, i, at, m1);
        let next2 = option(o, i, at, m2).0;
        if e is None && i < j <= o.len() {
            options_agree(bases, o, j, at, next, next2);
        } else {
            broadcast use keeping_alike;

        }
    }
}

/// The row of an options header, open.
pub open spec fn options_head(p: Seq<u8>, i: int, at: int, kind: u8, m: Model) -> Model {
    let s = at + i;
    let (nxt, hlen) = (p[i], p[i + 1]);
    let total = claimed(hlen);
    if kind == 0 {
        m.begin_text(
            "ipv6.hopopts"@,
            s,
            s,
            "Hop-by-Hop Options"@ + " ("@ + dec(total) + " bytes)"@,
        ).leaf("ipv6.hopopts.nxt"@, s, s + 1, ValueView::Unsigned(nxt as u64)).leaf(
            "ipv6.hopopts.len"@,
            s + 1,
            s + 2,
            ValueView::Unsigned(hlen as u64),
        )
    } else {
        m.begin_text(
            "ipv6.dstopts"@,
            s,
            s,
            "Destination Options"@ + " ("@ + dec(total) + " bytes)"@,
        ).leaf("ipv6.dstopts.nxt"@, s, s + 1, ValueView::Unsigned(nxt as u64)).leaf(
            "ipv6.dstopts.len"@,
            s + 1,
            s + 2,
            ValueView::Unsigned(hlen as u64),
        )
    }
}

proof fn options_header_agrees(
    bases: Bases,
    p: Seq<u8>,
    i: int,
    at: int,
    kind: u8,
    m1: Model,
    m2: Model,
)
    requires
        alike(bases, m1, m2),
        0 <= m1.trace.depth < 220,
    ensures
        read_alike(
            bases,
            m1,
            m2,
            options_header(p, i, at, kind, m1),
            options_header(p, i, at, kind, m2),
        ),
{
    if p.len() - i >= 2 {
        let s = at + i;
        let total = claimed(p[i + 1]);
        let (n1, n2) = (m1.count(), m2.count());
        let h1 = options_head(p, i, at, kind, m1);
        let h2 = options_head(p, i, at, kind, m2);
        assert(alike(bases, h1, h2) && carries(bases, m1, m2, h1, h2) && level(
            bases,
            h1,
            n1,
            h2,
            n2,
        ) && n1 < h1.count() && n2 < h2.count() && h1.trace.depth == m1.trace.depth + 1) by {
            broadcast use keeping_alike;

        }
        assert(ends_by(h1, n1, s + 2) && ends_by(h2, n2, s + 2) && ends_by(h1, n1, s + total)
            && ends_by(h2, n2, s + total)) by {
            broadcast use keeping_alike;

        }
        if p.len() - i < total {
            broadcast use keeping_alike;

        } else {
            let o = p.subrange(i + 2, i + total);
            options_agree(bases, o, 0, s + 2, h1, h2);
            let (o1, o2) = (options(o, 0, s + 2, h1), options(o, 0, s + 2, h2));
            chained(bases, m1, m2, h1, h2, o1, o2);
            assert(level(bases, o1, n1, o2, n2));
            assert(ends_by(o1, n1, s + total) && ends_by(o2, n2, s + total));
            let (z1, z2) = (o1.end_at(n1, s + total), o2.end_at(n2, s + total));
            assert(alike(bases, z1, z2) && carries(bases, m1, m2, z1, z2) && z1.trace.depth
                == m1.trace.depth) by {
                broadcast use keeping_alike;

            }
        }
    }
}

proof fn route_agrees(bases: Bases, b: Seq<u8>, i: int, at: int, m1: Model, m2: Model)
    requires
        alike(bases, m1, m2),
    ensures
        added(bases, m1, m2, route(b, i, at, m1), route(b, i, at, m2)),
    decreases b.len() - i,
{
    broadcast use keeping_alike;

    if 0 <= i && i + 16 <= b.len() {
        let value = ValueView::Ipv6(b.subrange(i, i + 16));
        let x1 = m1.leaf("ipv6.routing.addr"@, at + i, at + i + 16, value);
        let x2 = m2.leaf("ipv6.routing.addr"@, at + i, at + i + 16, value);
        route_agrees(bases, b, i + 16, at, x1, x2);
    }
}

/// The row of a routing header, open.
pub open spec fn routing_head(p: Seq<u8>, i: int, at: int, m: Model) -> Model {
    let s = at + i;
    let (nxt, hlen, ty, seg) = (p[i], p[i + 1], p[i + 2], p[i + 3]);
    m.begin_text(
        "ipv6.routing"@,
        s,
        s,
        "Routing Header, Type "@ + dec(ty as int) + ", Segments Left "@ + dec(seg as int),
    ).leaf("ipv6.routing.nxt"@, s, s + 1, ValueView::Unsigned(nxt as u64)).leaf(
        "ipv6.routing.len"@,
        s + 1,
        s + 2,
        ValueView::Unsigned(hlen as u64),
    ).leaf("ipv6.routing.type"@, s + 2, s + 3, ValueView::Unsigned(ty as u64)).leaf(
        "ipv6.routing.segleft"@,
        s + 3,
        s + 4,
        ValueView::Unsigned(seg as u64),
    )
}

/// What a routing header holds.
pub open spec fn routing_body(b: Seq<u8>, ty: u8, s: int, total: int, m: Model) -> Model {
    if ty == 0 || ty == 2 || ty == 4 {
        route(b, 4, s + 4, m.leaf("ipv6.routing.data"@, s + 4, s + 8, ValueView::Bytes))
    } else {
        m.leaf("ipv6.routing.data"@, s + 4, s + total, ValueView::Bytes)
    }
}

proof fn routing_body_agrees(
    bases: Bases,
    b: Seq<u8>,
    ty: u8,
    s: int,
    total: int,
    m1: Model,
    m2: Model,
)
    requires
        alike(bases, m1, m2),
    ensures
        added(bases, m1, m2, routing_body(b, ty, s, total, m1), routing_body(b, ty, s, total, m2)),
{
    broadcast use keeping_alike;

    let x1 = m1.leaf("ipv6.routing.data"@, s + 4, s + 8, ValueView::Bytes);
    let x2 = m2.leaf("ipv6.routing.data"@, s + 4, s + 8, ValueView::Bytes);
    assert(added(bases, m1, m2, x1, x2));
    route_agrees(bases, b, 4, s + 4, x1, x2);
    chained(bases, m1, m2, x1, x2, route(b, 4, s + 4, x1), route(b, 4, s + 4, x2));
}

proof fn routing_header_agrees(bases: Bases, p: Seq<u8>, i: int, at: int, m1: Model, m2: Model)
    requires
        alike(bases, m1, m2),
        0 <= m1.trace.depth < 220,
    ensures
        read_alike(bases, m1, m2, routing_header(p, i, at, m1), routing_header(p, i, at, m2)),
{
    if p.len() - i >= 4 {
        let s = at + i;
        let ty = p[i + 2];
        let total = claimed(p[i + 1]);
        let (n1, n2) = (m1.count(), m2.count());
        let (h1, h2) = (routing_head(p, i, at, m1), routing_head(p, i, at, m2));
        assert(alike(bases, h1, h2) && carries(bases, m1, m2, h1, h2) && level(
            bases,
            h1,
            n1,
            h2,
            n2,
        ) && n1 < h1.count() && n2 < h2.count() && h1.trace.depth == m1.trace.depth + 1) by {
            broadcast use keeping_alike;

        }
        assert(ends_by(h1, n1, s + 4) && ends_by(h2, n2, s + 4) && ends_by(h1, n1, s + total)
            && ends_by(h2, n2, s + total)) by {
            broadcast use keeping_alike;

        }
        if p.len() - i < total {
            broadcast use keeping_alike;

        } else {
            let b = p.subrange(i + 4, i + total);
            routing_body_agrees(bases, b, ty, s, total, h1, h2);
            let o1 = routing_body(b, ty, s, total, h1);
            let o2 = routing_body(b, ty, s, total, h2);
            chained(bases, m1, m2, h1, h2, o1, o2);
            assert(level(bases, o1, n1, o2, n2));
            assert(ends_by(o1, n1, s + total) && ends_by(o2, n2, s + total));
            let (z1, z2) = (o1.end_at(n1, s + total), o2.end_at(n2, s + total));
            assert(alike(bases, z1, z2) && carries(bases, m1, m2, z1, z2) && z1.trace.depth
                == m1.trace.depth) by {
                broadcast use keeping_alike;

            }
        }
    }
}

proof fn fragment_header_agrees(bases: Bases, p: Seq<u8>, i: int, at: int, m1: Model, m2: Model)
    requires
        alike(bases, m1, m2),
        0 <= m1.trace.depth < 220,
    ensures
        read_alike(bases, m1, m2, fragment_header(p, i, at, m1), fragment_header(p, i, at, m2)),
{
    broadcast use keeping_alike;

}

proof fn extensions_agree(
    bases: Bases,
    k: nat,
    p: Seq<u8>,
    i: int,
    at: int,
    next: u8,
    fragment: bool,
    m1: Model,
    m2: Model,
)
    requires
        alike(bases, m1, m2),
        0 <= m1.trace.depth < 220,
    ensures
        read_alike(
            bases,
            m1,
            m2,
            extensions(k, p, i, at, next, fragment, m1),
            extensions(k, p, i, at, next, fragment, m2),
        ),
    decreases k,
{
    if k > 0 && (next == 0 || next == 60 || next == 43 || next == 44) {
        let (x, y) = if next == 43 {
            routing_header_agrees(bases, p, i, at, m1, m2);
            (routing_header(p, i, at, m1), routing_header(p, i, at, m2))
        } else if next == 44 {
            fragment_header_agrees(bases, p, i, at, m1, m2);
            (fragment_header(p, i, at, m1), fragment_header(p, i, at, m2))
        } else {
            options_header_agrees(bases, p, i, at, next, m1, m2);
            (options_header(p, i, at, next, m1), options_header(p, i, at, next, m2))
        };
        if x.error is None {
            let f = if next == 44 {
                x.fragment
            } else {
                fragment
            };
            extensions_agree(bases, (k - 1) as nat, p, x.at, at, x.next, f, x.m, y.m);
            let u = extensions((k - 1) as nat, p, x.at, at, x.next, f, x.m);
            let v = extensions((k - 1) as nat, p, x.at, at, x.next, f, y.m);
            chained(bases, m1, m2, x.m, y.m, u.m, v.m);
        }
    }
}

/// The fixed header, its row open.
pub open spec fn fixed_header(d: Seq<u8>, m: Model) -> Model {
    let a = m.base;
    let vtf = be32(d, 0);
    let src = d.subrange(8, 24);
    let dst = d.subrange(24, 40);
    m.set_protocol("ipv6"@).between(AddrView::Ipv6(src), AddrView::Ipv6(dst)).with_addrs(
        Some(AddrsView::V6(src, dst)),
    ).begin("ipv6"@, a, a).leaf(
        "ipv6.version"@,
        a,
        a + 4,
        ValueView::Unsigned((vtf >> 28) as u64),
    ).leaf("ipv6.tclass"@, a, a + 4, ValueView::Unsigned(((vtf >> 20) & 0xff) as u64)).leaf(
        "ipv6.flow"@,
        a,
        a + 4,
        ValueView::Unsigned((vtf & 0x000f_ffff) as u64),
    ).leaf("ipv6.plen"@, a + 4, a + 6, ValueView::Unsigned(be16(d, 4) as u64)).leaf(
        "ipv6.nxt"@,
        a + 6,
        a + 7,
        ValueView::Unsigned(d[6] as u64),
    ).leaf("ipv6.hlim"@, a + 7, a + 8, ValueView::Unsigned(d[7] as u64)).leaf(
        "ipv6.src"@,
        a + 8,
        a + 24,
        ValueView::Ipv6(src),
    ).leaf("ipv6.dst"@, a + 24, a + 40, ValueView::Ipv6(dst))
}

/// The position of the row of the packet.
pub open spec fn own_row(d: Seq<u8>, m: Model) -> int {
    let src = d.subrange(8, 24);
    let dst = d.subrange(24, 40);
    m.set_protocol("ipv6"@).between(AddrView::Ipv6(src), AddrView::Ipv6(dst)).with_addrs(
        Some(AddrsView::V6(src, dst)),
    ).count()
}

pub proof fn ipv6_agrees(bases: Bases, d: Seq<u8>, m1: Model, m2: Model)
    requires
        start_alike(bases, m1, m2),
    ensures
        agree(bases, m1.trace.depth, layer(d, m1), layer(d, m2)),
{
    alike_facts(bases, m1, m2);
    let n = d.len() as int;
    if n >= 40 && be32(d, 0) >> 28 == 6 {
        let a = m1.base;
        let (h1, h2) = (fixed_header(d, m1), fixed_header(d, m2));
        let (n1, n2) = (own_row(d, m1), own_row(d, m2));
        let plen = be16(d, 4);
        let len = if plen < n - 40 {
            plen as int
        } else {
            n - 40
        };
        let end = a + 40 + len;
        assert(alike(bases, h1, h2) && level(bases, h1, n1, h2, n2) && n1 < h1.count() && n2
            < h2.count() && h1.trace.depth == m1.trace.depth + 1 && ends_by(h1, n1, end)
            && ends_by(h2, n2, end)) by {
            broadcast use keeping_alike;

        }
        let k = MAX_EXT_HEADERS as nat;
        let part = d.subrange(40, 40 + len);
        extensions_agree(bases, k, part, 0, a + 40, d[6], false, h1, h2);
        let x = extensions(k, part, 0, a + 40, d[6], false, h1);
        let y = extensions(k, part, 0, a + 40, d[6], false, h2);
        if x.error is None {
            assert(level(bases, x.m, n1, y.m, n2));
            assert(ends_by(x.m, n1, end) && ends_by(y.m, n2, end));
            let (z1, z2) = (x.m.end_at(n1, end), y.m.end_at(n2, end));
            assert(alike(bases, z1, z2) && z1.trace.depth == m1.trace.depth) by {
                broadcast use keeping_alike;

            }
            broadcast use keeping_alike;

        }
    }
}

} // verus!

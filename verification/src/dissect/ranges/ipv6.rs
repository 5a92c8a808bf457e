//! IPv6 and its extension headers.

use vstd::prelude::*;

use super::names::ipv6_names;
use super::{keeping_inside, nothing_written, ready, space, within};
use crate::dissect::ctx::Model;
use crate::dissect::node::ValueView;
use crate::dissect::proto::ipv6::{
    claimed, extensions, fragment_header, layer, option, options, options_header, route,
    routing_header, MAX_EXT_HEADERS,
};
use crate::text::dec;

verus! {

proof fn option_stays(m0: Model, o: Seq<u8>, i: int, at: int, m: Model, n: int)
    requires
        within(m0, m, n),
        0 <= i < o.len(),
        0 <= at,
        at + o.len() <= space(m0, n),
    ensures
        within(m0, option(o, i, at, m).0, n),
        option(o, i, at, m).0.count() >= m.count(),
        i < option(o, i, at, m).1 <= o.len(),
{
    broadcast use keeping_inside;

    ipv6_names();
}

proof fn options_stay(m0: Model, o: Seq<u8>, i: int, at: int, m: Model, n: int)
    requires
        within(m0, m, n),
        0 <= at,
        at + o.len() <= space(m0, n),
    ensures
        within(m0, options(o, i, at, m), n),
        options(o, i, at, m).count() >= m.count(),
    decreases o.len() - i,
{
    ipv6_names();
    if 0 <= i < o.len() {
        option_stays(m0, o, i, at, m, n);
        let (next, j, e) = option(o, i, at, m);
        if e is None && i < j <= o.len() {
            options_stay(m0, o, j, at, next, n);
        } else {
            broadcast use keeping_inside;

        }
    }
}

proof fn options_header_stays(m0: Model, p: Seq<u8>, i: int, at: int, kind: u8, m: Model, n: int)
    requires
        within(m0, m, n),
        0 <= i <= p.len(),
        0 <= at,
        at + p.len() <= space(m0, n),
    ensures
        within(m0, options_header(p, i, at, kind, m).m, n),
        options_header(p, i, at, kind, m).m.count() >= m.count(),
        i <= options_header(p, i, at, kind, m).at <= p.len(),
{
    broadcast use keeping_inside;

    ipv6_names();
    assert forall|o: Seq<u8>, s: int, x: Model|
        within(m0, x, n) && 0 <= s && s + o.len() <= space(m0, n) implies #[trigger] within(
        m0,
        options(o, 0, s, x),
        n,
    ) && options(o, 0, s, x).count() >= x.count() by {
        options_stay(m0, o, 0, s, x, n);
    }
    if p.len() - i >= 2 {
        let s = at + i;
        let (nxt, hlen) = (p[i], p[i + 1]);
        let total = claimed(hlen);
        let hop = m.begin_text(
            "ipv6.hopopts"@,
            s,
            s,
            "Hop-by-Hop Options"@ + " ("@ + dec(total) + " bytes)"@,
        ).leaf("ipv6.hopopts.nxt"@, s, s + 1, ValueView::Unsigned(nxt as u64)).leaf(
            "ipv6.hopopts.len"@,
            s + 1,
            s + 2,
            ValueView::Unsigned(hlen as u64),
        );
        let dst = m.begin_text(
            "ipv6.dstopts"@,
            s,
            s,
            "Destination Options"@ + " ("@ + dec(total) + " bytes)"@,
        ).leaf("ipv6.dstopts.nxt"@, s, s + 1, ValueView::Unsigned(nxt as u64)).leaf(
            "ipv6.dstopts.len"@,
            s + 1,
            s + 2,
            ValueView::Unsigned(hlen as u64),
        );
        assert(within(m0, hop, n) && within(m0, dst, n));
        if p.len() - i >= total {
            let o = p.subrange(i + 2, i + total);
            assert(within(m0, options(o, 0, s + 2, hop), n));
            assert(within(m0, options(o, 0, s + 2, dst), n));
        }
    }
}

proof fn route_stays(m0: Model, b: Seq<u8>, i: int, at: int, m: Model, n: int)
    requires
        within(m0, m, n),
        0 <= at,
        at + b.len() <= space(m0, n),
    ensures
        within(m0, route(b, i, at, m), n),
        route(b, i, at, m).count() >= m.count(),
    decreases b.len() - i,
{
    broadcast use keeping_inside;

    ipv6_names();
    if 0 <= i && i + 16 <= b.len() {
        route_stays(
            m0,
            b,
            i + 16,
            at,
            m.leaf(
                "ipv6.routing.addr"@,
                at + i,
                at + i + 16,
                ValueView::Ipv6(b.subrange(i, i + 16)),
            ),
            n,
        );
    }
}

proof fn routing_header_stays(m0: Model, p: Seq<u8>, i: int, at: int, m: Model, n: int)
    requires
        within(m0, m, n),
        0 <= i <= p.len(),
        0 <= at,
        at + p.len() <= space(m0, n),
    ensures
        within(m0, routing_header(p, i, at, m).m, n),
        routing_header(p, i, at, m).m.count() >= m.count(),
        i <= routing_header(p, i, at, m).at <= p.len(),
{
    broadcast use keeping_inside;

    ipv6_names();
    assert forall|b: Seq<u8>, s: int, x: Model|
        within(m0, x, n) && 0 <= s && s + b.len() <= space(m0, n) implies #[trigger] within(
        m0,
        route(b, 4, s, x),
        n,
    ) && route(b, 4, s, x).count() >= x.count() by {
        route_stays(m0, b, 4, s, x, n);
    }
    if p.len() - i >= 4 {
        let s = at + i;
        let (nxt, hlen, ty, seg) = (p[i], p[i + 1], p[i + 2], p[i + 3]);
        let total = claimed(hlen);
        let head = m.begin_text(
            "ipv6.routing"@,
            s,
            s,
            "Routing Header, Type "@ + dec(ty as int) + ", Segments Left "@ + dec(seg as int),
        ).leaf("ipv6.routing.nxt"@, s, s + 1, ValueView::Unsigned(nxt as u64)).leaf(
            "ipv6.routing.len"@,
            s + 1,
            s + 2,
            ValueView::Unsigned(hlen as u64),
        ).leaf("ipv6.routing.type"@, s + 2, s + 3, ValueView::Unsigned(ty as u64)).leaf(
            "ipv6.routing.segleft"@,
            s + 3,
            s + 4,
            ValueView::Unsigned(seg as u64),
        );
        assert(within(m0, head, n));
        if p.len() - i >= total {
            let b = p.subrange(i + 4, i + total);
            let data = head.leaf("ipv6.routing.data"@, s + 4, s + 8, ValueView::Bytes);
            assert(within(m0, data, n));
            assert(within(m0, route(b, 4, s + 4, data), n));
            let whole = head.leaf("ipv6.routing.data"@, s + 4, s + total, ValueView::Bytes);
            assert(within(m0, whole, n));
        }
    }
}

proof fn fragment_header_stays(m0: Model, p: Seq<u8>, i: int, at: int, m: Model, n: int)
    requires
        within(m0, m, n),
        0 <= i <= p.len(),
        0 <= at,
        at + p.len() <= space(m0, n),
    ensures
        within(m0, fragment_header(p, i, at, m).m, n),
        fragment_header(p, i, at, m).m.count() >= m.count(),
        i <= fragment_header(p, i, at, m).at <= p.len(),
{
    broadcast use keeping_inside;

    ipv6_names();
}

proof fn extensions_stay(
    m0: Model,
    k: nat,
    p: Seq<u8>,
    i: int,
    at: int,
    next: u8,
    fragment: bool,
    m: Model,
    n: int,
)
    requires
        within(m0, m, n),
        0 <= i <= p.len(),
        0 <= at,
        at + p.len() <= space(m0, n),
    ensures
        within(m0, extensions(k, p, i, at, next, fragment, m).m, n),
        extensions(k, p, i, at, next, fragment, m).m.count() >= m.count(),
        i <= extensions(k, p, i, at, next, fragment, m).at <= p.len(),
    decreases k,
{
    if k > 0 && (next == 0 || next == 60 || next == 43 || next == 44) {
        let x = if next == 43 {
            routing_header_stays(m0, p, i, at, m, n);
            routing_header(p, i, at, m)
        } else if next == 44 {
            fragment_header_stays(m0, p, i, at, m, n);
            fragment_header(p, i, at, m)
        } else {
            options_header_stays(m0, p, i, at, next, m, n);
            options_header(p, i, at, next, m)
        };
        if x.error is None {
            extensions_stay(
                m0,
                (k - 1) as nat,
                p,
                x.at,
                at,
                x.next,
                if next == 44 {
                    x.fragment
                } else {
                    fragment
                },
                x.m,
                n,
            );
        }
    }
}

pub proof fn ipv6_stays_inside(d: Seq<u8>, m: Model, n: int)
    requires
        ready(d, m, n),
    ensures
        within(m, layer(d, m).0, n),
{
    broadcast use keeping_inside;

    ipv6_names();
    nothing_written(m, n);
    let a = m.base;
    assert forall|len: int, x: Model|
        within(m, x, n) && 0 <= len && 40 + len <= d.len() implies ({
        let y = #[trigger] extensions(
            MAX_EXT_HEADERS as nat,
            d.subrange(40, 40 + len),
            0,
            a + 40,
            d[6],
            false,
            x,
        );
        &&& within(m, y.m, n)
        &&& y.m.count() >= x.count()
        &&& 0 <= y.at <= len
    }) by {
        extensions_stay(
            m,
            MAX_EXT_HEADERS as nat,
            d.subrange(40, 40 + len),
            0,
            a + 40,
            d[6],
            false,
            x,
            n,
        );
    }
}

} // verus!

//! IPv6 and its extension headers.

use vstd::prelude::*;

use super::ops::{keeping_nested, moving};
use super::{begins, closed_in, fits_all, kids, nests, opened, shut, wrote, wrote_on};
use crate::bytes::{be16, be32};
use crate::dissect::ctx::Model;
use crate::dissect::node::ValueView;
use crate::dissect::proto::ipv6::{
    claimed, extensions, fragment_header, layer, option, options, options_header, route,
    routing_header, Extension, MAX_EXT_HEADERS,
};
use crate::dissect::reporting::ipv6::{
    fixed_header, options_head, own_row, routing_body, routing_head,
};
use crate::text::{dec, hex_pad};

verus! {

/// An extension header that lies in `lo..hi`.
spec fn reads(m: Model, x: Extension, p: Seq<u8>, i: int, lo: int, hi: int) -> bool {
    &&& closed_in(m, x.m, lo, hi)
    &&& i <= x.at <= p.len()
}

proof fn option_nests(o: Seq<u8>, i: int, at: int, m: Model)
    requires
        fits_all(m, at, at + o.len()),
        m.trace.depth < 230,
        0 <= i < o.len(),
    ensures
        closed_in(m, option(o, i, at, m).0, at, at + o.len()),
        i < option(o, i, at, m).1 <= o.len(),
{
    let p = at + i;
    let ty = o[i];
    let end = at + o.len();
    let id = m.count();
    let x = m.begin("ipv6.opt"@, p, p).leaf(
        "ipv6.opt.type"@,
        p,
        p + 1,
        ValueView::Unsigned(ty as u64),
    );
    assert(wrote(m, x, at, end) && x.trace.depth == m.trace.depth + 1 && opened(
        x,
        m.trace.depth,
        id,
        m.source,
        p,
    ) && kids(x, id, m.source, p, p + 1) && x.count() > id) by {
        broadcast use {keeping_nested, moving};

    }
    if ty == 0 {
        let y = x.set_text(id, "Pad1"@);
        assert(wrote(m, y, at, end) && y.trace.depth == m.trace.depth + 1 && opened(
            y,
            m.trace.depth,
            id,
            m.source,
            p,
        ) && kids(y, id, m.source, p, p + 1)) by {
            broadcast use {keeping_nested, moving};

        }
        shut(m, y, id, p, p + 1, at, end);
    } else if i + 1 >= o.len() {
        shut(m, x, id, p, p + 1, at, end);
    } else {
        let len = o[i + 1] as int;
        let y = x.leaf("ipv6.opt.length"@, p + 1, p + 2, ValueView::Unsigned(o[i + 1] as u64));
        assert(kids(x, id, m.source, p, p + 2) && kids(x, id, m.source, p, p + 2 + len)) by {
            reveal(kids);
        }
        assert(wrote(m, y, at, end) && y.trace.depth == m.trace.depth + 1 && opened(
            y,
            m.trace.depth,
            id,
            m.source,
            p,
        ) && kids(y, id, m.source, p, p + 2) && kids(y, id, m.source, p, p + 2 + len)) by {
            broadcast use {keeping_nested, moving};

        }
        if o.len() - i - 2 < len {
            shut(m, y, id, p, p + 2, at, end);
        } else {
            let v = be16(o, i + 2);
            let (z, text) = if ty == 1 {
                (y, "PadN ("@ + dec(len + 2) + " bytes)"@)
            } else if ty == 5 && len == 2 {
                (
                    y.leaf(
                        "ipv6.opt.router_alert"@,
                        p + 2,
                        p + 2 + len,
                        ValueView::Unsigned(v as u64),
                    ),
                    "Router Alert: "@ + dec(v as int),
                )
            } else {
                (
                    y.leaf("ipv6.opt.data"@, p + 2, p + 2 + len, ValueView::Bytes),
                    "Option "@ + dec(ty as int) + " ("@ + dec(len + 2) + " bytes)"@,
                )
            };
            let w = z.set_text(id, text);
            assert(wrote(m, w, at, end) && w.trace.depth == m.trace.depth + 1 && opened(
                w,
                m.trace.depth,
                id,
                m.source,
                p,
            ) && kids(w, id, m.source, p, p + 2 + len)) by {
                broadcast use {keeping_nested, moving};

            }
            shut(m, w, id, p, p + 2 + len, at, end);
        }
    }
}

proof fn options_nest(o: Seq<u8>, i: int, at: int, m: Model)
    requires
        fits_all(m, at, at + o.len()),
        m.trace.depth < 230,
    ensures
        closed_in(m, options(o, i, at, m), at, at + o.len()),
    decreases o.len() - i,
{
    let end = at + o.len();
    assert(wrote(m, m, at, end));
    if 0 <= i < o.len() {
        option_nests(o, i, at, m);
        let (next, j, e) = option(o, i, at, m);
        if e is None && i < j <= o.len() {
            assert(fits_all(next, at, end));
            options_nest(o, j, at, next);
            wrote_on(m, next, options(o, j, at, next), at, end, at, end);
        } else {
            broadcast use {keeping_nested, moving};

        }
    }
}

proof fn options_header_nests(p: Seq<u8>, i: int, at: int, kind: u8, m: Model)
    requires
        fits_all(m, at, at + p.len()),
        m.trace.depth < 220,
        0 <= i <= p.len(),
    ensures
        reads(m, options_header(p, i, at, kind, m), p, i, at, at + p.len()),
{
    let end = at + p.len();
    assert(wrote(m, m, at, end));
    if p.len() - i >= 2 {
        let s = at + i;
        let total = claimed(p[i + 1]);
        let id = m.count();
        let h = options_head(p, i, at, kind, m);
        assert(wrote(m, h, at, end) && h.trace.depth == m.trace.depth + 1 && opened(
            h,
            m.trace.depth,
            id,
            m.source,
            s,
        ) && kids(h, id, m.source, s, s + 2) && fits_all(h, at, end)) by {
            broadcast use {keeping_nested, moving};

        }
        if p.len() - i < total {
            shut(m, h, id, s, s + 2, at, end);
        } else {
            let o = p.subrange(i + 2, i + total);
            assert(fits_all(h, s + 2, s + 2 + o.len()));
            options_nest(o, 0, s + 2, h);
            let x = options(o, 0, s + 2, h);
            assert(kids(h, id, m.source, s, s + total)) by {
                reveal(kids);
            }
            wrote_on(m, h, x, at, end, s + 2, s + total);
            assert(kids(x, id, m.source, s, s + total));
            assert(opened(x, m.trace.depth, id, m.source, s));
            shut(m, x, id, s, s + total, at, end);
        }
    }
}

proof fn route_nests(b: Seq<u8>, i: int, at: int, m: Model)
    requires
        fits_all(m, at, at + b.len()),
    ensures
        closed_in(m, route(b, i, at, m), at, at + b.len()),
    decreases b.len() - i,
{
    broadcast use {keeping_nested, moving};

    if 0 <= i && i + 16 <= b.len() {
        let value = ValueView::Ipv6(b.subrange(i, i + 16));
        route_nests(b, i + 16, at, m.leaf("ipv6.routing.addr"@, at + i, at + i + 16, value));
    }
}

proof fn routing_body_nests(b: Seq<u8>, ty: u8, s: int, total: int, m: Model)
    requires
        fits_all(m, s + 4, s + total),
        b.len() == total - 4,
        total >= 8,
    ensures
        closed_in(m, routing_body(b, ty, s, total, m), s + 4, s + total),
{
    let x = m.leaf("ipv6.routing.data"@, s + 4, s + 8, ValueView::Bytes);
    assert(closed_in(m, x, s + 4, s + total) && fits_all(x, s + 4, s + total)) by {
        broadcast use {keeping_nested, moving};

    }
    route_nests(b, 4, s + 4, x);
    wrote_on(m, x, route(b, 4, s + 4, x), s + 4, s + total, s + 4, s + total);
    assert(closed_in(
        m,
        m.leaf("ipv6.routing.data"@, s + 4, s + total, ValueView::Bytes),
        s + 4,
        s + total,
    )) by {
        broadcast use {keeping_nested, moving};

    }
}

proof fn routing_header_nests(p: Seq<u8>, i: int, at: int, m: Model)
    requires
        fits_all(m, at, at + p.len()),
        m.trace.depth < 220,
        0 <= i <= p.len(),
    ensures
        reads(m, routing_header(p, i, at, m), p, i, at, at + p.len()),
{
    let end = at + p.len();
    assert(wrote(m, m, at, end));
    if p.len() - i >= 4 {
        let s = at + i;
        let ty = p[i + 2];
        let total = claimed(p[i + 1]);
        let id = m.count();
        let h = routing_head(p, i, at, m);
        assert(wrote(m, h, at, end) && h.trace.depth == m.trace.depth + 1 && opened(
            h,
            m.trace.depth,
            id,
            m.source,
            s,
        ) && kids(h, id, m.source, s, s + 4) && fits_all(h, at, end)) by {
            broadcast use {keeping_nested, moving};

        }
        if p.len() - i < total {
            shut(m, h, id, s, s + 4, at, end);
        } else {
            let b = p.subrange(i + 4, i + total);
            assert(fits_all(h, s + 4, s + total));
            routing_body_nests(b, ty, s, total, h);
            let x = routing_body(b, ty, s, total, h);
            assert(kids(h, id, m.source, s, s + total)) by {
                reveal(kids);
            }
            wrote_on(m, h, x, at, end, s + 4, s + total);
            assert(kids(x, id, m.source, s, s + total));
            assert(opened(x, m.trace.depth, id, m.source, s));
            shut(m, x, id, s, s + total, at, end);
        }
    }
}

proof fn fragment_header_nests(p: Seq<u8>, i: int, at: int, m: Model)
    requires
        fits_all(m, at, at + p.len()),
        m.trace.depth < 220,
        0 <= i <= p.len(),
    ensures
        reads(m, fragment_header(p, i, at, m), p, i, at, at + p.len()),
{
    let end = at + p.len();
    assert(wrote(m, m, at, end));
    if p.len() - i >= 8 {
        let s = at + i;
        let (nxt, res, off_m, ident) = (p[i], p[i + 1], be16(p, i + 2), be32(p, i + 4));
        let offset = (off_m >> 3) * 8;
        let more = off_m & 1 == 1;
        let id = m.count();
        let x = m.begin_text(
            "ipv6.fraghdr"@,
            s,
            s + 8,
            "Fragment Header, offset "@ + dec(offset) + ", more "@ + (if more {
                "yes"@
            } else {
                "no"@
            }) + ", ID 0x"@ + hex_pad(ident as int, 8),
        ).leaf("ipv6.fraghdr.nxt"@, s, s + 1, ValueView::Unsigned(nxt as u64)).leaf(
            "ipv6.fraghdr.reserved_octet"@,
            s + 1,
            s + 2,
            ValueView::Unsigned(res as u64),
        ).leaf("ipv6.fraghdr.offset"@, s + 2, s + 4, ValueView::Unsigned(offset as u64)).leaf(
            "ipv6.fraghdr.reserved_bits"@,
            s + 2,
            s + 4,
            ValueView::Unsigned(((off_m >> 1) & 3) as u64),
        ).leaf("ipv6.fraghdr.more"@, s + 2, s + 4, ValueView::Bool(more)).leaf(
            "ipv6.fraghdr.ident"@,
            s + 4,
            s + 8,
            ValueView::Unsigned(ident as u64),
        );
        assert(wrote(m, x, at, end) && x.trace.depth == m.trace.depth + 1 && opened(
            x,
            m.trace.depth,
            id,
            m.source,
            s,
        ) && kids(x, id, m.source, s, s + 8)) by {
            broadcast use {keeping_nested, moving};

        }
        shut(m, x, id, s, s + 8, at, end);
    }
}

proof fn extensions_nest(
    k: nat,
    p: Seq<u8>,
    i: int,
    at: int,
    next: u8,
    fragment: bool,
    m: Model,
)
    requires
        fits_all(m, at, at + p.len()),
        m.trace.depth < 220,
        0 <= i <= p.len(),
    ensures
        reads(m, extensions(k, p, i, at, next, fragment, m), p, i, at, at + p.len()),
    decreases k,
{
    let end = at + p.len();
    assert(wrote(m, m, at, end));
    if k > 0 && (next == 0 || next == 60 || next == 43 || next == 44) {
        let x = if next == 43 {
            routing_header_nests(p, i, at, m);
            routing_header(p, i, at, m)
        } else if next == 44 {
            fragment_header_nests(p, i, at, m);
            fragment_header(p, i, at, m)
        } else {
            options_header_nests(p, i, at, next, m);
            options_header(p, i, at, next, m)
        };
        if x.error is None {
            let f = if next == 44 {
                x.fragment
            } else {
                fragment
            };
            assert(fits_all(x.m, at, end));
            extensions_nest((k - 1) as nat, p, x.at, at, x.next, f, x.m);
            let u = extensions((k - 1) as nat, p, x.at, at, x.next, f, x.m);
            wrote_on(m, x.m, u.m, at, end, at, end);
        }
    }
}

pub proof fn ipv6_nests(d: Seq<u8>, m: Model)
    requires
        begins(d, m),
    ensures
        nests(d, m, layer(d, m)),
{
    let n = d.len() as int;
    let a = m.base;
    assert(wrote(m, m, a, a + n));
    if n >= 40 && be32(d, 0) >> 28 == 6 {
        let h = fixed_header(d, m);
        let id = m.count();
        let plen = be16(d, 4);
        let len = if plen < n - 40 {
            plen as int
        } else {
            n - 40
        };
        let end = a + 40 + len;
        assert(wrote(m, h, a, a + n) && h.trace.depth == m.trace.depth + 1 && opened(
            h,
            m.trace.depth,
            id,
            m.source,
            a,
        ) && kids(h, id, m.source, a, end) && own_row(d, m) == id) by {
            broadcast use {keeping_nested, moving};

        }
        assert(fits_all(h, a, a + n)) by {
            broadcast use {keeping_nested, moving};

        }
        let k = MAX_EXT_HEADERS as nat;
        let part = d.subrange(40, 40 + len);
        assert(fits_all(h, a + 40, a + 40 + part.len()));
        extensions_nest(k, part, 0, a + 40, d[6], false, h);
        let x = extensions(k, part, 0, a + 40, d[6], false, h);
        wrote_on(m, h, x.m, a, a + n, a + 40, end);
        assert(opened(x.m, m.trace.depth, id, m.source, a));
        if x.error is None {
            assert(kids(x.m, id, m.source, a, end));
            shut(m, x.m, id, a, end, a, a + n);
            broadcast use {keeping_nested, moving};

        }
    }
}

} // verus!

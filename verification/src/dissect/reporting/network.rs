//! IPv4.

use vstd::prelude::*;

use super::ops::keeping_alike;
use super::{
    added, agree, alike, alike_facts, carries, chained, ends_by, level, start_alike, Bases,
};
use crate::bytes::be16;
use crate::dissect::ctx::{Model, Proto};
use crate::dissect::node::ValueView;
use crate::dissect::proto::ipv4::{
    fragment, fragment_rows, header_fields, layer, option, option_body, options, own_row,
    payload_len, routes, status_of,
};
use crate::dissect::proto::next_by_ipproto;
use crate::dissect::reassembly::{FragInfo, FragKeyView, FragResultView};
use crate::dissect::registry::named_or;
use crate::dissect::tables::IPPROTOS;
use crate::text::{dec, hex_pad};

verus! {

proof fn routes_agree(bases: Bases, b: Seq<u8>, i: int, at: int, m1: Model, m2: Model)
    requires
        alike(bases, m1, m2),
    ensures
        added(bases, m1, m2, routes(b, i, at, m1), routes(b, i, at, m2)),
    decreases b.len() - i,
{
    broadcast use keeping_alike;

    if 0 <= i && i + 4 <= b.len() {
        let value = ValueView::Ipv4(b.subrange(i, i + 4));
        let x1 = m1.leaf("ip.opt.route"@, at + i, at + i + 4, value);
        let x2 = m2.leaf("ip.opt.route"@, at + i, at + i + 4, value);
        routes_agree(bases, b, i + 4, at, x1, x2);
    }
}

proof fn option_body_agrees(
    bases: Bases,
    ty: u8,
    len: u8,
    b: Seq<u8>,
    at: int,
    m1: Model,
    m2: Model,
)
    requires
        alike(bases, m1, m2),
    ensures
        added(bases, m1, m2, option_body(ty, len, b, at, m1).0, option_body(ty, len, b, at, m2).0),
        option_body(ty, len, b, at, m1).1 == option_body(ty, len, b, at, m2).1,
{
    broadcast use keeping_alike;

    let value = ValueView::Unsigned(b[0] as u64);
    let x1 = m1.leaf("ip.opt.ptr"@, at, at + 1, value);
    let x2 = m2.leaf("ip.opt.ptr"@, at, at + 1, value);
    routes_agree(bases, b, 1, at, x1, x2);
}

proof fn option_agrees(bases: Bases, o: Seq<u8>, i: int, at: int, m1: Model, m2: Model)
    requires
        alike(bases, m1, m2),
        0 <= m1.trace.depth < 230,
    ensures
        alike(bases, option(o, i, at, m1).0, option(o, i, at, m2).0),
        carries(bases, m1, m2, option(o, i, at, m1).0, option(o, i, at, m2).0),
        !(option(o, i, at, m1).2 is Failed) ==> option(o, i, at, m1).0.trace.depth
            == m1.trace.depth,
        option(o, i, at, m1).1 == option(o, i, at, m2).1,
        option(o, i, at, m1).2 == option(o, i, at, m2).2,
{
    let p = at + i;
    let ty = o[i];
    let (n1, n2) = (m1.count(), m2.count());
    let x1 = m1.begin("ip.opt"@, p, p).leaf(
        "ip.opt.type"@,
        p,
        p + 1,
        ValueView::Unsigned(ty as u64),
    );
    let x2 = m2.begin("ip.opt"@, p, p).leaf(
        "ip.opt.type"@,
        p,
        p + 1,
        ValueView::Unsigned(ty as u64),
    );
    assert(alike(bases, x1, x2) && carries(bases, m1, m2, x1, x2) && level(
        bases,
        x1,
        n1,
        x2,
        n2,
    ) && n1 < x1.count() && n2 < x2.count() && x1.trace.depth == m1.trace.depth + 1) by {
        broadcast use keeping_alike;

    }
    if ty == 0 || ty == 1 || i + 1 >= o.len() || o[i + 1] < 2 {
        broadcast use keeping_alike;

    } else {
        let len = o[i + 1];
        let value = ValueView::Unsigned(len as u64);
        let y1 = x1.leaf("ip.opt.len"@, p + 1, p + 2, value);
        let y2 = x2.leaf("ip.opt.len"@, p + 1, p + 2, value);
        assert(added(bases, x1, x2, y1, y2)) by {
            broadcast use keeping_alike;

        }
        chained(bases, m1, m2, x1, x2, y1, y2);
        if o.len() - i - 2 >= len - 2 {
            let b = o.subrange(i + 2, i + len);
            option_body_agrees(bases, ty, len, b, p + 2, y1, y2);
            let (z1, text) = option_body(ty, len, b, p + 2, y1);
            let z2 = option_body(ty, len, b, p + 2, y2).0;
            chained(bases, m1, m2, y1, y2, z1, z2);
            assert(level(bases, z1, n1, z2, n2));
            assert(ends_by(x1, n1, p + len) && ends_by(x2, n2, p + len)) by {
                broadcast use keeping_alike;

            }
            assert(ends_by(y1, n1, p + len) && ends_by(y2, n2, p + len));
            assert(ends_by(z1, n1, p + len) && ends_by(z2, n2, p + len));
            let w1 = z1.set_text(n1, text).end_at(n1, p + len);
            let w2 = z2.set_text(n2, text).end_at(n2, p + len);
            assert(alike(bases, w1, w2) && carries(bases, m1, m2, w1, w2) && w1.trace.depth
                == m1.trace.depth) by {
                broadcast use keeping_alike;

            }
        }
    }
}

proof fn options_agree(bases: Bases, o: Seq<u8>, i: int, at: int, m1: Model, m2: Model)
    requires
        alike(bases, m1, m2),
        0 <= m1.trace.depth < 230,
    ensures
        added(bases, m1, m2, options(o, i, at, m1), options(o, i, at, m2)),
    decreases o.len() - i,
{
    if 0 <= i < o.len() {
        option_agrees(bases, o, i, at, m1, m2);
        let (next, j, step) = option(o, i, at, m1);
        let next2 = option(o, i, at, m2).0;
        if step is Next && i < j <= o.len() {
            options_agree(bases, o, j, at, next, next2);
        } else {
            broadcast use keeping_alike;

        }
    }
}

#[verifier::spinoff_prover]
proof fn header_agrees(
    bases: Bases,
    d: Seq<u8>,
    m1: Model,
    m2: Model,
    ihl: int,
    s1: u64,
    s2: u64,
)
    requires
        start_alike(bases, m1, m2),
    ensures
        ({
            let x1 = header_fields(d, m1, ihl, s1);
            let x2 = header_fields(d, m2, ihl, s2);
            let (r1, r2) = (own_row(d, m1), own_row(d, m2));
            &&& alike(bases, x1, x2)
            &&& level(bases, x1, r1, x2, r2)
            &&& forall|e: int| m1.base <= e ==> #[trigger] ends_by(x1, r1, e)
            &&& forall|e: int| m1.base <= e ==> #[trigger] ends_by(x2, r2, e)
            &&& x1.trace.depth == m1.trace.depth + 1
            &&& x1.count() > r1
            &&& x2.count() > r2
            &&& x1.base == m1.base
        }),
{
    broadcast use keeping_alike;

}

proof fn fragment_rows_agree(bases: Bases, f: Seq<FragInfo>, i: int, m1: Model, m2: Model)
    requires
        alike(bases, m1, m2),
        0 <= m1.trace.depth < 240,
    ensures
        added(bases, m1, m2, fragment_rows(f, i, m1), fragment_rows(f, i, m2)),
    decreases f.len() - i,
{
    broadcast use keeping_alike;

    if 0 <= i < f.len() {
        let (from, to) = (f[i].offset as int, f[i].offset + f[i].len);
        let text = "[Frame: "@ + dec(f[i].frame as int) + ", payload: "@ + dec(from) + "-"@ + dec(
            to,
        ) + " ("@ + dec(f[i].len as int) + " bytes)]"@;
        let x1 = m1.leaf_text("ip.fragment"@, from, to, ValueView::Empty, text);
        let x2 = m2.leaf_text("ip.fragment"@, from, to, ValueView::Empty, text);
        fragment_rows_agree(bases, f, i + 1, x1, x2);
    }
}

proof fn fragment_agrees(
    bases: Bases,
    m1: Model,
    m2: Model,
    key: FragKeyView,
    offset: usize,
    more: bool,
    payload: Seq<u8>,
    head: int,
    next: Proto,
)
    requires
        alike(bases, m1, m2),
        0 <= m1.trace.depth < 230,
    ensures
        added(
            bases,
            m1,
            m2,
            fragment(m1, key, offset, more, payload, head, next),
            fragment(m2, key, offset, more, payload, head, next),
        ),
{
    alike_facts(bases, m1, m2);
    let (x1, result) = if m1.nesting == 0 {
        m1.add_fragment(key, offset, more, payload)
    } else {
        (m1, FragResultView::Rejected("nested fragment"@))
    };
    let (x2, result2) = if m1.nesting == 0 {
        m2.add_fragment(key, offset, more, payload)
    } else {
        (m2, FragResultView::Rejected("nested fragment"@))
    };
    assert(m1.nesting == 0 ==> alike(
        bases,
        m1.add_fragment(key, offset, more, payload).0,
        m2.add_fragment(key, offset, more, payload).0,
    ) && result == result2) by {
        broadcast use keeping_alike;

    }
    assert(added(bases, m1, m2, x1, x2)) by {
        broadcast use keeping_alike;

    }
    alike_facts(bases, x1, x2);
    match result {
        FragResultView::Complete { data, frags } => {
            let total = data.len() as int;
            let id = x1.next_source();
            let text = "["@ + dec(frags.len() as int) + " IPv4 Fragments ("@ + dec(total)
                + " bytes)]"@;
            let y1 = x1.add_source(data).in_source(id).begin_text("ip.fragments"@, 0, total, text);
            let y2 = x2.add_source(data).in_source(id).begin_text("ip.fragments"@, 0, total, text);
            assert(alike(bases, y1, y2) && carries(bases, x1, x2, y1, y2) && y1.trace.depth
                == x1.trace.depth + 1) by {
                broadcast use keeping_alike;

            }
            fragment_rows_agree(bases, frags, 0, y1, y2);
            let (z1, z2) = (fragment_rows(frags, 0, y1), fragment_rows(frags, 0, y2));
            chained(bases, m1, m2, x1, x2, y1, y2);
            chained(bases, m1, m2, y1, y2, z1, z2);
            broadcast use keeping_alike;

        },
        _ => {
            broadcast use keeping_alike;

        },
    }
}

/// The options of the header, if it holds any.
pub open spec fn with_options(d: Seq<u8>, ihl: int, m: Model) -> Model {
    let a = m.base;
    if ihl > 20 {
        options(
            d.subrange(20, ihl),
            0,
            a + 20,
            m.begin_text(
                "ip.options"@,
                a + 20,
                a + ihl,
                "Options: ("@ + dec(ihl - 20) + " bytes)"@,
            ),
        ).end()
    } else {
        m
    }
}

proof fn with_options_agrees(bases: Bases, d: Seq<u8>, ihl: int, m1: Model, m2: Model)
    requires
        alike(bases, m1, m2),
        0 <= m1.trace.depth < 220,
    ensures
        added(bases, m1, m2, with_options(d, ihl, m1), with_options(d, ihl, m2)),
{
    let a = m1.base;
    let o = d.subrange(20, ihl);
    let text = "Options: ("@ + dec(ihl - 20) + " bytes)"@;
    let o1 = m1.begin_text("ip.options"@, a + 20, a + ihl, text);
    let o2 = m2.begin_text("ip.options"@, a + 20, a + ihl, text);
    assert(m2.base == a && alike(bases, o1, o2) && carries(bases, m1, m2, o1, o2)
        && o1.trace.depth == m1.trace.depth + 1) by {
        broadcast use keeping_alike;

    }
    options_agree(bases, o, 0, a + 20, o1, o2);
    let (p1, p2) = (options(o, 0, a + 20, o1), options(o, 0, a + 20, o2));
    chained(bases, m1, m2, o1, o2, p1, p2);
    assert(added(bases, m1, m2, p1.end(), p2.end())) by {
        broadcast use keeping_alike;

    }
}

/// The info column where no dissector takes the payload.
pub open spec fn with_name(proto: u8, m: Model) -> Model {
    if next_by_ipproto(proto) == Proto::Data {
        m.set_info(
            named_or(IPPROTOS@, proto as u64, "Unknown"@) + " ("@ + dec(proto as int) + ")"@,
        )
    } else {
        m
    }
}

pub proof fn ipv4_agrees(bases: Bases, d: Seq<u8>, m1: Model, m2: Model)
    requires
        start_alike(bases, m1, m2),
    ensures
        agree(bases, m1.trace.depth, layer(d, m1), layer(d, m2)),
{
    alike_facts(bases, m1, m2);
    let n = d.len() as int;
    let ihl = (d[0] & 0x0f) * 4;
    if n >= 20 && d[0] >> 4 == 4 && ihl >= 20 {
        let a = m1.base;
        let (s1, s2) = (status_of(d, m1, ihl), status_of(d, m2, ihl));
        let (r1, r2) = (own_row(d, m1), own_row(d, m2));
        header_agrees(bases, d, m1, m2, ihl, s1, s2);
        let h1 = header_fields(d, m1, ihl, s1);
        let h2 = header_fields(d, m2, ihl, s2);
        alike_facts(bases, h1, h2);
        if ihl <= n {
            with_options_agrees(bases, d, ihl, h1, h2);
            let (o1, o2) = (with_options(d, ihl, h1), with_options(d, ihl, h2));
            let proto = d[9];
            let (q1, q2) = (with_name(proto, o1), with_name(proto, o2));
            assert(added(bases, o1, o2, q1, q2)) by {
                broadcast use keeping_alike;

            }
            chained(bases, h1, h2, o1, o2, q1, q2);
            let id = be16(d, 4);
            let more = be16(d, 6) & 0x2000 != 0;
            let offset = (be16(d, 6) & 0x1fff) * 8;
            let len = payload_len(d, ihl);
            let next = next_by_ipproto(proto);
            let name = named_or(IPPROTOS@, proto as u64, "Unknown"@);
            if more || offset > 0 {
                let info = "Fragmented IP protocol (proto="@ + name + " "@ + dec(proto as int)
                    + ", off="@ + dec(offset) + ", ID="@ + hex_pad(id as int, 4) + ")"@;
                let (t1, t2) = (q1.set_info(info), q2.set_info(info));
                assert(added(bases, q1, q2, t1, t2)) by {
                    broadcast use keeping_alike;

                }
                chained(bases, h1, h2, q1, q2, t1, t2);
                let key = FragKeyView {
                    src: d.subrange(12, 16),
                    dst: d.subrange(16, 20),
                    id,
                    proto,
                };
                let part = d.subrange(ihl, ihl + len);
                fragment_agrees(bases, t1, t2, key, offset as usize, more, part, ihl, next);
                let f1 = fragment(t1, key, offset as usize, more, part, ihl, next);
                let f2 = fragment(t2, key, offset as usize, more, part, ihl, next);
                chained(bases, h1, h2, t1, t2, f1, f2);
                assert(level(bases, f1, r1, f2, r2));
                assert(ends_by(h1, r1, a + ihl) && ends_by(h2, r2, a + ihl));
                assert(ends_by(f1, r1, a + ihl) && ends_by(f2, r2, a + ihl));
                let (l1, l2) = (f1.end_at(r1, a + ihl), f2.end_at(r2, a + ihl));
                assert(alike(bases, l1, l2) && l1.trace.depth == m1.trace.depth) by {
                    broadcast use keeping_alike;

                }
                assert(layer(d, m1).0 == l1 && layer(d, m2).0 == l2);
            } else {
                assert(level(bases, q1, r1, q2, r2));
                assert(ends_by(h1, r1, a + ihl) && ends_by(h2, r2, a + ihl));
                assert(ends_by(q1, r1, a + ihl) && ends_by(q2, r2, a + ihl));
                let l1 = q1.end_at(r1, a + ihl).call_next_bounded(next, ihl, len);
                let l2 = q2.end_at(r2, a + ihl).call_next_bounded(next, ihl, len);
                assert(alike(bases, l1, l2) && l1.trace.depth == m1.trace.depth) by {
                    broadcast use keeping_alike;

                }
                assert(layer(d, m1).0 == l1 && layer(d, m2).0 == l2);
            }
        }
    }
}

} // verus!

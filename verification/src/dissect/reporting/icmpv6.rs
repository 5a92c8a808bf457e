//! ICMPv6.

use vstd::prelude::*;

use super::ops::{end_alike, end_moves, keeping_alike};
use super::{
    added, agree, alike, alike_facts, carries, chained, ends_by, level, start_alike, Bases,
};
use crate::bytes::be16;
use crate::dissect::ctx::Model;
use crate::dissect::node::ValueView;
use crate::dissect::proto::checked;
use crate::dissect::proto::icmpv6::{
    body, layer, option, option_body, options, rest_as_data, status_of,
};
use crate::dissect::registry::named_or;
use crate::dissect::tables::ICMPV6_TYPES;

verus! {

proof fn option_body_agrees(
    bases: Bases,
    d: Seq<u8>,
    i: int,
    at: int,
    ty: u8,
    len: u8,
    m1: Model,
    m2: Model,
)
    requires
        alike(bases, m1, m2),
    ensures
        added(
            bases,
            m1,
            m2,
            option_body(d, i, at, ty, len, m1).0,
            option_body(d, i, at, ty, len, m2).0,
        ),
        option_body(d, i, at, ty, len, m1).1 == option_body(d, i, at, ty, len, m2).1,
{
    broadcast use keeping_alike;

}

proof fn option_agrees(bases: Bases, d: Seq<u8>, i: int, at: int, m1: Model, m2: Model)
    requires
        alike(bases, m1, m2),
        0 <= m1.trace.depth < 230,
    ensures
        added(bases, m1, m2, option(d, i, at, m1).0, option(d, i, at, m2).0),
        option(d, i, at, m1).1 == option(d, i, at, m2).1,
        option(d, i, at, m1).2 == option(d, i, at, m2).2,
{
    let p = at + i;
    let ty = d[i];
    let (n1, n2) = (m1.count(), m2.count());
    let x1 = m1.begin("icmpv6.opt"@, p, p).leaf(
        "icmpv6.opt.type"@,
        p,
        p + 1,
        ValueView::Unsigned(ty as u64),
    );
    let x2 = m2.begin("icmpv6.opt"@, p, p).leaf(
        "icmpv6.opt.type"@,
        p,
        p + 1,
        ValueView::Unsigned(ty as u64),
    );
    if i + 1 < d.len() && d[i + 1] > 0 && d.len() - i - 2 >= d[i + 1] * 8 - 2 {
        let len = d[i + 1];
        let end = p + len * 8;
        let value = ValueView::Unsigned(len as u64);
        let y1 = x1.leaf("icmpv6.opt.length"@, p + 1, p + 2, value);
        let y2 = x2.leaf("icmpv6.opt.length"@, p + 1, p + 2, value);
        assert(alike(bases, y1, y2) && carries(bases, m1, m2, y1, y2) && level(
            bases,
            y1,
            n1,
            y2,
            n2,
        ) && n1 < y1.count() && n2 < y2.count() && y1.trace.depth == m1.trace.depth + 1 && ends_by(
            y1,
            n1,
            end,
        ) && ends_by(y2, n2, end)) by {
            broadcast use keeping_alike;

        }
        option_body_agrees(bases, d, i + 2, at, ty, len, y1, y2);
        let (z1, text) = option_body(d, i + 2, at, ty, len, y1);
        let z2 = option_body(d, i + 2, at, ty, len, y2).0;
        chained(bases, m1, m2, y1, y2, z1, z2);
        assert(level(bases, z1, n1, z2, n2));
        assert(ends_by(z1, n1, end) && ends_by(z2, n2, end));
        let w1 = z1.set_text(n1, text).end_at(n1, end);
        let w2 = z2.set_text(n2, text).end_at(n2, end);
        assert(added(bases, m1, m2, w1, w2)) by {
            broadcast use keeping_alike;

        }
    } else {
        broadcast use keeping_alike;

    }
}

proof fn options_agree(bases: Bases, d: Seq<u8>, i: int, at: int, m1: Model, m2: Model)
    requires
        alike(bases, m1, m2),
        0 <= m1.trace.depth < 230,
    ensures
        added(bases, m1, m2, options(d, i, at, m1), options(d, i, at, m2)),
    decreases d.len() - i,
{
    if 0 <= i < d.len() {
        option_agrees(bases, d, i, at, m1, m2);
        let (next, j, e) = option(d, i, at, m1);
        let next2 = option(d, i, at, m2).0;
        if e is None && i < j <= d.len() {
            options_agree(bases, d, j, at, next, next2);
        } else {
            broadcast use keeping_alike;

        }
    }
}

proof fn body_agrees(bases: Bases, d: Seq<u8>, a: int, kind: Seq<char>, m1: Model, m2: Model)
    requires
        alike(bases, m1, m2),
        0 <= m1.trace.depth < 220,
    ensures
        alike(bases, body(d, a, kind, m1), body(d, a, kind, m2)),
        body(d, a, kind, m1).trace.depth == m1.trace.depth,
{
    broadcast use keeping_alike;

    assert forall|i: int, x1: Model, x2: Model|
        alike(bases, x1, x2) && 0 <= x1.trace.depth < 230 implies #[trigger] alike(
        bases,
        options(d, i, a, x1),
        options(d, i, a, x2),
    ) && options(d, i, a, x1).trace.depth == x1.trace.depth by {
        options_agree(bases, d, i, a, x1, x2);
    }
    assert forall|i: int, x1: Model, x2: Model|
        alike(bases, x1, x2) implies #[trigger] alike(
        bases,
        rest_as_data(d, i, a, x1),
        rest_as_data(d, i, a, x2),
    ) && rest_as_data(d, i, a, x1).trace.depth == x1.trace.depth by {
    }
}

/// The fixed part of a message, its row open.
pub open spec fn head(d: Seq<u8>, status: u64, m: Model) -> Model {
    let a = m.base;
    let m = m.set_protocol("icmpv6"@).begin("icmpv6"@, a, a + d.len()).leaf(
        "icmpv6.type"@,
        a,
        a + 1,
        ValueView::Unsigned(d[0] as u64),
    ).leaf("icmpv6.code"@, a + 1, a + 2, ValueView::Unsigned(d[1] as u64)).leaf(
        "icmpv6.checksum"@,
        a + 2,
        a + 4,
        ValueView::Unsigned(be16(d, 2) as u64),
    );
    checked(m, "icmpv6.checksum.status"@, a + 2, a + 4, status)
}

proof fn head_agrees(bases: Bases, d: Seq<u8>, s1: u64, s2: u64, m1: Model, m2: Model)
    requires
        start_alike(bases, m1, m2),
    ensures
        alike(bases, head(d, s1, m1), head(d, s2, m2)),
        head(d, s1, m1).trace.depth == m1.trace.depth + 1,
{
    broadcast use keeping_alike;

}

pub proof fn layer_agrees(bases: Bases, d: Seq<u8>, m1: Model, m2: Model)
    requires
        start_alike(bases, m1, m2),
    ensures
        agree(bases, m1.trace.depth, layer(d, m1), layer(d, m2)),
{
    alike_facts(bases, m1, m2);
    if d.len() >= 4 {
        let (s1, s2) = (status_of(d, m1), status_of(d, m2));
        head_agrees(bases, d, s1, s2, m1, m2);
        let (h1, h2) = (head(d, s1, m1), head(d, s2, m2));
        let kind = named_or(ICMPV6_TYPES@, d[0] as u64, "Unknown"@);
        body_agrees(bases, d, m1.base, kind, h1, h2);
        let (b1, b2) = (body(d, m1.base, kind, h1), body(d, m1.base, kind, h2));
        end_alike(bases, b1, b2);
        end_moves(b1);
    }
}

} // verus!

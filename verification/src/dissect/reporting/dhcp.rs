//! DHCP.

use vstd::prelude::*;

use super::ops::keeping_alike;
use super::{
    added, agree, alike, alike_facts, carries, chained, ends_by, level, start_alike, Bases,
};
use crate::bytes::be32;
use crate::dissect::ctx::Model;
use crate::dissect::node::{ipv4_text, ValueView};
use crate::dissect::proto::dhcp::{
    address_field, address_rows, header_fields, kind_name, info_text, layer, option, option_body,
    option_label, options, request_rows, type_at, MAGIC,
};
use crate::text::dec;

verus! {

proof fn addresses_agree(
    bases: Bases,
    b: Seq<u8>,
    i: int,
    at: int,
    abbrev: Seq<char>,
    m1: Model,
    m2: Model,
    parts: Seq<Seq<char>>,
)
    requires
        alike(bases, m1, m2),
    ensures
        added(
            bases,
            m1,
            m2,
            address_rows(b, i, at, abbrev, m1, parts).0,
            address_rows(b, i, at, abbrev, m2, parts).0,
        ),
        address_rows(b, i, at, abbrev, m1, parts).1 == address_rows(
            b,
            i,
            at,
            abbrev,
            m2,
            parts,
        ).1,
    decreases b.len() - i,
{
    broadcast use keeping_alike;

    if 0 <= i && i + 4 <= b.len() {
        let a = b.subrange(i, i + 4);
        let x1 = m1.leaf(abbrev, at + i, at + i + 4, ValueView::Ipv4(a));
        let x2 = m2.leaf(abbrev, at + i, at + i + 4, ValueView::Ipv4(a));
        addresses_agree(bases, b, i + 4, at, abbrev, x1, x2, parts.push(ipv4_text(a)));
    }
}

proof fn requests_agree(
    bases: Bases,
    b: Seq<u8>,
    i: int,
    at: int,
    m1: Model,
    m2: Model,
    parts: Seq<Seq<char>>,
)
    requires
        alike(bases, m1, m2),
    ensures
        added(
            bases,
            m1,
            m2,
            request_rows(b, i, at, m1, parts).0,
            request_rows(b, i, at, m2, parts).0,
        ),
        request_rows(b, i, at, m1, parts).1 == request_rows(b, i, at, m2, parts).1,
    decreases b.len() - i,
{
    broadcast use keeping_alike;

    if 0 <= i < b.len() {
        let value = ValueView::Unsigned(b[i] as u64);
        let x1 = m1.leaf("dhcp.option.request_list_item"@, at + i, at + i + 1, value);
        let x2 = m2.leaf("dhcp.option.request_list_item"@, at + i, at + i + 1, value);
        requests_agree(bases, b, i + 1, at, x1, x2, parts.push(dec(b[i] as int)));
    }
}

proof fn option_body_agrees(bases: Bases, code: u8, b: Seq<u8>, at: int, m1: Model, m2: Model)
    requires
        alike(bases, m1, m2),
    ensures
        added(bases, m1, m2, option_body(code, b, at, m1).0, option_body(code, b, at, m2).0),
        option_body(code, b, at, m1).1 == option_body(code, b, at, m2).1,
{
    requests_agree(bases, b, 0, at, m1, m2, Seq::empty());
    let abbrev = address_field(code)->Some_0;
    addresses_agree(bases, b, 0, at, abbrev, m1, m2, Seq::empty());
    broadcast use keeping_alike;

}

proof fn option_agrees(bases: Bases, d: Seq<u8>, i: int, at: int, m1: Model, m2: Model)
    requires
        alike(bases, m1, m2),
        0 <= m1.trace.depth < 230,
    ensures
        alike(bases, option(d, i, at, m1).0, option(d, i, at, m2).0),
        carries(bases, m1, m2, option(d, i, at, m1).0, option(d, i, at, m2).0),
        !(option(d, i, at, m1).2 is Failed) ==> option(d, i, at, m1).0.trace.depth
            == m1.trace.depth,
        option(d, i, at, m1).1 == option(d, i, at, m2).1,
        option(d, i, at, m1).2 == option(d, i, at, m2).2,
{
    let p = at + i;
    let code = d[i];
    let (n1, n2) = (m1.count(), m2.count());
    let x1 = m1.begin("dhcp.option"@, p, p).leaf(
        "dhcp.option.type"@,
        p,
        p + 1,
        ValueView::Unsigned(code as u64),
    );
    let x2 = m2.begin("dhcp.option"@, p, p).leaf(
        "dhcp.option.type"@,
        p,
        p + 1,
        ValueView::Unsigned(code as u64),
    );
    if code != 0 && code != 255 && i + 1 < d.len() && d.len() - i - 2 >= d[i + 1] {
        let len = d[i + 1] as int;
        let end = p + 2 + len;
        let value = ValueView::Unsigned(d[i + 1] as u64);
        let y1 = x1.leaf("dhcp.option.length"@, p + 1, p + 2, value);
        let y2 = x2.leaf("dhcp.option.length"@, p + 1, p + 2, value);
        assert(alike(bases, y1, y2) && carries(bases, m1, m2, y1, y2) && level(
            bases,
            y1,
            n1,
            y2,
            n2,
        ) && n1 < y1.count() && n2 < y2.count() && y1.trace.depth == m1.trace.depth + 1 && ends_by(
            y1,
            n1,
            end,
        ) && ends_by(y2, n2, end)) by {
            broadcast use keeping_alike;

        }
        let b = d.subrange(i + 2, i + 2 + len);
        option_body_agrees(bases, code, b, p + 2, y1, y2);
        let (z1, detail) = option_body(code, b, p + 2, y1);
        let z2 = option_body(code, b, p + 2, y2).0;
        chained(bases, m1, m2, y1, y2, z1, z2);
        assert(level(bases, z1, n1, z2, n2));
        assert(ends_by(z1, n1, end) && ends_by(z2, n2, end));
        let w1 = z1.set_text(n1, option_label(code, detail)).end_at(n1, end);
        let w2 = z2.set_text(n2, option_label(code, detail)).end_at(n2, end);
        assert(added(bases, m1, m2, w1, w2)) by {
            broadcast use keeping_alike;

        }
    } else {
        broadcast use keeping_alike;

    }
}

proof fn options_agree(
    bases: Bases,
    d: Seq<u8>,
    i: int,
    at: int,
    m1: Model,
    m2: Model,
    kind: Option<u8>,
)
    requires
        alike(bases, m1, m2),
        0 <= m1.trace.depth < 230,
    ensures
        added(
            bases,
            m1,
            m2,
            options(d, i, at, m1, kind).0,
            options(d, i, at, m2, kind).0,
        ),
        options(d, i, at, m1, kind).1 == options(d, i, at, m2, kind).1,
    decreases d.len() - i,
{
    if 0 <= i < d.len() {
        option_agrees(bases, d, i, at, m1, m2);
        let (next, j, step) = option(d, i, at, m1);
        let next2 = option(d, i, at, m2).0;
        let known = if type_at(d, i) is Some {
            type_at(d, i)
        } else {
            kind
        };
        if step is Next && i < j <= d.len() {
            options_agree(bases, d, j, at, next, next2, known);
        } else {
            broadcast use keeping_alike;

        }
    }
}

#[verifier::spinoff_prover]
proof fn header_agrees(bases: Bases, d: Seq<u8>, m1: Model, m2: Model)
    requires
        start_alike(bases, m1, m2),
    ensures
        ({
            let x1 = header_fields(d, m1);
            let x2 = header_fields(d, m2);
            let r1 = m1.set_protocol("dhcp"@).count();
            let r2 = m2.set_protocol("dhcp"@).count();
            &&& alike(bases, x1, x2)
            &&& level(bases, x1, r1, x2, r2)
            &&& x1.trace.depth == m1.trace.depth + 1
            &&& x1.count() > r1
            &&& x2.count() > r2
            &&& x1.base == m1.base
        }),
{
    broadcast use keeping_alike;

}

/// What follows the fixed header, and the message type in it.
pub open spec fn with_options(d: Seq<u8>, a: int, m: Model) -> (Model, Option<u8>) {
    if d.len() >= 240 {
        let cookie = be32(d, 236);
        let m = m.leaf("dhcp.cookie"@, a + 236, a + 240, ValueView::Unsigned(cookie as u64));
        if cookie == MAGIC {
            options(d, 240, a, m, None)
        } else {
            (m, None)
        }
    } else {
        (m, None)
    }
}

proof fn with_options_agrees(bases: Bases, d: Seq<u8>, a: int, m1: Model, m2: Model)
    requires
        alike(bases, m1, m2),
        0 <= m1.trace.depth < 230,
    ensures
        added(bases, m1, m2, with_options(d, a, m1).0, with_options(d, a, m2).0),
        with_options(d, a, m1).1 == with_options(d, a, m2).1,
{
    let value = ValueView::Unsigned(be32(d, 236) as u64);
    let x1 = m1.leaf("dhcp.cookie"@, a + 236, a + 240, value);
    let x2 = m2.leaf("dhcp.cookie"@, a + 236, a + 240, value);
    assert(added(bases, m1, m2, x1, x2)) by {
        broadcast use keeping_alike;

    }
    options_agree(bases, d, 240, a, x1, x2, None);
    let y1 = options(d, 240, a, x1, None).0;
    let y2 = options(d, 240, a, x2, None).0;
    chained(bases, m1, m2, x1, x2, y1, y2);
}

pub proof fn dhcp_agrees(bases: Bases, d: Seq<u8>, m1: Model, m2: Model)
    requires
        start_alike(bases, m1, m2),
    ensures
        agree(bases, m1.trace.depth, layer(d, m1), layer(d, m2)),
{
    alike_facts(bases, m1, m2);
    if d.len() >= 236 {
        let a = m1.base;
        let (r1, r2) = (m1.set_protocol("dhcp"@).count(), m2.set_protocol("dhcp"@).count());
        header_agrees(bases, d, m1, m2);
        let (h1, h2) = (header_fields(d, m1), header_fields(d, m2));
        with_options_agrees(bases, d, a, h1, h2);
        let (x1, kind) = with_options(d, a, h1);
        let x2 = with_options(d, a, h2).0;
        assert(level(bases, x1, r1, x2, r2));
        let name = kind_name(d[0], kind);
        let text = "Dynamic Host Configuration Protocol ("@ + name + ")"@;
        let y1 = x1.set_text(r1, text).set_info(info_text(d, name)).end();
        let y2 = x2.set_text(r2, text).set_info(info_text(d, name)).end();
        assert(alike(bases, y1, y2) && y1.trace.depth == m1.trace.depth) by {
            broadcast use keeping_alike;

        }
        assert(layer(d, m1).0 == y1 && layer(d, m2).0 == y2);
    }
}

} // verus!

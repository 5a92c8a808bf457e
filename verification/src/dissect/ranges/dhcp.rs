//! DHCP.

use vstd::prelude::*;

use super::names::{dhcp_names, tame};
use super::{keeping_inside, nothing_written, ready, space, within};
use crate::bytes::be32;
use crate::dissect::ctx::Model;
use crate::dissect::node::{ipv4_text, ValueView};
use crate::dissect::proto::dhcp::{
    address_rows, header_fields, layer, option, option_body, options, request_rows, type_at,
};
use crate::text::dec;

verus! {

proof fn addresses_stay(
    m0: Model,
    b: Seq<u8>,
    i: int,
    at: int,
    abbrev: Seq<char>,
    m: Model,
    parts: Seq<Seq<char>>,
    n: int,
)
    requires
        within(m0, m, n),
        0 <= at,
        at + b.len() <= space(m0, n),
        tame(abbrev),
    ensures
        within(m0, address_rows(b, i, at, abbrev, m, parts).0, n),
        address_rows(b, i, at, abbrev, m, parts).0.count() >= m.count(),
    decreases b.len() - i,
{
    broadcast use keeping_inside;

    dhcp_names();
    if 0 <= i && i + 4 <= b.len() {
        let a = b.subrange(i, i + 4);
        addresses_stay(
            m0,
            b,
            i + 4,
            at,
            abbrev,
            m.leaf(abbrev, at + i, at + i + 4, ValueView::Ipv4(a)),
            parts.push(ipv4_text(a)),
            n,
        );
    }
}

proof fn requests_stay(
    m0: Model,
    b: Seq<u8>,
    i: int,
    at: int,
    m: Model,
    parts: Seq<Seq<char>>,
    n: int,
)
    requires
        within(m0, m, n),
        0 <= at,
        at + b.len() <= space(m0, n),
    ensures
        within(m0, request_rows(b, i, at, m, parts).0, n),
        request_rows(b, i, at, m, parts).0.count() >= m.count(),
    decreases b.len() - i,
{
    broadcast use keeping_inside;

    dhcp_names();
    if 0 <= i < b.len() {
        requests_stay(
            m0,
            b,
            i + 1,
            at,
            m.leaf(
                "dhcp.option.request_list_item"@,
                at + i,
                at + i + 1,
                ValueView::Unsigned(b[i] as u64),
            ),
            parts.push(dec(b[i] as int)),
            n,
        );
    }
}

proof fn option_body_stays(m0: Model, code: u8, b: Seq<u8>, at: int, m: Model, n: int)
    requires
        within(m0, m, n),
        0 <= at,
        at + b.len() <= space(m0, n),
    ensures
        within(m0, option_body(code, b, at, m).0, n),
        option_body(code, b, at, m).0.count() >= m.count(),
{
    broadcast use keeping_inside;

    dhcp_names();
    requests_stay(m0, b, 0, at, m, Seq::empty(), n);
    assert forall|abbrev: Seq<char>| tame(abbrev) implies #[trigger] within(
        m0,
        address_rows(b, 0, at, abbrev, m, Seq::empty()).0,
        n,
    ) && address_rows(b, 0, at, abbrev, m, Seq::empty()).0.count() >= m.count() by {
        addresses_stay(m0, b, 0, at, abbrev, m, Seq::empty(), n);
    }
}

proof fn option_stays(m0: Model, d: Seq<u8>, i: int, at: int, m: Model, n: int)
    requires
        within(m0, m, n),
        0 <= i < d.len(),
        0 <= at,
        at + d.len() <= space(m0, n),
    ensures
        within(m0, option(d, i, at, m).0, n),
        option(d, i, at, m).0.count() >= m.count(),
        i < option(d, i, at, m).1 <= d.len(),
{
    broadcast use keeping_inside;

    dhcp_names();
    assert forall|code: u8, b: Seq<u8>, p: int, x: Model|
        within(m0, x, n) && 0 <= p && p + b.len() <= space(m0, n) implies #[trigger] within(
        m0,
        option_body(code, b, p, x).0,
        n,
    ) && option_body(code, b, p, x).0.count() >= x.count() by {
        option_body_stays(m0, code, b, p, x, n);
    }
    let p = at + i;
    let code = d[i];
    if code != 0 && code != 255 && i + 1 < d.len() {
        let len = d[i + 1] as int;
        let head = m.begin("dhcp.option"@, p, p).leaf(
            "dhcp.option.type"@,
            p,
            p + 1,
            ValueView::Unsigned(code as u64),
        ).leaf("dhcp.option.length"@, p + 1, p + 2, ValueView::Unsigned(d[i + 1] as u64));
        assert(within(m0, head, n));
        if d.len() - i - 2 >= len {
            let b = d.subrange(i + 2, i + 2 + len);
            assert(within(m0, option_body(code, b, p + 2, head).0, n));
        }
    }
}

proof fn options_stay(m0: Model, d: Seq<u8>, i: int, at: int, m: Model, kind: Option<u8>, n: int)
    requires
        within(m0, m, n),
        0 <= at,
        at + d.len() <= space(m0, n),
    ensures
        within(m0, options(d, i, at, m, kind).0, n),
        options(d, i, at, m, kind).0.count() >= m.count(),
    decreases d.len() - i,
{
    dhcp_names();
    if 0 <= i < d.len() {
        option_stays(m0, d, i, at, m, n);
        let (next, j, step) = option(d, i, at, m);
        let known = if type_at(d, i) is Some {
            type_at(d, i)
        } else {
            kind
        };
        if step is Next && i < j <= d.len() {
            options_stay(m0, d, j, at, next, known, n);
        } else {
            broadcast use keeping_inside;

        }
    }
}

proof fn header_stays(d: Seq<u8>, m: Model, n: int)
    requires
        within(m, m, n),
        0 <= m.base,
        m.base + d.len() <= space(m, n),
        236 <= d.len(),
    ensures
        within(m, header_fields(d, m), n),
        header_fields(d, m).count() > m.set_protocol("dhcp"@).count(),
{
    broadcast use keeping_inside;

    dhcp_names();
}

pub proof fn dhcp_stays_inside(d: Seq<u8>, m: Model, n: int)
    requires
        ready(d, m, n),
    ensures
        within(m, layer(d, m).0, n),
{
    broadcast use keeping_inside;

    dhcp_names();
    nothing_written(m, n);
    let a = m.base;
    if d.len() >= 236 {
        header_stays(d, m, n);
        let head = header_fields(d, m);
        if d.len() >= 240 {
            let told = head.leaf(
                "dhcp.cookie"@,
                a + 236,
                a + 240,
                ValueView::Unsigned(be32(d, 236) as u64),
            );
            assert(within(m, told, n));
            options_stay(m, d, 240, a, told, None, n);
        }
    }
}

} // verus!

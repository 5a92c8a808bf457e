//! DHCP.

use vstd::prelude::*;

use super::ops::{keeping_nested, moving};
use super::{begins, closed_in, fits_all, kids, nests, opened, shut, wrote, wrote_on};
use crate::bytes::be32;
use crate::dissect::ctx::Model;
use crate::dissect::node::{ipv4_text, ValueView};
use crate::dissect::proto::dhcp::{
    address_field, address_rows, header_fields, info_text, kind_name, layer, option, option_body,
    option_label, options, request_rows, type_at,
};
use crate::dissect::reporting::dhcp::with_options;
use crate::text::dec;

verus! {

proof fn addresses_nest(
    b: Seq<u8>,
    i: int,
    at: int,
    abbrev: Seq<char>,
    m: Model,
    parts: Seq<Seq<char>>,
)
    requires
        fits_all(m, at, at + b.len()),
    ensures
        closed_in(m, address_rows(b, i, at, abbrev, m, parts).0, at, at + b.len()),
    decreases b.len() - i,
{
    broadcast use {keeping_nested, moving};

    if 0 <= i && i + 4 <= b.len() {
        let a = b.subrange(i, i + 4);
        let x = m.leaf(abbrev, at + i, at + i + 4, ValueView::Ipv4(a));
        addresses_nest(b, i + 4, at, abbrev, x, parts.push(ipv4_text(a)));
    }
}

proof fn requests_nest(b: Seq<u8>, i: int, at: int, m: Model, parts: Seq<Seq<char>>)
    requires
        fits_all(m, at, at + b.len()),
    ensures
        closed_in(m, request_rows(b, i, at, m, parts).0, at, at + b.len()),
    decreases b.len() - i,
{
    broadcast use {keeping_nested, moving};

    if 0 <= i < b.len() {
        let value = ValueView::Unsigned(b[i] as u64);
        let x = m.leaf("dhcp.option.request_list_item"@, at + i, at + i + 1, value);
        requests_nest(b, i + 1, at, x, parts.push(dec(b[i] as int)));
    }
}

proof fn option_body_nests(code: u8, b: Seq<u8>, at: int, m: Model)
    requires
        fits_all(m, at, at + b.len()),
    ensures
        closed_in(m, option_body(code, b, at, m).0, at, at + b.len()),
{
    requests_nest(b, 0, at, m, Seq::empty());
    let abbrev = address_field(code)->Some_0;
    addresses_nest(b, 0, at, abbrev, m, Seq::empty());
    broadcast use {keeping_nested, moving};

}

proof fn option_nests(d: Seq<u8>, i: int, at: int, m: Model)
    requires
        fits_all(m, at, at + d.len()),
        m.trace.depth < 230,
        0 <= i < d.len(),
    ensures
        ({
            let x = option(d, i, at, m);
            &&& wrote(m, x.0, at, at + d.len())
            &&& x.0.trace.depth >= m.trace.depth
            &&& !(x.2 is Failed) ==> x.0.trace.depth == m.trace.depth
            &&& i < x.1 <= d.len()
        }),
{
    let p = at + i;
    let code = d[i];
    let end = at + d.len();
    let id = m.count();
    let x = m.begin("dhcp.option"@, p, p).leaf(
        "dhcp.option.type"@,
        p,
        p + 1,
        ValueView::Unsigned(code as u64),
    );
    assert(wrote(m, x, at, end) && x.trace.depth == m.trace.depth + 1 && opened(
        x,
        m.trace.depth,
        id,
        m.source,
        p,
    ) && kids(x, id, m.source, p, p + 1) && x.count() > id) by {
        broadcast use {keeping_nested, moving};

    }
    if code == 0 || code == 255 {
        let y = if code == 0 {
            x.set_text(id, "Option: (0) Pad"@)
        } else {
            x.set_text(id, "Option: (255) End"@).leaf(
                "dhcp.option.end"@,
                p,
                p + 1,
                ValueView::Empty,
            )
        };
        assert(wrote(m, y, at, end) && y.trace.depth == m.trace.depth + 1 && opened(
            y,
            m.trace.depth,
            id,
            m.source,
            p,
        ) && kids(y, id, m.source, p, p + 1)) by {
            broadcast use {keeping_nested, moving};

        }
        shut(m, y, id, p, p + 1, at, end);
    } else if i + 1 < d.len() {
        let len = d[i + 1] as int;
        let stop = p + 2 + len;
        let y = x.leaf("dhcp.option.length"@, p + 1, p + 2, ValueView::Unsigned(d[i + 1] as u64));
        assert(kids(x, id, m.source, p, stop)) by {
            reveal(kids);
        }
        assert(wrote(m, y, at, end) && y.trace.depth == m.trace.depth + 1 && opened(
            y,
            m.trace.depth,
            id,
            m.source,
            p,
        ) && kids(y, id, m.source, p, stop) && fits_all(y, at, end)) by {
            broadcast use {keeping_nested, moving};

        }
        if d.len() - i - 2 >= len {
            let b = d.subrange(i + 2, i + 2 + len);
            assert(fits_all(y, p + 2, p + 2 + b.len()));
            option_body_nests(code, b, p + 2, y);
            let (z, detail) = option_body(code, b, p + 2, y);
            wrote_on(m, y, z, at, end, p + 2, stop);
            assert(kids(z, id, m.source, p, stop));
            assert(opened(z, m.trace.depth, id, m.source, p));
            let w = z.set_text(id, option_label(code, detail));
            assert(wrote(m, w, at, end) && w.trace.depth == m.trace.depth + 1 && opened(
                w,
                m.trace.depth,
                id,
                m.source,
                p,
            ) && kids(w, id, m.source, p, stop)) by {
                broadcast use {keeping_nested, moving};

            }
            shut(m, w, id, p, stop, at, end);
        }
    }
}

proof fn options_nest(d: Seq<u8>, i: int, at: int, m: Model, kind: Option<u8>)
    requires
        fits_all(m, at, at + d.len()),
        m.trace.depth < 230,
    ensures
        closed_in(m, options(d, i, at, m, kind).0, at, at + d.len()),
    decreases d.len() - i,
{
    let end = at + d.len();
    assert(wrote(m, m, at, end));
    if 0 <= i < d.len() {
        option_nests(d, i, at, m);
        let (next, j, step) = option(d, i, at, m);
        let known = if type_at(d, i) is Some {
            type_at(d, i)
        } else {
            kind
        };
        if step is Next && i < j <= d.len() {
            assert(fits_all(next, at, end));
            options_nest(d, j, at, next, known);
            wrote_on(m, next, options(d, j, at, next, known).0, at, end, at, end);
        } else {
            broadcast use {keeping_nested, moving};

        }
    }
}

#[verifier::spinoff_prover]
proof fn header_nests(d: Seq<u8>, m: Model)
    requires
        begins(d, m),
        236 <= d.len(),
    ensures
        ({
            let x = header_fields(d, m);
            &&& wrote(m, x, m.base, m.base + d.len())
            &&& x.trace.depth == m.trace.depth + 1
            &&& x.count() > m.count()
            &&& m.set_protocol("dhcp"@).count() == m.count()
            &&& fits_all(x, m.base, m.base + d.len())
        }),
{
    broadcast use {keeping_nested, moving};

}

pub proof fn dhcp_nests(d: Seq<u8>, m: Model)
    requires
        begins(d, m),
    ensures
        nests(d, m, layer(d, m)),
{
    let a = m.base;
    let end = a + d.len();
    assert(wrote(m, m, a, end));
    if d.len() >= 236 {
        header_nests(d, m);
        let h = header_fields(d, m);
        let value = ValueView::Unsigned(be32(d, 236) as u64);
        let c = h.leaf("dhcp.cookie"@, a + 236, a + 240, value);
        if d.len() >= 240 {
            assert(closed_in(h, c, a, end) && fits_all(c, a, end)) by {
                broadcast use {keeping_nested, moving};

            }
            options_nest(d, 240, a, c, None);
            wrote_on(h, c, options(d, 240, a, c, None).0, a, end, a, end);
        }
        assert(wrote(h, h, a, end));
        let (x, kind) = with_options(d, a, h);
        assert(closed_in(h, x, a, end));
        wrote_on(m, h, x, a, end, a, end);
        let name = kind_name(d[0], kind);
        let text = "Dynamic Host Configuration Protocol ("@ + name + ")"@;
        let y = x.set_text(m.count(), text).set_info(info_text(d, name)).end();
        assert(wrote(m, y, a, end)) by {
            broadcast use {keeping_nested, moving};

        }
        assert(layer(d, m).0 == y);
    }
}

} // verus!

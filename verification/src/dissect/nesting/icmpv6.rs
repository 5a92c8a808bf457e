//! ICMPv6.

use vstd::prelude::*;

use super::ops::{keeping_nested, moving};
use super::{begins, closed_in, fits_all, kids, nests, opened, shut, wrote, wrote_on};
use crate::dissect::ctx::Model;
use crate::dissect::node::ValueView;
use crate::dissect::proto::icmpv6::{
    body, layer, least_len, option, option_body, options, rest_as_data, status_of,
};
use crate::dissect::registry::named_or;
use crate::dissect::reporting::icmpv6::head;
use crate::dissect::tables::ICMPV6_TYPES;

verus! {

proof fn option_body_nests(d: Seq<u8>, i: int, at: int, ty: u8, len: u8, m: Model)
    requires
        fits_all(m, at + i, at + i + len * 8 - 2),
        0 <= i,
        0 < len,
    ensures
        closed_in(m, option_body(d, i, at, ty, len, m).0, at + i, at + i + len * 8 - 2),
{
    broadcast use {keeping_nested, moving};

}

proof fn option_nests(d: Seq<u8>, i: int, at: int, m: Model)
    requires
        fits_all(m, at, at + d.len()),
        m.trace.depth < 230,
        0 <= i < d.len(),
    ensures
        closed_in(m, option(d, i, at, m).0, at, at + d.len()),
        i < option(d, i, at, m).1 <= d.len(),
{
    let p = at + i;
    let ty = d[i];
    let end = at + d.len();
    let id = m.count();
    let x = m.begin("icmpv6.opt"@, p, p).leaf(
        "icmpv6.opt.type"@,
        p,
        p + 1,
        ValueView::Unsigned(ty as u64),
    );
    assert(wrote(m, x, at, end) && x.trace.depth == m.trace.depth + 1 && opened(
        x,
        m.trace.depth,
        id,
        m.source,
        p,
    ) && kids(x, id, m.source, p, p + 1) && x.count() > id) by {
        broadcast use {keeping_nested, moving};

    }
    if i + 1 >= d.len() {
        shut(m, x, id, p, p + 1, at, end);
    } else {
        let len = d[i + 1];
        let y = x.leaf("icmpv6.opt.length"@, p + 1, p + 2, ValueView::Unsigned(len as u64));
        assert(kids(x, id, m.source, p, p + 2)) by {
            reveal(kids);
        }
        assert(wrote(m, y, at, end) && y.trace.depth == m.trace.depth + 1 && opened(
            y,
            m.trace.depth,
            id,
            m.source,
            p,
        ) && kids(y, id, m.source, p, p + 2) && fits_all(y, at, end)) by {
            broadcast use {keeping_nested, moving};

        }
        if len == 0 || d.len() - i - 2 < len * 8 - 2 {
            shut(m, y, id, p, p + 2, at, end);
        } else {
            let stop = p + len * 8;
            assert(fits_all(y, p + 2, stop));
            option_body_nests(d, i + 2, at, ty, len, y);
            let (z, text) = option_body(d, i + 2, at, ty, len, y);
            assert(kids(y, id, m.source, p, stop)) by {
                reveal(kids);
            }
            wrote_on(m, y, z, at, end, p + 2, stop);
            assert(kids(z, id, m.source, p, stop));
            assert(opened(z, m.trace.depth, id, m.source, p));
            let w = z.set_text(id, text);
            assert(wrote(m, w, at, end) && w.trace.depth == m.trace.depth + 1 && opened(
                w,
                m.trace.depth,
                id,
                m.source,
                p,
            ) && kids(w, id, m.source, p, stop)) by {
                broadcast use {keeping_nested, moving};

            }
            shut(m, w, id, p, stop, at, end);
        }
    }
}

proof fn options_nest(d: Seq<u8>, i: int, at: int, m: Model)
    requires
        fits_all(m, at, at + d.len()),
        m.trace.depth < 230,
    ensures
        closed_in(m, options(d, i, at, m), at, at + d.len()),
    decreases d.len() - i,
{
    let end = at + d.len();
    assert(wrote(m, m, at, end));
    if 0 <= i < d.len() {
        option_nests(d, i, at, m);
        let (next, j, e) = option(d, i, at, m);
        if e is None && i < j <= d.len() {
            assert(fits_all(next, at, end));
            options_nest(d, j, at, next);
            wrote_on(m, next, options(d, j, at, next), at, end, at, end);
        } else {
            broadcast use {keeping_nested, moving};

        }
    }
}

proof fn body_nests(d: Seq<u8>, a: int, kind: Seq<char>, m: Model)
    requires
        fits_all(m, a, a + d.len()),
        m.trace.depth < 220,
        least_len(d[0]) <= d.len(),
    ensures
        closed_in(m, body(d, a, kind, m), a, a + d.len()),
{
    let end = a + d.len();
    assert forall|i: int, x: Model|
        closed_in(m, x, a, end) && fits_all(x, a, end) implies #[trigger] closed_in(
        m,
        options(d, i, a, x),
        a,
        end,
    ) by {
        options_nest(d, i, a, x);
        wrote_on(m, x, options(d, i, a, x), a, end, a, end);
    }
    assert forall|i: int, x: Model|
        0 <= i && closed_in(m, x, a, end) && fits_all(x, a, end) implies #[trigger] closed_in(
        m,
        rest_as_data(d, i, a, x),
        a,
        end,
    ) by {
        broadcast use {keeping_nested, moving};

    }
    broadcast use {keeping_nested, moving};

}

proof fn head_nests(d: Seq<u8>, status: u64, m: Model)
    requires
        begins(d, m),
        4 <= d.len(),
    ensures
        ({
            let x = head(d, status, m);
            &&& wrote(m, x, m.base, m.base + d.len())
            &&& x.trace.depth == m.trace.depth + 1
            &&& opened(x, m.trace.depth, m.count(), m.source, m.base)
            &&& fits_all(x, m.base, m.base + d.len())
        }),
{
    broadcast use {keeping_nested, moving};

}

pub proof fn layer_nests(d: Seq<u8>, m: Model)
    requires
        begins(d, m),
    ensures
        nests(d, m, layer(d, m)),
{
    let a = m.base;
    let end = a + d.len();
    assert(wrote(m, m, a, end));
    if d.len() >= 4 {
        let status = status_of(d, m);
        head_nests(d, status, m);
        let h = head(d, status, m);
        let kind = named_or(ICMPV6_TYPES@, d[0] as u64, "Unknown"@);
        if d.len() >= least_len(d[0]) {
            body_nests(d, a, kind, h);
            let b = body(d, a, kind, h);
            wrote_on(m, h, b, a, end, a, end);
            assert(wrote(m, b.end(), a, end)) by {
                broadcast use {keeping_nested, moving};

            }
        }
    }
}

} // verus!

//! IPv4.

use vstd::prelude::*;

use super::ops::{keeping_nested, moving};
use super::{
    begins, closed_in, fine, fits_all, kids, nests, opened, roomy, roomy_elsewhere, shut, wrote,
    wrote_on,
};
use crate::bytes::be16;
use crate::dissect::ctx::{AddrsView, Model, Proto};
use crate::dissect::cursor::SourceId;
use crate::dissect::node::ValueView;
use crate::dissect::proto::ipv4::{
    flags_label, fragment, fragment_rows, header_fields, layer, offloaded, option, option_body,
    options, own_row, payload_len, routes, status_of,
};
use crate::dissect::proto::{checked, next_by_ipproto};
use crate::dissect::ranges::names::ipv4_names;
use crate::dissect::ranges::network::{ipv4_header_stays, ipv4_options_stay};
use crate::dissect::ranges::{
    fragments_stay_collected, keeping_inside, nothing_written, ready, within, within_counts,
    within_tidy,
};
use crate::dissect::reassembly::{tidy, FragInfo, FragKeyView, FragResultView};
use crate::dissect::registry::named_or;
use crate::dissect::reporting::network::{with_name, with_options};
use crate::dissect::tables::IPPROTOS;
use crate::dissect::AddrView;
use crate::text::{dec, hex_pad};

verus! {

proof fn routes_nest(b: Seq<u8>, i: int, at: int, m: Model)
    requires
        fits_all(m, at, at + b.len()),
    ensures
        closed_in(m, routes(b, i, at, m), at, at + b.len()),
    decreases b.len() - i,
{
    broadcast use {keeping_nested, moving};

    if 0 <= i && i + 4 <= b.len() {
        let value = ValueView::Ipv4(b.subrange(i, i + 4));
        routes_nest(b, i + 4, at, m.leaf("ip.opt.route"@, at + i, at + i + 4, value));
    }
}

proof fn option_body_nests(ty: u8, len: u8, b: Seq<u8>, at: int, m: Model)
    requires
        fits_all(m, at, at + b.len()),
    ensures
        closed_in(m, option_body(ty, len, b, at, m).0, at, at + b.len()),
{
    broadcast use {keeping_nested, moving};

    if b.len() > 0 {
        let value = ValueView::Unsigned(b[0] as u64);
        let x = m.leaf("ip.opt.ptr"@, at, at + 1, value);
        routes_nest(b, 1, at, x);
        wrote_on(m, x, routes(b, 1, at, x), at, at + b.len(), at, at + b.len());
    }
}

proof fn option_nests(o: Seq<u8>, i: int, at: int, m: Model)
    requires
        fits_all(m, at, at + o.len()),
        m.trace.depth < 230,
        0 <= i < o.len(),
    ensures
        ({
            let x = option(o, i, at, m);
            &&& wrote(m, x.0, at, at + o.len())
            &&& x.0.trace.depth >= m.trace.depth
            &&& !(x.2 is Failed) ==> x.0.trace.depth == m.trace.depth
            &&& i < x.1 <= o.len()
        }),
{
    let p = at + i;
    let ty = o[i];
    let end = at + o.len();
    let id = m.count();
    let x = m.begin("ip.opt"@, p, p).leaf(
        "ip.opt.type"@,
        p,
        p + 1,
        ValueView::Unsigned(ty as u64),
    );
    assert(wrote(m, x, at, end) && x.trace.depth == m.trace.depth + 1 && opened(
        x,
        m.trace.depth,
        id,
        m.source,
        p,
    ) && kids(x, id, m.source, p, p + 1) && x.count() > id && fits_all(x, at, end)) by {
        broadcast use {keeping_nested, moving};

    }
    if ty == 0 || ty == 1 {
        let text = if ty == 0 {
            "End of Options List (EOL)"@
        } else {
            "No-Operation (NOP)"@
        };
        let y = x.set_text(id, text);
        assert(wrote(m, y, at, end) && y.trace.depth == m.trace.depth + 1 && opened(
            y,
            m.trace.depth,
            id,
            m.source,
            p,
        ) && kids(y, id, m.source, p, p + 1)) by {
            broadcast use {keeping_nested, moving};

        }
        shut(m, y, id, p, p + 1, at, end);
    } else if i + 1 < o.len() && o[i + 1] >= 2 {
        let len = o[i + 1];
        let y = x.leaf("ip.opt.len"@, p + 1, p + 2, ValueView::Unsigned(len as u64));
        assert(wrote(m, y, at, end) && y.trace.depth == m.trace.depth + 1 && opened(
            y,
            m.trace.depth,
            id,
            m.source,
            p,
        ) && kids(y, id, m.source, p, p + len) && fits_all(y, at, end)) by {
            assert(kids(x, id, m.source, p, p + len)) by {
                reveal(kids);
            }
            broadcast use {keeping_nested, moving};

        }
        if o.len() - i - 2 >= len - 2 {
            let b = o.subrange(i + 2, i + len);
            assert(fits_all(y, p + 2, p + 2 + b.len()));
            option_body_nests(ty, len, b, p + 2, y);
            let (z, text) = option_body(ty, len, b, p + 2, y);
            wrote_on(m, y, z, at, end, p + 2, p + len);
            assert(kids(z, id, m.source, p, p + len));
            assert(opened(z, m.trace.depth, id, m.source, p));
            let w = z.set_text(id, text);
            assert(wrote(m, w, at, end) && w.trace.depth == m.trace.depth + 1 && opened(
                w,
                m.trace.depth,
                id,
                m.source,
                p,
            ) && kids(w, id, m.source, p, p + len)) by {
                broadcast use {keeping_nested, moving};

            }
            shut(m, w, id, p, p + len, at, end);
        }
    }
}

proof fn options_nest(o: Seq<u8>, i: int, at: int, m: Model)
    requires
        fits_all(m, at, at + o.len()),
        m.trace.depth < 230,
    ensures
        closed_in(m, options(o, i, at, m), at, at + o.len()),
    decreases o.len() - i,
{
    let end = at + o.len();
    assert(wrote(m, m, at, end));
    if 0 <= i < o.len() {
        option_nests(o, i, at, m);
        let (next, j, step) = option(o, i, at, m);
        if step is Next && i < j <= o.len() {
            assert(fits_all(next, at, end));
            options_nest(o, j, at, next);
            wrote_on(m, next, options(o, j, at, next), at, end, at, end);
        } else {
            broadcast use {keeping_nested, moving};

        }
    }
}

proof fn with_options_nests(d: Seq<u8>, ihl: int, m: Model)
    requires
        fits_all(m, m.base, m.base + d.len()),
        m.trace.depth < 220,
        20 <= ihl <= d.len(),
    ensures
        closed_in(m, with_options(d, ihl, m), m.base, m.base + ihl),
{
    let a = m.base;
    let o = d.subrange(20, ihl);
    let x = m.begin_text(
        "ip.options"@,
        a + 20,
        a + ihl,
        "Options: ("@ + dec(ihl - 20) + " bytes)"@,
    );
    assert(wrote(m, m, a, a + ihl));
    if ihl > 20 {
        assert(wrote(m, x, a, a + ihl) && x.trace.depth == m.trace.depth + 1 && fits_all(
            x,
            a + 20,
            a + ihl,
        )) by {
            broadcast use {keeping_nested, moving};

        }
        options_nest(o, 0, a + 20, x);
        let y = options(o, 0, a + 20, x);
        wrote_on(m, x, y, a, a + ihl, a + 20, a + ihl);
        assert(closed_in(m, y.end(), a, a + ihl)) by {
            broadcast use {keeping_nested, moving};

        }
    }
}

/// The header up to the length of the packet, its row open.
spec fn first_half(d: Seq<u8>, m: Model, ihl: int) -> Model {
    let a = m.base;
    let ds = d[1];
    let src = d.subrange(12, 16);
    let dst = d.subrange(16, 20);
    let m = m.set_protocol("ip"@).between(AddrView::Ipv4(src), AddrView::Ipv4(dst)).with_addrs(
        Some(AddrsView::V4(src, dst)),
    ).begin("ip"@, a, a).leaf(
        "ip.version"@,
        a,
        a + 1,
        ValueView::Unsigned((d[0] >> 4) as u64),
    ).leaf("ip.hdr_len"@, a, a + 1, ValueView::Unsigned(ihl as u64)).begin_value(
        "ip.dsfield"@,
        a + 1,
        a + 2,
        ValueView::Unsigned(ds as u64),
    ).leaf("ip.dsfield.dscp"@, a + 1, a + 2, ValueView::Unsigned((ds >> 2) as u64)).leaf(
        "ip.dsfield.ecn"@,
        a + 1,
        a + 2,
        ValueView::Unsigned((ds & 3) as u64),
    ).end().leaf("ip.len"@, a + 2, a + 4, ValueView::Unsigned(be16(d, 2) as u64));
    let m = if offloaded(d, ihl) {
        m.leaf("ip.len_tso"@, a + 2, a + 4, ValueView::Bool(true))
    } else {
        m
    };
    m.leaf("ip.id"@, a + 4, a + 6, ValueView::Unsigned(be16(d, 4) as u64))
}

proof fn first_half_nests(d: Seq<u8>, m: Model, ihl: int)
    requires
        begins(d, m),
        20 <= d.len(),
    ensures
        ({
            let x = first_half(d, m, ihl);
            &&& wrote(m, x, m.base, m.base + 20)
            &&& x.trace.depth == m.trace.depth + 1
            &&& x.count() > m.count()
            &&& opened(x, m.trace.depth, m.count(), m.source, m.base)
            &&& kids(x, m.count(), m.source, m.base, m.base + 20)
            &&& fits_all(x, m.base, m.base + d.len())
            &&& own_row(d, m) == m.count()
        }),
{
    broadcast use {keeping_nested, moving};

}

proof fn header_nests(d: Seq<u8>, m: Model, ihl: int, status: u64)
    requires
        begins(d, m),
        20 <= d.len(),
    ensures
        ({
            let x = header_fields(d, m, ihl, status);
            &&& wrote(m, x, m.base, m.base + 20)
            &&& x.trace.depth == m.trace.depth + 1
            &&& opened(x, m.trace.depth, m.count(), m.source, m.base)
            &&& kids(x, m.count(), m.source, m.base, m.base + 20)
            &&& fits_all(x, m.base, m.base + d.len())
            &&& own_row(d, m) == m.count()
        }),
{
    let a = m.base;
    let flags = be16(d, 6);
    first_half_nests(d, m, ihl);
    let h = first_half(d, m, ihl);
    let fl = h.count();
    let x = h.begin_value(
        "ip.flags"@,
        a + 6,
        a + 8,
        ValueView::Unsigned((flags >> 13) as u64),
    ).set_text(fl, flags_label(flags)).leaf(
        "ip.flags.rb"@,
        a + 6,
        a + 8,
        ValueView::Bool(flags & 0x8000 != 0),
    ).leaf("ip.flags.df"@, a + 6, a + 8, ValueView::Bool(flags & 0x4000 != 0)).leaf(
        "ip.flags.mf"@,
        a + 6,
        a + 8,
        ValueView::Bool(flags & 0x2000 != 0),
    ).end().leaf(
        "ip.frag_offset"@,
        a + 6,
        a + 8,
        ValueView::Unsigned(((flags & 0x1fff) * 8) as u64),
    ).leaf("ip.ttl"@, a + 8, a + 9, ValueView::Unsigned(d[8] as u64)).leaf(
        "ip.proto"@,
        a + 9,
        a + 10,
        ValueView::Unsigned(d[9] as u64),
    ).leaf("ip.checksum"@, a + 10, a + 12, ValueView::Unsigned(be16(d, 10) as u64));
    assert(closed_in(h, x, a, a + 20) && fits_all(x, a, a + d.len())) by {
        broadcast use {keeping_nested, moving};

    }
    let y = checked(x, "ip.checksum.status"@, a + 10, a + 12, status).leaf(
        "ip.src"@,
        a + 12,
        a + 16,
        ValueView::Ipv4(d.subrange(12, 16)),
    ).leaf("ip.dst"@, a + 16, a + 20, ValueView::Ipv4(d.subrange(16, 20)));
    assert(closed_in(x, y, a, a + 20) && fits_all(y, a, a + d.len())) by {
        broadcast use {keeping_nested, moving};

    }
    wrote_on(m, h, x, a, a + 20, a, a + 20);
    wrote_on(m, x, y, a, a + 20, a, a + 20);
    assert(kids(x, m.count(), m.source, a, a + 20));
    assert(kids(y, m.count(), m.source, a, a + 20));
    assert(y == header_fields(d, m, ihl, status));
}

proof fn fragment_rows_nest(f: Seq<FragInfo>, i: int, m: Model, total: int)
    requires
        fits_all(m, 0, total),
        forall|k: int| 0 <= k < f.len() ==> (#[trigger] f[k]).end() <= total,
    ensures
        closed_in(m, fragment_rows(f, i, m), 0, total),
        forall|id: int, s: SourceId, a: int, b: int|
            kids(m, id, s, a, b) && s != m.source ==> #[trigger] kids(
                fragment_rows(f, i, m),
                id,
                s,
                a,
                b,
            ),
        forall|d: int, s: SourceId, a: int, b: int|
            roomy(m, d, s, a, b) && d < m.trace.depth ==> #[trigger] roomy(
                fragment_rows(f, i, m),
                d,
                s,
                a,
                b,
            ),
        forall|d: int, id: int, s: SourceId, p: int|
            opened(m, d, id, s, p) ==> #[trigger] opened(fragment_rows(f, i, m), d, id, s, p),
    decreases f.len() - i,
{
    broadcast use {keeping_nested, moving};

    if 0 <= i < f.len() {
        let (from, to) = (f[i].offset as int, f[i].offset + f[i].len);
        assert(f[i].end() <= total);
        let text = "[Frame: "@ + dec(f[i].frame as int) + ", payload: "@ + dec(from) + "-"@ + dec(
            to,
        ) + " ("@ + dec(f[i].len as int) + " bytes)]"@;
        let x = m.leaf_text("ip.fragment"@, from, to, ValueView::Empty, text);
        fragment_rows_nest(f, i + 1, x, total);
    }
}

proof fn complete_nests(
    m: Model,
    ip: int,
    p: int,
    data: Seq<u8>,
    frags: Seq<FragInfo>,
    next: Proto,
    lo: int,
    hi: int,
)
    requires
        fine(m),
        0 < m.trace.depth < 230,
        opened(m, m.trace.depth - 1, ip, m.source, p),
        m.source <= m.extra.len() < 255,
        forall|k: int| 0 <= k < frags.len() ==> (#[trigger] frags[k]).end() <= data.len(),
    ensures
        ({
            let total = data.len() as int;
            let id = m.next_source();
            let open = m.add_source(data).in_source(id).begin_text(
                "ip.fragments"@,
                0,
                total,
                "["@ + dec(frags.len() as int) + " IPv4 Fragments ("@ + dec(total) + " bytes)]"@,
            );
            let done = fragment_rows(frags, 0, open).leaf(
                "ip.fragment.count"@,
                0,
                0,
                ValueView::Unsigned(frags.len() as u64),
            ).leaf("ip.reassembled.length"@, 0, 0, ValueView::Unsigned(total as u64)).leaf(
                "ip.reassembled.data"@,
                0,
                total,
                ValueView::Bytes,
            ).end();
            closed_in(m, done.in_source(m.source).call_next_in_source(next, id), lo, hi)
        }),
{
    let total = data.len() as int;
    let id = m.next_source();
    let z = m.add_source(data).in_source(id);
    assert(id != m.source && z.source == id && z.base == m.base) by {
        reveal(Model::add_source);
        reveal(Model::in_source);
    }
    assert(fine(z) && z.trace.depth == m.trace.depth && z.count() == m.count() && opened(
        z,
        m.trace.depth - 1,
        ip,
        m.source,
        p,
    )) by {
        broadcast use {keeping_nested, moving};

    }
    let text = "["@ + dec(frags.len() as int) + " IPv4 Fragments ("@ + dec(total) + " bytes)]"@;
    let open = z.begin_text("ip.fragments"@, 0, total, text);
    assert(fits_all(open, 0, total) && open.trace.depth == m.trace.depth + 1 && open.source == id
        && open.base == m.base) by {
        roomy_elsewhere(z, m.trace.depth - 1, ip, m.source, p, id, 0, total);
        broadcast use {keeping_nested, moving};

    }
    fragment_rows_nest(frags, 0, open, total);
    let rows = fragment_rows(frags, 0, open);
    let done = rows.leaf(
        "ip.fragment.count"@,
        0,
        0,
        ValueView::Unsigned(frags.len() as u64),
    ).leaf("ip.reassembled.length"@, 0, 0, ValueView::Unsigned(total as u64)).leaf(
        "ip.reassembled.data"@,
        0,
        total,
        ValueView::Bytes,
    ).end();
    let last = done.in_source(m.source).call_next_in_source(next, id);
    assert(last.source == m.source) by {
        reveal(Model::in_source);
        reveal(Model::call_next_in_source);
    }
    assert(fine(last) && last.trace.depth == m.trace.depth && last.base == m.base && last.count()
        >= m.count()) by {
        assert(fits_all(rows, 0, total));
        broadcast use {keeping_nested, moving};

    }
    assert forall|i: int, a: int, b: int|
        kids(m, i, m.source, a, b) && a <= lo && hi <= b implies #[trigger] kids(
        last,
        i,
        m.source,
        a,
        b,
    ) by {
        broadcast use {keeping_nested, moving};

        assert(kids(open, i, m.source, a, b));
        assert(kids(rows, i, m.source, a, b));
    }
    assert forall|d: int, a: int, b: int|
        roomy(m, d, m.source, a, b) && d < m.trace.depth implies #[trigger] roomy(
        last,
        d,
        m.source,
        a,
        b,
    ) by {
        broadcast use {keeping_nested, moving};

        assert(roomy(open, d, m.source, a, b));
        assert(roomy(rows, d, m.source, a, b));
    }
    assert forall|d: int, i: int, q: int|
        opened(m, d, i, m.source, q) implies #[trigger] opened(last, d, i, m.source, q) by {
        broadcast use {keeping_nested, moving};

        assert(opened(open, d, i, m.source, q));
        assert(opened(rows, d, i, m.source, q));
    }
}

proof fn fragment_nests(
    m: Model,
    ip: int,
    p: int,
    key: FragKeyView,
    offset: usize,
    more: bool,
    payload: Seq<u8>,
    head: int,
    next: Proto,
    lo: int,
    hi: int,
)
    requires
        fine(m),
        0 < m.trace.depth < 230,
        opened(m, m.trace.depth - 1, ip, m.source, p),
        m.nesting > 0 || (m.source <= m.extra.len() < 255 && tidy(m.state.reassembly)),
    ensures
        closed_in(m, fragment(m, key, offset, more, payload, head, next), lo, hi),
{
    let (x, result) = if m.nesting == 0 {
        m.add_fragment(key, offset, more, payload)
    } else {
        (m, FragResultView::Rejected("nested fragment"@))
    };
    assert(closed_in(m, x, lo, hi) && x.extra == m.extra) by {
        broadcast use {keeping_nested, moving};

    }
    if let FragResultView::Complete { data, frags } = result {
        assert(forall|k: int| 0 <= k < frags.len() ==> (#[trigger] frags[k]).end() <= data.len())
            by {
            reveal(Model::add_fragment);
            fragments_stay_collected(
                m.state.reassembly,
                key,
                offset,
                more,
                payload,
                m.frame_number,
                m.ts,
            );
        }
        assert(opened(x, x.trace.depth - 1, ip, x.source, p));
        complete_nests(x, ip, p, data, frags, next, lo, hi);
        let last = fragment(m, key, offset, more, payload, head, next);
        assert(closed_in(x, last, lo, hi));
        wrote_on(m, x, last, lo, hi, lo, hi);
    } else {
        broadcast use {keeping_nested, moving};

    }
}

/// What is known of the frame once the header has been read.
proof fn header_stays(d: Seq<u8>, m: Model, ihl: int, info: Seq<char>, n: int)
    requires
        ready(d, m, n),
        20 <= ihl <= d.len(),
    ensures
        ({
            let h = header_fields(d, m, ihl, status_of(d, m, ihl));
            let x = with_name(d[9], with_options(d, ihl, h)).set_info(info);
            within(m, x, n)
        }),
{
    ipv4_names();
    nothing_written(m, n);
    let status = status_of(d, m, ihl);
    let a = m.base;
    ipv4_header_stays(m, d, m, ihl, status, n);
    let h = header_fields(d, m, ihl, status);
    within_counts(m, h, n);
    let open = h.begin_text(
        "ip.options"@,
        a + 20,
        a + ihl,
        "Options: ("@ + dec(ihl - 20) + " bytes)"@,
    );
    assert(within(m, open, n)) by {
        broadcast use keeping_inside;

    }
    ipv4_options_stay(m, d.subrange(20, ihl), 0, a + 20, open, n);
    assert(within(m, with_options(d, ihl, h), n)) by {
        broadcast use keeping_inside;

    }
    broadcast use keeping_inside;

}

pub proof fn ipv4_nests(d: Seq<u8>, m: Model, n: int)
    requires
        begins(d, m),
        ready(d, m, n),
    ensures
        nests(d, m, layer(d, m)),
{
    let k = d.len() as int;
    let ihl = (d[0] & 0x0f) * 4;
    let a = m.base;
    assert(wrote(m, m, a, a + k));
    if k >= 20 && d[0] >> 4 == 4 && ihl >= 20 {
        let status = status_of(d, m, ihl);
        let id = m.count();
        header_nests(d, m, ihl, status);
        let h = header_fields(d, m, ihl, status);
        if ihl <= k {
            with_options_nests(d, ihl, h);
            let o = with_options(d, ihl, h);
            let proto = d[9];
            let q = with_name(proto, o);
            assert(closed_in(o, q, a, a + ihl)) by {
                broadcast use {keeping_nested, moving};

            }
            wrote_on(h, o, q, a, a + ihl, a, a + ihl);
            wrote_on(m, h, q, a, a + k, a, a + ihl);
            assert(kids(h, id, m.source, a, a + ihl)) by {
                reveal(kids);
            }
            assert(kids(q, id, m.source, a, a + ihl));
            assert(opened(q, m.trace.depth, id, m.source, a));
            let ident = be16(d, 4);
            let more = be16(d, 6) & 0x2000 != 0;
            let offset = (be16(d, 6) & 0x1fff) * 8;
            let len = payload_len(d, ihl);
            let next = next_by_ipproto(proto);
            let name = named_or(IPPROTOS@, proto as u64, "Unknown"@);
            if more || offset > 0 {
                let info = "Fragmented IP protocol (proto="@ + name + " "@ + dec(proto as int)
                    + ", off="@ + dec(offset) + ", ID="@ + hex_pad(ident as int, 4) + ")"@;
                let t = q.set_info(info);
                assert(closed_in(q, t, a, a + ihl)) by {
                    broadcast use {keeping_nested, moving};

                }
                wrote_on(m, q, t, a, a + k, a, a + ihl);
                let key = FragKeyView {
                    src: d.subrange(12, 16),
                    dst: d.subrange(16, 20),
                    id: ident,
                    proto,
                };
                let part = d.subrange(ihl, ihl + len);
                header_stays(d, m, ihl, info, n);
                within_counts(m, t, n);
                within_tidy(m, t, n);
                assert(opened(t, t.trace.depth - 1, id, t.source, a));
                fragment_nests(
                    t,
                    id,
                    a,
                    key,
                    offset as usize,
                    more,
                    part,
                    ihl,
                    next,
                    a,
                    a + ihl,
                );
                let f = fragment(t, key, offset as usize, more, part, ihl, next);
                wrote_on(m, t, f, a, a + k, a, a + ihl);
                assert(kids(t, id, m.source, a, a + ihl));
                assert(kids(f, id, m.source, a, a + ihl));
                assert(opened(f, m.trace.depth, id, m.source, a));
                shut(m, f, id, a, a + ihl, a, a + k);
                assert(layer(d, m).0 == f.end_at(id, a + ihl));
            } else {
                shut(m, q, id, a, a + ihl, a, a + k);
                let l = q.end_at(id, a + ihl).call_next_bounded(next, ihl, len);
                assert(wrote(m, l, a, a + k)) by {
                    broadcast use {keeping_nested, moving};

                }
                assert(layer(d, m).0 == l);
            }
        } else {
            assert(layer(d, m).0 == h);
        }
    }
}

} // verus!

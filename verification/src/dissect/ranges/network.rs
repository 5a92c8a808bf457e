//! IPv4.

use vstd::prelude::*;

use super::names::{ipv4_names, unasked};
use super::transport::checked_stays;
use super::{
    fragments_stay_collected, grown, hands_on, keeping_inside, nothing_written, ready, room, space,
    within, within_grows, within_tidy,
};
use crate::bytes::be16;
use crate::dissect::ctx::{Model, Proto};
use crate::dissect::node::ValueView;
use crate::dissect::proto::{checked, ipv4, next_by_ipproto};
use crate::dissect::reassembly::{tidy, FragInfo, FragKeyView, FragResultView};
use crate::dissect::registry::named_or;
use crate::dissect::reporting::verdicts::no_verdict;
use crate::dissect::tables::IPPROTOS;
use crate::text::{dec, hex_pad};

verus! {

// ---- IPv4 -----------------------------------------------------------------------------

proof fn routes_stay(m0: Model, b: Seq<u8>, i: int, at: int, m: Model, n: int)
    requires
        within(m0, m, n),
        0 <= at,
        at + b.len() <= space(m0, n),
    ensures
        within(m0, ipv4::routes(b, i, at, m), n),
        ipv4::routes(b, i, at, m).count() >= m.count(),
    decreases b.len() - i,
{
    broadcast use keeping_inside;

    ipv4_names();
    if 0 <= i && i + 4 <= b.len() {
        routes_stay(
            m0,
            b,
            i + 4,
            at,
            m.leaf("ip.opt.route"@, at + i, at + i + 4, ValueView::Ipv4(b.subrange(i, i + 4))),
            n,
        );
    }
}

proof fn ipv4_option_body_stays(
    m0: Model,
    ty: u8,
    len: u8,
    b: Seq<u8>,
    at: int,
    m: Model,
    n: int,
)
    requires
        within(m0, m, n),
        0 <= at,
        at + b.len() <= space(m0, n),
    ensures
        within(m0, ipv4::option_body(ty, len, b, at, m).0, n),
        ipv4::option_body(ty, len, b, at, m).0.count() >= m.count(),
{
    broadcast use keeping_inside;

    ipv4_names();
    if b.len() > 0 {
        let open = m.leaf("ip.opt.ptr"@, at, at + 1, ValueView::Unsigned(b[0] as u64));
        routes_stay(m0, b, 1, at, open, n);
    }
}

proof fn ipv4_option_stays(m0: Model, o: Seq<u8>, i: int, at: int, m: Model, n: int)
    requires
        within(m0, m, n),
        0 <= i < o.len(),
        0 <= at,
        at + o.len() <= space(m0, n),
    ensures
        within(m0, ipv4::option(o, i, at, m).0, n),
        ipv4::option(o, i, at, m).0.count() >= m.count(),
        i <= ipv4::option(o, i, at, m).1 <= o.len(),
{
    broadcast use keeping_inside;

    ipv4_names();
    if i + 1 < o.len() {
        let p = at + i;
        let ty = o[i];
        let len = o[i + 1];
        if 2 <= len <= o.len() - i {
            let open = m.begin("ip.opt"@, p, p).leaf(
                "ip.opt.type"@,
                p,
                p + 1,
                ValueView::Unsigned(ty as u64),
            ).leaf("ip.opt.len"@, p + 1, p + 2, ValueView::Unsigned(len as u64));
            assert(within(m0, open, n));
            ipv4_option_body_stays(m0, ty, len, o.subrange(i + 2, i + len), p + 2, open, n);
        }
    }
}

pub proof fn ipv4_options_stay(m0: Model, o: Seq<u8>, i: int, at: int, m: Model, n: int)
    requires
        within(m0, m, n),
        0 <= at,
        at + o.len() <= space(m0, n),
    ensures
        within(m0, ipv4::options(o, i, at, m), n),
        ipv4::options(o, i, at, m).count() >= m.count(),
    decreases o.len() - i,
{
    broadcast use keeping_inside;

    ipv4_names();
    if 0 <= i < o.len() {
        ipv4_option_stays(m0, o, i, at, m, n);
        let (next, j, step) = ipv4::option(o, i, at, m);
        if i < j <= o.len() {
            ipv4_options_stay(m0, o, j, at, next, n);
        }
    }
}

pub proof fn ipv4_header_stays(m0: Model, d: Seq<u8>, m: Model, ihl: int, status: u64, n: int)
    requires
        within(m0, m, n),
        0 <= m0.base,
        m0.base + 20 <= space(m0, n),
        unasked(m0.options) ==> no_verdict(status),
    ensures
        within(m0, ipv4::header_fields(d, m, ihl, status), n),
        ipv4::header_fields(d, m, ihl, status).count() > ipv4::own_row(d, m),
        ipv4::own_row(d, m) >= m0.count(),
{
    broadcast use keeping_inside;

    ipv4_names();
    let a = m.base;
    assert forall|x: Model|
        within(m0, x, n) implies #[trigger] within(
        m0,
        checked(x, "ip.checksum.status"@, a + 10, a + 12, status),
        n,
    ) by {
        checked_stays(m0, x, n, "ip.checksum.status"@, a + 10, a + 12, status);
    }
}

proof fn fragment_rows_stay(m0: Model, f: Seq<FragInfo>, i: int, m: Model, n: int)
    requires
        within(m0, m, n),
        forall|k: int| 0 <= k < f.len() ==> (#[trigger] f[k]).end() <= space(m0, n),
    ensures
        within(m0, ipv4::fragment_rows(f, i, m), n),
    decreases f.len() - i,
{
    broadcast use keeping_inside;

    ipv4_names();
    if 0 <= i < f.len() {
        let (from, to) = (f[i].offset as int, f[i].offset + f[i].len);
        assert(f[i].end() <= space(m0, n));
        fragment_rows_stay(
            m0,
            f,
            i + 1,
            m.leaf_text(
                "ip.fragment"@,
                from,
                to,
                ValueView::Empty,
                "[Frame: "@ + dec(f[i].frame as int) + ", payload: "@ + dec(from) + "-"@ + dec(to)
                    + " ("@ + dec(f[i].len as int) + " bytes)]"@,
            ),
            n,
        );
    }
}

/// A datagram put together from fragments: rows about it lie in a data source
/// of its own, and the layer's own row `ip` still ends at `end`.
proof fn reassembled_stays(
    m0: Model,
    m: Model,
    data: Seq<u8>,
    frags: Seq<FragInfo>,
    next: Proto,
    ip: int,
    end: int,
    n: int,
)
    requires
        within(m0, m, n),
        0 <= n,
        0 <= space(m0, n),
        m0.extra.len() < 255,
        forall|k: int| 0 <= k < frags.len() ==> (#[trigger] frags[k]).end() <= data.len(),
        m0.count() <= ip < m.count(),
        end <= space(m0, n),
    ensures
        ({
            let total = data.len() as int;
            let id = m.next_source();
            let open = m.add_source(data).in_source(id).begin_text(
                "ip.fragments"@,
                0,
                total,
                "["@ + dec(frags.len() as int) + " IPv4 Fragments ("@ + dec(total) + " bytes)]"@,
            );
            let done = ipv4::fragment_rows(frags, 0, open).leaf(
                "ip.fragment.count"@,
                0,
                0,
                ValueView::Unsigned(frags.len() as u64),
            ).leaf("ip.reassembled.length"@, 0, 0, ValueView::Unsigned(total as u64)).leaf(
                "ip.reassembled.data"@,
                0,
                total,
                ValueView::Bytes,
            ).end();
            grown(
                m0,
                done.in_source(m.source).call_next_in_source(next, id).end_at(ip, end),
                n,
            )
        }),
{
    ipv4_names();
    let total = data.len() as int;
    let id = m.next_source();
    let z = m.add_source(data).in_source(id);
    assert(m.extra == m0.extra && id == m.extra.len() + 1 && hands_on(z, n) && space(z, n)
        == total && z.count() == m.count()) by {
        reveal(within);
        reveal(Model::add_source);
        reveal(Model::in_source);
    }
    nothing_written(z, n);
    let open = z.begin_text(
        "ip.fragments"@,
        0,
        total,
        "["@ + dec(frags.len() as int) + " IPv4 Fragments ("@ + dec(total) + " bytes)]"@,
    );
    assert(within(z, open, n)) by {
        broadcast use keeping_inside;

    }
    fragment_rows_stay(z, frags, 0, open, n);
    let done = ipv4::fragment_rows(frags, 0, open).leaf(
        "ip.fragment.count"@,
        0,
        0,
        ValueView::Unsigned(frags.len() as u64),
    ).leaf("ip.reassembled.length"@, 0, 0, ValueView::Unsigned(total as u64)).leaf(
        "ip.reassembled.data"@,
        0,
        total,
        ValueView::Bytes,
    ).end();
    assert(within(z, done, n)) by {
        broadcast use keeping_inside;

    }
    reveal(within);
    reveal(grown);
    reveal(Model::add_source);
    reveal(Model::in_source);
    reveal(Model::call_next_in_source);
    reveal(Model::end_at);
    let last = done.in_source(m.source).call_next_in_source(next, id).end_at(ip, end);
    assert(last.extra == z.extra);
    assert(z.trace == m.trace);
    assert(room(last.extra, n, m0.source) == space(m0, n));
    assert(room(last.extra, n, id) == total);
    assert forall|i: int| 0 <= i < m0.count() implies last.trace.rows[i].source
        == m0.trace.rows[i].source && last.trace.rows[i].start == m0.trace.rows[i].start
        && last.trace.rows[i].end == m0.trace.rows[i].end by {
        assert(done.trace.rows[i].source == z.trace.rows[i].source);
        assert(m.trace.rows[i].source == m0.trace.rows[i].source);
    }
}

proof fn fragment_stays(
    m0: Model,
    m: Model,
    key: FragKeyView,
    offset: usize,
    more: bool,
    payload: Seq<u8>,
    head: int,
    next: Proto,
    ip: int,
    n: int,
)
    requires
        within(m0, m, n),
        0 <= n,
        0 <= m0.base,
        0 <= head,
        m0.base + head <= space(m0, n),
        m0.extra.len() < 255,
        tidy(m0.state.reassembly),
        m0.count() <= ip < m.count(),
    ensures
        grown(
            m0,
            ipv4::fragment(m, key, offset, more, payload, head, next).end_at(ip, m.base + head),
            n,
        ),
        m.nesting > 0 ==> within(
            m0,
            ipv4::fragment(m, key, offset, more, payload, head, next).end_at(ip, m.base + head),
            n,
        ),
{
    broadcast use keeping_inside;

    ipv4_names();
    let after = ipv4::fragment(m, key, offset, more, payload, head, next).end_at(
        ip,
        m.base + head,
    );
    let (held, result) = if m.nesting == 0 {
        m.add_fragment(key, offset, more, payload)
    } else {
        (m, FragResultView::Rejected("nested fragment"@))
    };
    assert(within(m0, held, n));
    if let FragResultView::Complete { data, frags } = result {
        within_tidy(m0, m, n);
        assert(forall|k: int| 0 <= k < frags.len() ==> (#[trigger] frags[k]).end() <= data.len())
            by {
            reveal(Model::add_fragment);
            fragments_stay_collected(
                m.state.reassembly,
                key,
                offset,
                more,
                payload,
                m.frame_number,
                m.ts,
            );
        }
        reassembled_stays(m0, held, data, frags, next, ip, m.base + head, n);
    } else {
        assert(within(m0, after, n));
        within_grows(m0, after, n);
    }
}

pub proof fn ipv4_stays_inside(d: Seq<u8>, m: Model, n: int)
    requires
        ready(d, m, n),
    ensures
        grown(m, ipv4::layer(d, m).0, n),
        m.nesting > 0 ==> within(m, ipv4::layer(d, m).0, n),
{
    broadcast use keeping_inside;

    ipv4_names();
    nothing_written(m, n);
    within_grows(m, m, n);
    if d.len() >= 20 && d[0] >> 4 == 4 && (d[0] & 0x0f) * 4 >= 20 {
        let a = m.base;
        let k = d.len() as int;
        let ihl = (d[0] & 0x0f) * 4;
        let status = ipv4::status_of(d, m, ihl);
        let ip = ipv4::own_row(d, m);
        let m1 = ipv4::header_fields(d, m, ihl, status);
        ipv4_header_stays(m, d, m, ihl, status, n);
        within_grows(m, m1, n);
        if ihl <= k {
            let m2 = if ihl > 20 {
                let open = m1.begin_text(
                    "ip.options"@,
                    a + 20,
                    a + ihl,
                    "Options: ("@ + dec(ihl - 20) + " bytes)"@,
                );
                ipv4_options_stay(m, d.subrange(20, ihl), 0, a + 20, open, n);
                ipv4::options(d.subrange(20, ihl), 0, a + 20, open).end()
            } else {
                m1
            };
            assert(within(m, m2, n));
            let proto = d[9];
            let id = be16(d, 4);
            let more = be16(d, 6) & 0x2000 != 0;
            let offset = (be16(d, 6) & 0x1fff) * 8;
            let len = ipv4::payload_len(d, ihl);
            let next = next_by_ipproto(proto);
            let name = named_or(IPPROTOS@, proto as u64, "Unknown"@);
            let m3 = if next == Proto::Data {
                m2.set_info(name + " ("@ + dec(proto as int) + ")"@)
            } else {
                m2
            };
            assert(within(m, m3, n));
            if more || offset > 0 {
                let m4 = m3.set_info(
                    "Fragmented IP protocol (proto="@ + name + " "@ + dec(proto as int) + ", off="@
                        + dec(offset) + ", ID="@ + hex_pad(id as int, 4) + ")"@,
                );
                let key = FragKeyView {
                    src: d.subrange(12, 16),
                    dst: d.subrange(16, 20),
                    id,
                    proto,
                };
                assert(within(m, m4, n));
                fragment_stays(
                    m,
                    m4,
                    key,
                    offset as usize,
                    more,
                    d.subrange(ihl, ihl + len),
                    ihl,
                    next,
                    ip,
                    n,
                );
            } else {
                let m4 = m3.end_at(ip, a + ihl).call_next_bounded(next, ihl, len);
                assert(within(m, m4, n));
                within_grows(m, m4, n);
            }
        }
    }
}

} // verus!

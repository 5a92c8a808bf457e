//! Whole frames.

use vstd::prelude::*;

use super::dhcp::dhcp_nests;
use super::dns::dns_nests;
use super::http::http_nests;
use super::ipv6::ipv6_nests;
use super::link::{arp_nests, data_nests, eth_nests, llc_nests, null_nests, vlan_nests};
use super::network::ipv4_nests;
use super::ops::{keeping_nested, moving};
use super::tls::tls_nests;
use super::transport::{tcp_nests, udp_nests};
use super::{
    all_nested, begins, fine, fits_all, icmp, icmpv6, kids, last_bounds, last_same, nested_at,
    nests, opened, parent_of, row_ended,
};
use crate::capture::{LinkType, RawView, Timestamp};
use crate::dissect::ctx::{untouched, Handoff, Model, Proto};
use crate::dissect::cursor::{DissectError, SourceId};
use crate::dissect::node::{furthest, stands_for, Row, ValueView};
use crate::dissect::proto::data_layer;
use crate::dissect::ranges::frame::{
    chain_stays_sound, dissecting_stays_sound, growing_stays_sound, layer_grows, sound,
    tail_stays_sound,
};
use crate::dissect::ranges::names::frame_names;
use crate::dissect::ranges::{
    fits, keeping_inside, nothing_written, ready, room, within, within_grows,
};
use crate::dissect::reporting::alike_itself;
use crate::dissect::reporting::frame::layers_agree;
use crate::dissect::state::StateView;
use crate::dissect::{
    chain, dissected, exposed, first_proto, frame_from, frame_rows, layer_of, malformed,
    malformed_text, source_of, with_tail, FrameView, Options, MAX_LAYERS,
};
use crate::text::joined;
use crate::dissect::reassembly::tidy;

verus! {

/// The compact form of a row can address every byte of every data source.
pub open spec fn addressable(extra: Seq<Seq<u8>>, n: int) -> bool {
    &&& n <= 0xffff_ffff
    &&& forall|i: int| 0 <= i < extra.len() ==> (#[trigger] extra[i]).len() <= 0xffff_ffff
}

proof fn layer_nests(proto: Proto, d: Seq<u8>, m: Model, n: int)
    requires
        begins(d, m),
        ready(d, m, n),
        m.trace.depth == 0,
        m.base + d.len() <= usize::MAX,
    ensures
        nests(d, m, layer_of(proto, d, m)),
        layer_of(proto, d, m).1 is None ==> layer_of(proto, d, m).0.trace.depth == 0,
{
    match proto {
        Proto::Ethernet => eth_nests(d, m),
        Proto::Null => null_nests(d, m),
        Proto::Vlan => vlan_nests(d, m),
        Proto::Llc => llc_nests(d, m),
        Proto::Arp => arp_nests(d, m),
        Proto::Ipv4 => ipv4_nests(d, m, n),
        Proto::Ipv6 => ipv6_nests(d, m),
        Proto::Icmp => icmp::layer_nests(d, m, n),
        Proto::Icmpv6 => icmpv6::layer_nests(d, m),
        Proto::Udp => udp_nests(d, m),
        Proto::Tcp => tcp_nests(d, m),
        Proto::Dns => dns_nests(d, m),
        Proto::Dhcp => dhcp_nests(d, m),
        Proto::Http => http_nests(d, m),
        Proto::Tls => tls_nests(d, m),
        Proto::Data => data_nests(d, m),
    }
    alike_itself(m);
    layers_agree(Seq::empty(), proto, d, m, m);
}

proof fn furthest_covers(rows: Seq<Row>, lo: int, source: SourceId, least: int)
    requires
        0 <= lo,
    ensures
        least <= furthest(rows, lo, source, least),
        forall|i: int|
            #![trigger rows[i]]
            lo <= i < rows.len() && rows[i].source == source ==> rows[i].end <= furthest(
                rows,
                lo,
                source,
                least,
            ),
    decreases rows.len() - lo,
{
    if lo < rows.len() {
        furthest_covers(
            rows,
            lo + 1,
            source,
            if rows[lo].source == source && rows[lo].end > least {
                rows[lo].end
            } else {
                least
            },
        );
    }
}

/// A layer's own row made to cover what stands behind it.
proof fn fitting_nests(d: Seq<u8>, before: Model, m: Model, e: DissectError)
    requires
        before.trace.depth == 0,
        nests(d, before, (m, Some(e))),
        m.count() > before.count(),
    ensures
        fine(m.at_depth(0).fit_range(before.count())),
{
    let id = before.count();
    let s = before.source;
    let a = before.base;
    let b = a + d.len();
    assert(opened(m, 0, id, s, a));
    assert(kids(before, id, s, a, b) && m.trace.rows[id].source == s && m.trace.rows[id].start
        == a) by {
        broadcast use keeping_nested;

    }
    assert(kids(m, id, s, a, b));
    let end = furthest(m.trace.rows, id, s, a);
    furthest_covers(m.trace.rows, id, s, a);
    assert(kids(m, id, s, a, end)) by {
        reveal(kids);
    }
    assert(super::roomy(m, -1, s, a, end)) by {
        broadcast use keeping_nested;

    }
    row_ended(m, 0, id, s, a, end);
    reveal(fine);
    reveal(Model::at_depth);
    reveal(Model::fit_range);
    assert(0 <= id < m.count()) by {
        reveal(opened);
    }
}

proof fn malformed_nests(
    proto: Proto,
    e: DissectError,
    offset: int,
    source_len: int,
    d: Seq<u8>,
    before: Model,
    m: Model,
)
    requires
        before.trace.depth == 0,
        before.base == offset,
        nests(d, before, (m, Some(e))),
        0 <= offset,
        offset + d.len() <= source_len,
    ensures
        fine(malformed(proto, e, offset, source_len, d, before, m)),
        malformed(proto, e, offset, source_len, d, before, m).trace.depth == 0,
{
    let m1 = m.at_depth(0);
    let m2 = if m1.count() > before.count() {
        assert(m1.count() == m.count()) by {
            broadcast use moving;

        }
        fitting_nests(d, before, m, e);
        m1.fit_range(before.count())
    } else {
        m1
    };
    assert(fine(m2) && m2.trace.depth == 0) by {
        reveal(Model::fit_range);
        broadcast use {keeping_nested, moving};

    }
    let label = malformed_text(proto, e);
    let m3 = m2.begin_text("_ws.malformed"@, offset, source_len, label);
    let inner = m3.with_base(offset);
    assert(fine(m3) && m3.trace.depth == 1 && inner.base == offset && inner.trace.depth == 1) by {
        broadcast use {keeping_nested, moving};

    }
    assert(fits_all(inner, offset, offset + d.len())) by {
        broadcast use {keeping_nested, moving};

    }
    let m4 = if offset < source_len {
        data_nests(d, inner);
        data_layer(d, inner)
    } else {
        m3
    };
    assert(m4.trace.depth == 1) by {
        broadcast use moving;

    }
    let last = m4.end().set_info(label).named(proto.called()).next_taken();
    assert(fine(last) && last.trace.depth == 0) by {
        broadcast use {keeping_nested, moving};

    }
}

proof fn chain_nests(bytes: Seq<u8>, h: Handoff, k: nat, m: Model)
    requires
        sound(m, bytes.len() as int),
        h.offset <= room(m.extra, bytes.len() as int, h.source),
        m.extra.len() + k < 255,
        fine(m),
        m.trace.depth == 0,
        addressable(chain(bytes, h, k, m).extra, bytes.len() as int),
    ensures
        fine(chain(bytes, h, k, m)),
        chain(bytes, h, k, m).trace.depth == 0,
    decreases k,
{
    let n = bytes.len() as int;
    if k > 0 {
        if let Some(owned) = source_of(bytes, m.extra, h.source) {
            let d = exposed(owned, h.offset as int, h.len);
            let before = m.in_source(h.source).with_base(h.offset as int);
            chain_stays_sound(bytes, h, k, m);
            assert(owned.len() == room(m.extra, n, h.source));
            assert(owned.len() <= 0xffff_ffff) by {
                if h.source > 0 {
                    assert(chain(bytes, h, k, m).extra[h.source - 1] == m.extra[h.source - 1]);
                }
            }
            assert(ready(d, before, n) && sound(before, n) && before.source == h.source
                && before.extra == m.extra && before.count() == m.count() && before.trace
                == m.trace && before.base == h.offset) by {
                reveal(Model::in_source);
                reveal(Model::with_base);
            }
            assert(fits_all(before, before.base, before.base + d.len())) by {
                broadcast use {keeping_nested, moving};

            }
            layer_nests(h.proto, d, before, n);
            layer_grows(h.proto, d, before, n);
            let (after, e) = layer_of(h.proto, d, before);
            growing_stays_sound(before, after, n);
            match e {
                Some(e) => {
                    malformed_nests(
                        h.proto,
                        e,
                        h.offset as int,
                        owned.len() as int,
                        d,
                        before,
                        after,
                    );
                },
                None => {
                    let taken = after.next_taken();
                    assert(sound(taken, n) && taken.extra == after.extra) by {
                        reveal(Model::next_taken);
                    }
                    assert(fine(taken) && taken.trace.depth == 0) by {
                        broadcast use {keeping_nested, moving};

                    }
                    if let Some(next) = after.next {
                        chain_nests(bytes, next, (k - 1) as nat, taken);
                    }
                },
            }
        }
    }
}

proof fn tail_nests(bytes: Seq<u8>, first: int, m: Model)
    requires
        fine(m),
        m.trace.depth == 0,
    ensures
        fine(with_tail(bytes, first, m)),
{
    let covered = furthest(m.trace.rows, first, 0, 0);
    let n = bytes.len() as int;
    let inner = m.in_source(0);
    assert forall|abbrev: Seq<char>, label: Seq<char>| fine(
        #[trigger] inner.leaf_text(abbrev, covered, n, ValueView::Bytes, label),
    ) by {
        broadcast use {keeping_nested, moving};

    }
}

proof fn dissecting_nests(
    link_type: LinkType,
    number: u32,
    ts: Timestamp,
    orig_len: u32,
    bytes: Seq<u8>,
    state: StateView,
    options: Options,
)
    requires
        tidy(state.reassembly),
        addressable(
            dissected(link_type, number, ts, orig_len, bytes, state, options).extra,
            bytes.len() as int,
        ),
    ensures
        all_nested(
            dissected(link_type, number, ts, orig_len, bytes, state, options).trace.rows,
        ),
{
    let n = bytes.len() as int;
    let start = untouched(link_type, number, ts, state, options);
    let head = frame_rows(start, number, ts, n, orig_len, link_type);
    let open = head.leaf("frame.protocols"@, 0, 0, ValueView::Str(""@)).end();
    assert(fine(start) && start.trace.depth == 0) by {
        reveal(fine);
    }
    assert(fine(open) && open.trace.depth == 0) by {
        broadcast use {keeping_nested, moving};

    }
    frame_names();
    nothing_written(start, n);
    assert(within(start, open, n)) by {
        broadcast use keeping_inside;

    }
    within_grows(start, open, n);
    growing_stays_sound(start, open, n);
    assert(open.extra.len() == 0) by {
        reveal(within);
    }
    let first = Handoff { proto: first_proto(link_type), source: 0, offset: 0, len: None };
    let k = MAX_LAYERS as nat;
    chain_stays_sound(bytes, first, k, open);
    let chained = chain(bytes, first, k, open);
    tail_stays_sound(bytes, open.count(), chained);
    let whole = with_tail(bytes, open.count(), chained);
    let shown = ValueView::Str(joined(whole.protocols, ":"@));
    let last = whole.set_value(head.count(), shown);
    assert(last.extra == whole.extra && last.named("RAW"@).extra == whole.extra) by {
        reveal(Model::set_value);
        reveal(Model::named);
    }
    chain_nests(bytes, first, k, open);
    tail_nests(bytes, open.count(), chained);
    assert(fine(last) && fine(last.named("RAW"@))) by {
        broadcast use {keeping_nested, moving};

    }
    reveal(fine);
}

/// A row's byte range lies inside that of the row it stands under, where both
/// have bytes and speak of the same data source.
pub proof fn children_lie_inside_their_parents(
    link_type: LinkType,
    number: u32,
    raw: RawView,
    state: StateView,
    options: Options,
    f: FrameView,
    after: StateView,
)
    requires
        tidy(state.reassembly),
        ({
            let m = dissected(
                link_type,
                number,
                raw.ts,
                raw.orig_len,
                raw.bytes,
                state,
                options,
            );
            frame_from(m, number, raw, f, after)
        }),
        addressable(f.extra, f.bytes.len() as int),
    ensures
        forall|i: int| 0 <= i < f.rows.len() ==> #[trigger] nested_at(f.rows, i),
{
    let m = dissected(link_type, number, raw.ts, raw.orig_len, raw.bytes, state, options);
    let n = raw.bytes.len() as int;
    dissecting_stays_sound(
        link_type,
        number,
        raw.ts,
        raw.orig_len,
        raw.bytes,
        state,
        options,
    );
    dissecting_nests(link_type, number, raw.ts, raw.orig_len, raw.bytes, state, options);
    let rows = m.trace.rows;
    assert forall|i: int| 0 <= i < rows.len() implies (#[trigger] rows[i]).start <= 0xffff_ffff
        && rows[i].end <= 0xffff_ffff && 0 <= rows[i].start && stands_for(f.rows[i], rows[i]) by {
        assert(fits(rows[i], room(m.extra, n, rows[i].source)));
    }
    assert forall|i: int| 0 <= i < f.rows.len() implies #[trigger] nested_at(f.rows, i) by {
        assert(nested_at(rows, i));
        assert(stands_for(f.rows[i], rows[i]));
        last_same(f.rows.take(i), rows.take(i), rows[i].depth - 1);
        last_bounds(rows.take(i), rows[i].depth - 1);
        let q = parent_of(rows, i);
        if q >= 0 {
            assert(stands_for(f.rows[q], rows[q]));
        }
    }
}

} // verus!

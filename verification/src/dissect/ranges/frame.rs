//! Whole frames.

use vstd::prelude::*;

use super::dhcp::dhcp_stays_inside;
use super::dns::dns_stays_inside;
use super::http::http_stays_inside;
use super::ipv6::ipv6_stays_inside;
use super::link::{
    arp_stays_inside, data_stays_inside, eth_stays_inside, llc_stays_inside, null_stays_inside,
    vlan_stays_inside,
};
use super::names::{frame_names, gives_verdict, known, tame, unasked};
use super::network::ipv4_stays_inside;
use super::tls::tls_stays_inside;
use super::transport::{tcp_stays_inside, udp_stays_inside};
use super::{
    fits, grown, hands_on, icmp, icmpv6, keeping_inside, keeps, nothing_written, ready, room,
    within, within_grows,
};
use crate::capture::{LinkType, RawView, Timestamp};
use crate::dissect::ctx::{untouched, Handoff, Model, Proto};
use crate::dissect::cursor::{DissectError, SourceId};
use crate::dissect::node::{
    all_kept, furthest, registered_rows_are_no_strangers, rows_bytes, stands_for, strangers, Row,
    ValueView,
};
use crate::dissect::proto::{data_layer, CK_NOT_PRESENT, CK_UNVERIFIED};
use crate::dissect::registry::index_of;
use crate::dissect::reporting::is_status;
use crate::dissect::state::{no_memory, StateView};
use crate::dissect::{
    chain, dissected, exposed, first_proto, frame_from, frame_rows, layer_of, malformed,
    malformed_text, source_of, with_tail, FrameView, MAX_LAYERS, Options,
};
use crate::text::joined;
use crate::dissect::reassembly::tidy;

verus! {

/// The row's range lies in the data source that it names.
pub open spec fn lies_inside(bytes: Seq<u8>, extra: Seq<Seq<u8>>, r: Row) -> bool {
    match source_of(bytes, extra, r.source) {
        Some(d) => 0 <= r.start <= r.end <= d.len(),
        None => false,
    }
}

/// The data sources `b` begin with those of `a`.
pub open spec fn follows(a: Seq<Seq<u8>>, b: Seq<Seq<u8>>) -> bool {
    a.len() <= b.len() && forall|i: int| 0 <= i < a.len() ==> b[i] == #[trigger] a[i]
}

/// Every row is a registered field and lies in its data source, none gives a
/// verdict that nobody asked for, and what was collected of fragments is in
/// order.
pub open spec fn sound(m: Model, n: int) -> bool {
    &&& 0 <= n
    &&& forall|i: int|
        #![trigger m.trace.rows[i]]
        0 <= i < m.count() ==> fits(m.trace.rows[i], room(m.extra, n, m.trace.rows[i].source))
            && !(unasked(m.options) && gives_verdict(m.trace.rows[i])) && known(
            m.trace.rows[i].abbrev,
        )
    &&& hands_on(m, n)
    &&& tidy(m.state.reassembly)
}

pub proof fn keeps_on(a: Model, b: Model, c: Model)
    requires
        keeps(a, b),
        keeps(b, c),
    ensures
        keeps(a, c),
{
    assert forall|i: int|
        #![trigger c.trace.rows[i]]
        0 <= i < a.count() implies c.trace.rows[i].source == a.trace.rows[i].source
        && c.trace.rows[i].start == a.trace.rows[i].start && c.trace.rows[i].end
        == a.trace.rows[i].end && c.trace.rows[i].abbrev == a.trace.rows[i].abbrev
        && c.trace.rows[i].depth == a.trace.rows[i].depth && c.trace.rows[i].value
        == a.trace.rows[i].value by {
        assert(b.trace.rows[i].abbrev == a.trace.rows[i].abbrev);
    }
}

pub proof fn growing_stays_sound(m0: Model, m: Model, n: int)
    requires
        sound(m0, n),
        grown(m0, m, n),
    ensures
        sound(m, n),
        m.extra.len() <= m0.extra.len() + 1,
        m.source == m0.source,
        room(m.extra, n, m.source) == room(m0.extra, n, m0.source) || room(
            m0.extra,
            n,
            m0.source,
        ) < 0,
        keeps(m0, m),
        follows(m0.extra, m.extra),
        m.options == m0.options,
{
    reveal(grown);
    assert forall|i: int| 0 <= i < m.count() implies fits(
        m.trace.rows[i],
        room(m.extra, n, m.trace.rows[i].source),
    ) && !(unasked(m.options) && gives_verdict(m.trace.rows[i])) && known(
        m.trace.rows[i].abbrev,
    ) by {
        if i < m0.count() {
            assert(known(m0.trace.rows[i].abbrev));
            assert(fits(m0.trace.rows[i], room(m0.extra, n, m0.trace.rows[i].source)));
            assert(m.trace.rows[i].source == m0.trace.rows[i].source);
        }
    }
}

/// A layer writes rows inside their data sources.
pub proof fn layer_grows(proto: Proto, d: Seq<u8>, m: Model, n: int)
    requires
        ready(d, m, n),
    ensures
        grown(m, layer_of(proto, d, m).0, n),
{
    match proto {
        Proto::Ethernet => eth_stays_inside(d, m, n),
        Proto::Null => null_stays_inside(d, m, n),
        Proto::Vlan => vlan_stays_inside(d, m, n),
        Proto::Llc => llc_stays_inside(d, m, n),
        Proto::Arp => arp_stays_inside(d, m, n),
        Proto::Ipv4 => ipv4_stays_inside(d, m, n),
        Proto::Ipv6 => ipv6_stays_inside(d, m, n),
        Proto::Icmp => icmp::stays_inside(d, m, n),
        Proto::Icmpv6 => icmpv6::stays_inside(d, m, n),
        Proto::Udp => udp_stays_inside(d, m, n),
        Proto::Tcp => tcp_stays_inside(d, m, n),
        Proto::Dns => dns_stays_inside(d, m, n),
        Proto::Dhcp => dhcp_stays_inside(d, m, n),
        Proto::Http => http_stays_inside(d, m, n),
        Proto::Tls => tls_stays_inside(d, m, n),
        Proto::Data => data_stays_inside(d, m, n),
    }
    let after = layer_of(proto, d, m).0;
    if proto != Proto::Ipv4 && proto != Proto::Tcp {
        within_grows(m, after, n);
    }
}

proof fn furthest_fits(rows: Seq<Row>, lo: int, source: SourceId, least: int, most: int)
    requires
        least <= most,
        forall|i: int|
            #![trigger rows[i]]
            0 <= i < rows.len() && rows[i].source == source ==> rows[i].end <= most,
    ensures
        least <= furthest(rows, lo, source, least) <= most,
    decreases rows.len() - lo,
{
    if 0 <= lo < rows.len() {
        furthest_fits(
            rows,
            lo + 1,
            source,
            if rows[lo].source == source && rows[lo].end > least {
                rows[lo].end
            } else {
                least
            },
            most,
        );
    }
}

proof fn fitting_stays_sound(m: Model, id: int, n: int)
    requires
        sound(m, n),
        0 <= id < m.count(),
    ensures
        sound(m.fit_range(id), n),
        m.fit_range(id).source == m.source,
        m.fit_range(id).extra == m.extra,
        m.fit_range(id).count() == m.count(),
        m.fit_range(id).options == m.options,
        forall|m0: Model|
            m0.count() <= id && keeps(m0, m) ==> #[trigger] keeps(m0, m.fit_range(id)),
{
    reveal(Model::fit_range);
    let r = m.trace.rows[id];
    furthest_fits(m.trace.rows, id, r.source, r.start, room(m.extra, n, r.source));
}

pub proof fn malformed_stays_sound(
    proto: Proto,
    e: DissectError,
    offset: int,
    source_len: int,
    d: Seq<u8>,
    before: Model,
    m: Model,
    n: int,
)
    requires
        sound(m, n),
        keeps(before, m),
        source_len == room(m.extra, n, m.source),
        0 <= offset <= source_len,
        offset + d.len() <= source_len,
        m.extra.len() < 255,
    ensures
        sound(malformed(proto, e, offset, source_len, d, before, m), n),
        malformed(proto, e, offset, source_len, d, before, m).extra == m.extra,
        keeps(before, malformed(proto, e, offset, source_len, d, before, m)),
        malformed(proto, e, offset, source_len, d, before, m).options == m.options,
{
    frame_names();
    let m1 = m.at_depth(before.trace.depth as int);
    assert(sound(m1, n) && m1.source == m.source && m1.extra == m.extra && m1.count()
        == m.count() && keeps(before, m1) && m1.options == m.options) by {
        reveal(Model::at_depth);
    }
    let m2 = if m1.count() > before.count() {
        fitting_stays_sound(m1, before.count(), n);
        m1.fit_range(before.count())
    } else {
        m1
    };
    let label = malformed_text(proto, e);
    let m3 = m2.begin_text("_ws.malformed"@, offset, source_len, label);
    nothing_written(m2, n);
    assert(within(m2, m3, n)) by {
        broadcast use keeping_inside;

    }
    within_grows(m2, m3, n);
    growing_stays_sound(m2, m3, n);
    keeps_on(before, m2, m3);
    assert(m3.extra == m.extra && m3.source == m.source) by {
        reveal(within);
    }
    let m4 = if offset < source_len {
        let inner = m3.with_base(offset);
        assert(ready(d, inner, n) && sound(inner, n) && inner.extra == m.extra && inner.options
            == m.options) by {
            reveal(Model::with_base);
        }
        data_stays_inside(d, inner, n);
        let shown = data_layer(d, inner);
        within_grows(inner, shown, n);
        growing_stays_sound(inner, shown, n);
        assert(shown.extra == m.extra) by {
            reveal(within);
        }
        assert(keeps(m3, inner)) by {
            reveal(Model::with_base);
        }
        keeps_on(before, m3, inner);
        keeps_on(before, inner, shown);
        shown
    } else {
        m3
    };
    nothing_written(m4, n);
    let last = m4.end().set_info(label).named(proto.called()).next_taken();
    assert(within(m4, last, n)) by {
        broadcast use keeping_inside;

    }
    assert(sound(last, n) && last.extra == m.extra && keeps(m4, last) && last.options
        == m.options) by {
        reveal(within);
    }
    keeps_on(before, m4, last);
}

pub proof fn chain_stays_sound(bytes: Seq<u8>, h: Handoff, k: nat, m: Model)
    requires
        sound(m, bytes.len() as int),
        h.offset <= room(m.extra, bytes.len() as int, h.source),
        m.extra.len() + k < 255,
    ensures
        sound(chain(bytes, h, k, m), bytes.len() as int),
        follows(m.extra, chain(bytes, h, k, m).extra),
        keeps(m, chain(bytes, h, k, m)),
        chain(bytes, h, k, m).options == m.options,
    decreases k,
{
    let n = bytes.len() as int;
    if k > 0 {
        if let Some(owned) = source_of(bytes, m.extra, h.source) {
            let d = exposed(owned, h.offset as int, h.len);
            let before = m.in_source(h.source).with_base(h.offset as int);
            assert(owned.len() == room(m.extra, n, h.source));
            assert(ready(d, before, n) && sound(before, n) && before.source == h.source
                && before.extra == m.extra && before.count() == m.count() && keeps(m, before)
                && before.options == m.options) by {
                reveal(Model::in_source);
                reveal(Model::with_base);
            }
            layer_grows(h.proto, d, before, n);
            let (after, e) = layer_of(h.proto, d, before);
            growing_stays_sound(before, after, n);
            keeps_on(m, before, after);
            match e {
                Some(e) => {
                    let (offset, len) = (h.offset as int, owned.len() as int);
                    malformed_stays_sound(h.proto, e, offset, len, d, before, after, n);
                    keeps_on(m, before, malformed(h.proto, e, offset, len, d, before, after));
                },
                None => {
                    let taken = after.next_taken();
                    assert(sound(taken, n) && taken.extra == after.extra && keeps(
                        after,
                        taken,
                    ) && taken.options == after.options) by {
                        reveal(Model::next_taken);
                    }
                    keeps_on(m, after, taken);
                    if let Some(next) = after.next {
                        chain_stays_sound(bytes, next, (k - 1) as nat, taken);
                        keeps_on(m, taken, chain(bytes, next, (k - 1) as nat, taken));
                    }
                },
            }
        }
    }
}

pub proof fn tail_stays_sound(bytes: Seq<u8>, first: int, m: Model)
    requires
        sound(m, bytes.len() as int),
    ensures
        sound(with_tail(bytes, first, m), bytes.len() as int),
        with_tail(bytes, first, m).extra == m.extra,
        keeps(m, with_tail(bytes, first, m)),
        with_tail(bytes, first, m).options == m.options,
{
    frame_names();
    let n = bytes.len() as int;
    furthest_fits(m.trace.rows, first, 0, 0, n);
    let covered = furthest(m.trace.rows, first, 0, 0);
    let inner = m.in_source(0);
    assert(sound(inner, n) && inner.extra == m.extra && inner.source == 0 && keeps(m, inner)
        && inner.options == m.options) by {
        reveal(Model::in_source);
    }
    nothing_written(inner, n);
    assert forall|abbrev: Seq<char>, label: Seq<char>| covered < n && tame(abbrev) implies ({
        let x = #[trigger] inner.leaf_text(abbrev, covered, n, ValueView::Bytes, label);
        sound(x, n) && x.extra == m.extra && keeps(m, x) && x.options == m.options
    }) by {
        let x = inner.leaf_text(abbrev, covered, n, ValueView::Bytes, label);
        assert(within(inner, x, n)) by {
            broadcast use keeping_inside;

        }
        within_grows(inner, x, n);
        growing_stays_sound(inner, x, n);
        keeps_on(m, inner, x);
        assert(x.extra == m.extra) by {
            reveal(within);
        }
    }
}

/// The row of the frame itself, over all of its `n` bytes.
pub open spec fn leads(r: Row, n: int) -> bool {
    r.abbrev == "frame"@ && r.depth == 0 && r.source == 0 && r.start == 0 && r.end == n
}

/// Every row that dissecting a frame writes lies in its data source, and the
/// fragments collected for later frames stay in order.
pub proof fn dissecting_stays_sound(
    link_type: LinkType,
    number: u32,
    ts: Timestamp,
    orig_len: u32,
    bytes: Seq<u8>,
    state: StateView,
    options: Options,
)
    requires
        tidy(state.reassembly),
    ensures
        sound(
            dissected(link_type, number, ts, orig_len, bytes, state, options),
            bytes.len() as int,
        ),
        ({
            let m = dissected(link_type, number, ts, orig_len, bytes, state, options);
            &&& m.count() > 0
            &&& leads(m.trace.rows[0], bytes.len() as int)
            &&& m.options == options
        }),
{
    frame_names();
    let n = bytes.len() as int;
    let start = untouched(link_type, number, ts, state, options);
    let head = frame_rows(start, number, ts, n, orig_len, link_type);
    let open = head.leaf("frame.protocols"@, 0, 0, ValueView::Str(""@)).end();
    assert(sound(start, n));
    nothing_written(start, n);
    assert(within(start, open, n)) by {
        broadcast use keeping_inside;

    }
    within_grows(start, open, n);
    growing_stays_sound(start, open, n);
    assert(open.extra.len() == 0) by {
        reveal(within);
    }
    let first = Handoff { proto: first_proto(link_type), source: 0, offset: 0, len: None };
    chain_stays_sound(bytes, first, MAX_LAYERS as nat, open);
    let chained = chain(bytes, first, MAX_LAYERS as nat, open);
    tail_stays_sound(bytes, open.count(), chained);
    let whole = with_tail(bytes, open.count(), chained);
    let named = whole.set_value(
        head.count(),
        ValueView::Str(joined(whole.protocols, ":"@)),
    );
    keeps_on(open, chained, whole);
    assert(open.count() > 0 && leads(open.trace.rows[0], n)) by {
        let top = start.begin("frame"@, 0, n);
        assert(top.count() == 1 && leads(top.trace.rows[0], n) && hands_on(top, n)) by {
            reveal(Model::begin);
        }
        nothing_written(top, n);
        assert(within(top, open, n)) by {
            broadcast use keeping_inside;

        }
        reveal(within);
        assert(keeps(top, open));
    }
    assert(whole.trace.rows[0].abbrev == open.trace.rows[0].abbrev);
    let at = head.count();
    assert(at < open.count() && open.trace.rows[at].abbrev == "frame.protocols"@) by {
        reveal(Model::leaf);
        reveal(Model::end);
    }
    assert(whole.trace.rows[at].abbrev == open.trace.rows[at].abbrev);
    assert(tame(whole.trace.rows[at].abbrev));
    assert(sound(named, n) && named.count() > 0 && named.options == options && leads(
        named.trace.rows[0],
        n,
    )) by {
        reveal(Model::set_value);
        broadcast use super::names::giving_none;

        assert(!gives_verdict(named.trace.rows[at]));
    }
    assert(sound(named.named("RAW"@), n) && named.named("RAW"@).trace == named.trace
        && named.named("RAW"@).options == options) by {
        reveal(Model::named);
    }
}

/// Every byte range that a dissected frame shows lies in the data source it
/// names: the frame's own bytes, or bytes put together while dissecting it.
pub proof fn every_range_lies_inside(
    link_type: LinkType,
    number: u32,
    raw: RawView,
    state: StateView,
    options: Options,
    f: FrameView,
    after: StateView,
)
    requires
        tidy(state.reassembly),
        ({
            let m = dissected(
                link_type,
                number,
                raw.ts,
                raw.orig_len,
                raw.bytes,
                state,
                options,
            );
            frame_from(m, number, raw, f, after)
        }),
    ensures
        forall|i: int|
            0 <= i < f.rows.len() ==> #[trigger] lies_inside(f.bytes, f.extra, f.rows[i]),
{
    let m = dissected(link_type, number, raw.ts, raw.orig_len, raw.bytes, state, options);
    dissecting_stays_sound(
        link_type,
        number,
        raw.ts,
        raw.orig_len,
        raw.bytes,
        state,
        options,
    );
    assert forall|i: int| 0 <= i < f.rows.len() implies #[trigger] lies_inside(
        f.bytes,
        f.extra,
        f.rows[i],
    ) by {
        let r = m.trace.rows[i];
        assert(stands_for(f.rows[i], r));
        assert(fits(r, room(m.extra, raw.bytes.len() as int, r.source)));
    }
}

/// A dissected frame shows the frame itself first, over all of its bytes.
pub proof fn frame_row_comes_first(
    link_type: LinkType,
    number: u32,
    raw: RawView,
    state: StateView,
    options: Options,
    f: FrameView,
    after: StateView,
)
    requires
        tidy(state.reassembly),
        raw.bytes.len() <= 0xffff_ffff,
        ({
            let m = dissected(
                link_type,
                number,
                raw.ts,
                raw.orig_len,
                raw.bytes,
                state,
                options,
            );
            frame_from(m, number, raw, f, after)
        }),
    ensures
        f.rows.len() > 0,
        leads(f.rows[0], f.bytes.len() as int),
{
    let m = dissected(link_type, number, raw.ts, raw.orig_len, raw.bytes, state, options);
    dissecting_stays_sound(
        link_type,
        number,
        raw.ts,
        raw.orig_len,
        raw.bytes,
        state,
        options,
    );
    assert(stands_for(f.rows[0], m.trace.rows[0]));
    reveal(known);
}

/// With validation off every checksum status of a dissected frame is that it
/// is unverified or not present, and there is no finding about a checksum.
pub proof fn unasked_checksums_get_no_verdict(
    link_type: LinkType,
    number: u32,
    raw: RawView,
    state: StateView,
    options: Options,
    f: FrameView,
    after: StateView,
)
    requires
        unasked(options),
        tidy(state.reassembly),
        ({
            let m = dissected(
                link_type,
                number,
                raw.ts,
                raw.orig_len,
                raw.bytes,
                state,
                options,
            );
            frame_from(m, number, raw, f, after)
        }),
    ensures
        forall|i: int| 0 <= i < f.rows.len() ==> !(#[trigger] gives_verdict(f.rows[i])),
        forall|i: int|
            0 <= i < f.rows.len() && is_status((#[trigger] f.rows[i]).abbrev) ==> f.rows[i].value
                == ValueView::Unsigned(CK_UNVERIFIED) || f.rows[i].value == ValueView::Unsigned(
                CK_NOT_PRESENT,
            ),
        forall|i: int|
            0 <= i < f.rows.len() ==> (#[trigger] f.rows[i]).abbrev != "_ws.checksum.bad"@,
{
    let m = dissected(link_type, number, raw.ts, raw.orig_len, raw.bytes, state, options);
    dissecting_stays_sound(
        link_type,
        number,
        raw.ts,
        raw.orig_len,
        raw.bytes,
        state,
        options,
    );
    assert forall|i: int| 0 <= i < f.rows.len() implies !(#[trigger] gives_verdict(f.rows[i])) by {
        assert(stands_for(f.rows[i], m.trace.rows[i]));
        assert(!gives_verdict(m.trace.rows[i]) && known(m.trace.rows[i].abbrev));
        reveal(known);
    }
    assert forall|i: int| 0 <= i < f.rows.len() implies (is_status((#[trigger] f.rows[i]).abbrev)
        ==> f.rows[i].value == ValueView::Unsigned(CK_UNVERIFIED) || f.rows[i].value
        == ValueView::Unsigned(CK_NOT_PRESENT)) && f.rows[i].abbrev != "_ws.checksum.bad"@ by {
        assert(!gives_verdict(f.rows[i]));
    }
}

/// Every field that a dissected frame shows is registered, so that nothing but
/// more than four gigabytes of strings keeps a row from being stored as it is.
pub proof fn every_field_is_registered(
    link_type: LinkType,
    number: u32,
    raw: RawView,
    state: StateView,
    options: Options,
    f: FrameView,
    after: StateView,
)
    requires
        tidy(state.reassembly),
        ({
            let m = dissected(
                link_type,
                number,
                raw.ts,
                raw.orig_len,
                raw.bytes,
                state,
                options,
            );
            frame_from(m, number, raw, f, after)
        }),
    ensures
        forall|i: int| 0 <= i < f.rows.len() ==> index_of((#[trigger] f.rows[i]).abbrev) is Some,
        ({
            let rows = dissected(
                link_type,
                number,
                raw.ts,
                raw.orig_len,
                raw.bytes,
                state,
                options,
            ).trace.rows;
            &&& strangers(rows) == Seq::<Seq<char>>::empty()
            &&& rows_bytes(rows) <= 0xffff_ffff ==> f.rows == all_kept(rows)
        }),
{
    let m = dissected(link_type, number, raw.ts, raw.orig_len, raw.bytes, state, options);
    dissecting_stays_sound(
        link_type,
        number,
        raw.ts,
        raw.orig_len,
        raw.bytes,
        state,
        options,
    );
    assert forall|i: int| 0 <= i < f.rows.len() implies index_of((#[trigger] f.rows[i]).abbrev)
        is Some by {
        assert(stands_for(f.rows[i], m.trace.rows[i]));
        assert(known(m.trace.rows[i].abbrev));
        reveal(known);
    }
    assert forall|i: int| 0 <= i < m.trace.rows.len() implies index_of(
        (#[trigger] m.trace.rows[i]).abbrev,
    ) is Some by {
        assert(known(m.trace.rows[i].abbrev));
        reveal(known);
    }
    registered_rows_are_no_strangers(m.trace.rows);
}

/// What is remembered of fragments is in order at first, and stays in order
/// whatever frame is dissected.
pub proof fn memory_stays_in_order(
    link_type: LinkType,
    number: u32,
    ts: Timestamp,
    orig_len: u32,
    bytes: Seq<u8>,
    state: StateView,
    options: Options,
)
    ensures
        tidy(no_memory().reassembly),
        tidy(state.reassembly) ==> tidy(
            dissected(link_type, number, ts, orig_len, bytes, state, options).state.reassembly,
        ),
{
    if tidy(state.reassembly) {
        dissecting_stays_sound(link_type, number, ts, orig_len, bytes, state, options);
    }
}

} // verus!

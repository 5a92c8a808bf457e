//! Whole frames.

use vstd::prelude::*;

use super::dhcp::dhcp_agrees;
use super::dns::dns_agrees;
use super::http::http_agrees;
use super::ipv6::ipv6_agrees;
use super::link::{
    arp_agrees, data_agrees, eth_agrees, llc_agrees, null_agrees, vlan_agrees,
};
use super::network::ipv4_agrees;
use super::ops::keeping_alike;
use super::tls::tls_agrees;
use super::transport::{tcp_agrees, udp_agrees};
use super::{
    agree, alike, alike_facts, furthest_from, icmp, icmpv6, is_report, is_status, later, plain,
    quiet, rest, rows_changed, rows_relabelled, shape, start_alike, twins, Bases,
};
use crate::capture::{LinkType, RawView, Timestamp};
use crate::dissect::ctx::{untouched, Handoff, Model, Proto};
use crate::dissect::cursor::{DissectError, SourceId};
use crate::dissect::node::{
    all_kept, furthest, kept, outlines, rows_bytes, stands_for, Row, ValueView,
};
use crate::dissect::proto::{data_layer, CK_NOT_PRESENT, CK_UNVERIFIED};
use crate::dissect::ranges::frame::{
    dissecting_stays_sound, every_field_is_registered, unasked_checksums_get_no_verdict,
};
use crate::dissect::ranges::names::{known, unasked};
use crate::dissect::reassembly::tidy;
use crate::dissect::registry::index_of;
use crate::dissect::state::StateView;
use crate::dissect::{
    chain, dissected, exposed, first_proto, frame_from, frame_rows, layer_of, malformed,
    malformed_text, source_of, with_tail, FrameView, Options, MAX_LAYERS,
};
use crate::text::joined;

verus! {

/// A layer writes the same rows under both settings but for what it reports.
pub proof fn layers_agree(bases: Bases, proto: Proto, d: Seq<u8>, m1: Model, m2: Model)
    requires
        start_alike(bases, m1, m2),
        m1.trace.depth < 180,
    ensures
        agree(bases, m1.trace.depth, layer_of(proto, d, m1), layer_of(proto, d, m2)),
{
    match proto {
        Proto::Ethernet => eth_agrees(bases, d, m1, m2),
        Proto::Null => null_agrees(bases, d, m1, m2),
        Proto::Vlan => vlan_agrees(bases, d, m1, m2),
        Proto::Llc => llc_agrees(bases, d, m1, m2),
        Proto::Arp => arp_agrees(bases, d, m1, m2),
        Proto::Ipv4 => ipv4_agrees(bases, d, m1, m2),
        Proto::Ipv6 => ipv6_agrees(bases, d, m1, m2),
        Proto::Icmp => icmp::layer_agrees(bases, d, m1, m2),
        Proto::Icmpv6 => icmpv6::layer_agrees(bases, d, m1, m2),
        Proto::Udp => udp_agrees(bases, d, m1, m2),
        Proto::Tcp => tcp_agrees(bases, d, m1, m2),
        Proto::Dns => dns_agrees(bases, d, m1, m2),
        Proto::Dhcp => dhcp_agrees(bases, d, m1, m2),
        Proto::Http => http_agrees(bases, d, m1, m2),
        Proto::Tls => tls_agrees(bases, d, m1, m2),
        Proto::Data => data_agrees(bases, d, m1, m2),
    }
}

/// The places where both stand now correspond.
proof fn base_added(bases: Bases, m1: Model, m2: Model)
    requires
        alike(bases, m1, m2),
    ensures
        alike(bases.push((m1.count(), m2.count())), m1, m2),
{
    reveal(alike);
    let (a, b) = (m1.trace.rows, m2.trace.rows);
    let more = bases.push((m1.count(), m2.count()));
    assert(a.take(m1.count()) =~= a && b.take(m2.count()) =~= b);
    assert forall|k: int| #![trigger more[k]] 0 <= k < more.len() implies twins(
        a,
        more[k].0,
        b,
        more[k].1,
    ) by {
        if k < bases.len() {
            assert(more[k] == bases[k]);
        }
    }
    assert forall|k: int, s: SourceId, least: int|
        #![trigger furthest(a, more[k].0, s, least)]
        #![trigger furthest(b, more[k].1, s, least)]
        0 <= k < more.len() implies furthest(a, more[k].0, s, least) == furthest(
        b,
        more[k].1,
        s,
        least,
    ) by {
        if k < bases.len() {
            assert(more[k] == bases[k]);
            assert(furthest(a, bases[k].0, s, least) == furthest(b, bases[k].1, s, least));
        }
    }
}

proof fn base_dropped(bases: Bases, p: (int, int), m1: Model, m2: Model)
    requires
        alike(bases.push(p), m1, m2),
    ensures
        alike(bases, m1, m2),
{
    reveal(alike);
    let (a, b) = (m1.trace.rows, m2.trace.rows);
    let more = bases.push(p);
    assert forall|k: int| #![trigger bases[k]] 0 <= k < bases.len() implies twins(
        a,
        bases[k].0,
        b,
        bases[k].1,
    ) by {
        assert(more[k] == bases[k]);
    }
    assert forall|k: int, s: SourceId, least: int|
        #![trigger furthest(a, bases[k].0, s, least)]
        #![trigger furthest(b, bases[k].1, s, least)]
        0 <= k < bases.len() implies furthest(a, bases[k].0, s, least) == furthest(
        b,
        bases[k].1,
        s,
        least,
    ) by {
        assert(more[k] == bases[k]);
        assert(furthest(a, more[k].0, s, least) == furthest(b, more[k].1, s, least));
    }
}

proof fn furthest_reaches(rows: Seq<Row>, i: int, least: int)
    requires
        0 <= i < rows.len(),
    ensures
        rows[i].end <= furthest(rows, i, rows[i].source, least),
{
    let next = if rows[i].end > least {
        rows[i].end
    } else {
        least
    };
    furthest_from(rows, i + 1, rows[i].source, next, next);
    assert(later(next, next) == next);
}

/// The row where the last of `bases` stands made to cover what follows.
proof fn fitting_agrees(bases: Bases, m1: Model, m2: Model)
    requires
        alike(bases, m1, m2),
        bases.len() > 0,
        bases.last().0 < m1.count(),
        forall|k: int|
            #![trigger bases[k]]
            0 <= k < bases.len() ==> bases[k].0 <= bases.last().0 && bases[k].1 <= bases.last().1,
    ensures
        alike(bases, m1.fit_range(bases.last().0), m2.fit_range(bases.last().1)),
        m1.fit_range(bases.last().0).trace.depth == m1.trace.depth,
{
    reveal(alike);
    reveal(Model::fit_range);
    let (a, b) = (m1.trace.rows, m2.trace.rows);
    let (i1, i2) = bases.last();
    assert(bases[bases.len() - 1] == (i1, i2));
    assert(twins(a, i1, b, i2));
    let (r, q) = (a[i1], b[i2]);
    let e = furthest(a, i1, r.source, r.start);
    assert(e == furthest(b, i2, q.source, q.start)) by {
        assert(furthest(a, bases[bases.len() - 1].0, r.source, r.start) == furthest(
            b,
            bases[bases.len() - 1].1,
            r.source,
            r.start,
        ));
    }
    furthest_reaches(a, i1, r.start);
    furthest_reaches(b, i2, q.start);
    rows_changed(bases, m1, i1, Row { end: e, ..r }, m2, i2, Row { end: e, ..q });
}

proof fn malformed_agrees(
    bases: Bases,
    proto: Proto,
    e: DissectError,
    offset: int,
    source_len: int,
    d: Seq<u8>,
    before1: Model,
    before2: Model,
    m1: Model,
    m2: Model,
)
    requires
        alike(bases, m1, m2),
        bases.len() > 0,
        bases.last() == (before1.count(), before2.count()),
        before1.trace.depth == before2.trace.depth,
        0 <= before1.trace.depth < 180,
        0 <= offset,
        forall|k: int|
            #![trigger bases[k]]
            0 <= k < bases.len() ==> bases[k].0 <= bases.last().0 && bases[k].1 <= bases.last().1,
    ensures
        alike(
            bases,
            malformed(proto, e, offset, source_len, d, before1, m1),
            malformed(proto, e, offset, source_len, d, before2, m2),
        ),
{
    let depth = before1.trace.depth as int;
    let (a1, a2) = (m1.at_depth(depth), m2.at_depth(depth));
    assert(alike(bases, a1, a2) && a1.trace.depth == depth) by {
        broadcast use keeping_alike;

    }
    assert(a1.count() > before1.count() <==> a2.count() > before2.count()) by {
        reveal(alike);
        assert(bases[bases.len() - 1] == bases.last());
    }
    let (b1, b2) = if a1.count() > before1.count() {
        fitting_agrees(bases, a1, a2);
        (a1.fit_range(before1.count()), a2.fit_range(before2.count()))
    } else {
        (a1, a2)
    };
    let label = malformed_text(proto, e);
    let c1 = b1.begin_text("_ws.malformed"@, offset, source_len, label);
    let c2 = b2.begin_text("_ws.malformed"@, offset, source_len, label);
    assert(alike(bases, c1, c2) && c1.trace.depth == depth + 1) by {
        broadcast use keeping_alike;

    }
    let (d1, d2) = if offset < source_len {
        let (x1, x2) = (c1.with_base(offset), c2.with_base(offset));
        assert(start_alike(bases, x1, x2)) by {
            broadcast use keeping_alike;

        }
        data_agrees(bases, d, x1, x2);
        (data_layer(d, x1), data_layer(d, x2))
    } else {
        (c1, c2)
    };
    assert(alike(
        bases,
        d1.end().set_info(label).named(proto.called()).next_taken(),
        d2.end().set_info(label).named(proto.called()).next_taken(),
    )) by {
        broadcast use keeping_alike;

    }
}

proof fn chains_agree(bases: Bases, bytes: Seq<u8>, h: Handoff, k: nat, m1: Model, m2: Model)
    requires
        alike(bases, m1, m2),
        m1.trace.depth == 0,
    ensures
        alike(bases, chain(bytes, h, k, m1), chain(bytes, h, k, m2)),
    decreases k,
{
    alike_facts(bases, m1, m2);
    if k > 0 {
        if let Some(owned) = source_of(bytes, m1.extra, h.source) {
            let d = exposed(owned, h.offset as int, h.len);
            let before1 = m1.in_source(h.source).with_base(h.offset as int);
            let before2 = m2.in_source(h.source).with_base(h.offset as int);
            assert(start_alike(bases, before1, before2) && before1.trace.depth == 0) by {
                broadcast use keeping_alike;

            }
            let p = (before1.count(), before2.count());
            base_added(bases, before1, before2);
            let more = bases.push(p);
            layers_agree(more, h.proto, d, before1, before2);
            let (after1, e) = layer_of(h.proto, d, before1);
            let after2 = layer_of(h.proto, d, before2).0;
            alike_facts(more, after1, after2);
            alike_facts(bases, before1, before2);
            match e {
                Some(e) => {
                    assert forall|k: int| #![trigger more[k]] 0 <= k < more.len() implies more[k].0
                        <= more.last().0 && more[k].1 <= more.last().1 by {
                        reveal(alike);
                        if k < bases.len() {
                            assert(more[k] == bases[k]);
                            assert(twins(
                                before1.trace.rows,
                                bases[k].0,
                                before2.trace.rows,
                                bases[k].1,
                            ));
                        }
                    }
                    let (offset, len) = (h.offset as int, owned.len() as int);
                    malformed_agrees(
                        more,
                        h.proto,
                        e,
                        offset,
                        len,
                        d,
                        before1,
                        before2,
                        after1,
                        after2,
                    );
                    base_dropped(
                        bases,
                        p,
                        malformed(h.proto, e, offset, len, d, before1, after1),
                        malformed(h.proto, e, offset, len, d, before2, after2),
                    );
                },
                None => {
                    let (t1, t2) = (after1.next_taken(), after2.next_taken());
                    assert(alike(more, t1, t2) && t1.trace.depth == 0) by {
                        broadcast use keeping_alike;

                    }
                    base_dropped(bases, p, t1, t2);
                    if let Some(next) = after1.next {
                        chains_agree(bases, bytes, next, (k - 1) as nat, t1, t2);
                    }
                },
            }
        }
    }
}

proof fn tails_agree(bases: Bases, bytes: Seq<u8>, k: int, m1: Model, m2: Model)
    requires
        alike(bases, m1, m2),
        0 <= k < bases.len(),
    ensures
        alike(bases, with_tail(bytes, bases[k].0, m1), with_tail(bytes, bases[k].1, m2)),
{
    alike_facts(bases, m1, m2);
    assert(furthest(m1.trace.rows, bases[k].0, 0, 0) == furthest(
        m2.trace.rows,
        bases[k].1,
        0,
        0,
    )) by {
        reveal(alike);
    }
    let covered = furthest(m1.trace.rows, bases[k].0, 0, 0);
    let n = bytes.len() as int;
    let (x1, x2) = (m1.in_source(0), m2.in_source(0));
    assert(alike(bases, x1, x2)) by {
        broadcast use keeping_alike;

    }
    assert forall|abbrev: Seq<char>, label: Seq<char>| #[trigger] alike(
        bases,
        x1.leaf_text(abbrev, covered, n, ValueView::Bytes, label),
        x2.leaf_text(abbrev, covered, n, ValueView::Bytes, label),
    ) by {
        broadcast use keeping_alike;

    }
}

/// Two dissections of the same frame under different settings write the same
/// rows but for what they report, remember the same, and tell the same about
/// the frame but for the worst finding.
pub proof fn settings_change_only_reports(
    link_type: LinkType,
    number: u32,
    ts: Timestamp,
    orig_len: u32,
    bytes: Seq<u8>,
    state: StateView,
    o1: Options,
    o2: Options,
)
    ensures
        ({
            let m1 = dissected(link_type, number, ts, orig_len, bytes, state, o1);
            let m2 = dissected(link_type, number, ts, orig_len, bytes, state, o2);
            &&& plain(m1.trace.rows) == plain(m2.trace.rows)
            &&& m1.state == m2.state
            &&& m1.extra == m2.extra
            &&& m1.protocols == m2.protocols
            &&& quiet(m1.summary) == quiet(m2.summary)
        }),
{
    let n = bytes.len() as int;
    let s1 = untouched(link_type, number, ts, state, o1);
    let s2 = untouched(link_type, number, ts, state, o2);
    let none: Bases = Seq::empty();
    assert(alike(none, s1, s2)) by {
        reveal(alike);
        assert(rest(s1) == rest(s2));
    }
    let h1 = frame_rows(s1, number, ts, n, orig_len, link_type);
    let h2 = frame_rows(s2, number, ts, n, orig_len, link_type);
    assert(alike(none, h1, h2) && h1.trace.depth == 1) by {
        broadcast use keeping_alike;

    }
    base_added(none, h1, h2);
    let one = none.push((h1.count(), h2.count()));
    let value = ValueView::Str(""@);
    let p1 = h1.leaf("frame.protocols"@, 0, 0, value).end();
    let p2 = h2.leaf("frame.protocols"@, 0, 0, value).end();
    assert(alike(one, p1, p2) && p1.trace.depth == 0) by {
        broadcast use keeping_alike;

    }
    base_added(one, p1, p2);
    let bases = one.push((p1.count(), p2.count()));
    let first = Handoff { proto: first_proto(link_type), source: 0, offset: 0, len: None };
    let k = MAX_LAYERS as nat;
    chains_agree(bases, bytes, first, k, p1, p2);
    let (c1, c2) = (chain(bytes, first, k, p1), chain(bytes, first, k, p2));
    assert(bases[1] == (p1.count(), p2.count()) && bases[0] == (h1.count(), h2.count()));
    tails_agree(bases, bytes, 1, c1, c2);
    let (t1, t2) = (with_tail(bytes, p1.count(), c1), with_tail(bytes, p2.count(), c2));
    alike_facts(bases, t1, t2);
    let (i1, i2) = (h1.count(), h2.count());
    let shown = ValueView::Str(joined(t1.protocols, ":"@));
    let (v1, v2) = (t1.set_value(i1, shown), t2.set_value(i2, shown));
    assert(alike(bases, v1, v2)) by {
        reveal(alike);
        reveal(Model::set_value);
        let (a, b) = (t1.trace.rows, t2.trace.rows);
        assert(twins(a, bases[0].0, b, bases[0].1));
        if i1 < a.len() {
            rows_relabelled(
                bases,
                t1,
                i1,
                Row { value: shown, ..a[i1] },
                t2,
                i2,
                Row { value: shown, ..b[i2] },
            );
        }
    }
    alike_facts(bases, v1, v2);
    assert(alike(bases, v1.named("RAW"@), v2.named("RAW"@))) by {
        broadcast use keeping_alike;

    }
    alike_facts(bases, v1.named("RAW"@), v2.named("RAW"@));
    reveal(alike);
}

proof fn kept_are_plain(rows: Seq<Row>)
    ensures
        plain(all_kept(rows)) == all_kept(plain(rows)),
    decreases rows.len(),
{
    let all = all_kept(rows);
    if rows.len() > 0 {
        kept_are_plain(rows.drop_last());
        assert(all.drop_last() =~= all_kept(rows.drop_last()));
        assert(all.last() == kept(rows.last()));
        if !is_report(rows.last().abbrev) {
            let p = plain(rows.drop_last());
            assert(all_kept(p.push(shape(rows.last()))) =~= all_kept(p).push(
                kept(shape(rows.last())),
            ));
            assert(shape(kept(rows.last())) == kept(shape(rows.last())));
        } else {
            assert(plain(rows) == plain(rows.drop_last()));
        }
    } else {
        assert(all =~= Seq::empty());
        assert(all_kept(Seq::<Row>::empty()) =~= Seq::empty());
    }
}

/// A row without what it says: its name and its place.
pub open spec fn bare(r: Row) -> Row {
    Row { value: ValueView::Empty, text: None, ..r }
}

/// The names and places of all rows but those that report.
pub open spec fn outline(rows: Seq<Row>) -> Seq<Row> {
    plain(rows).map_values(|r: Row| bare(r))
}

proof fn outline_is_kept(packed: Seq<Row>, rows: Seq<Row>)
    requires
        outlines(packed, rows),
        forall|i: int|
            #![trigger rows[i]]
            0 <= i < rows.len() ==> index_of(rows[i].abbrev) is Some,
    ensures
        outline(packed) == plain(rows).map_values(|r: Row| bare(kept(r))),
    decreases rows.len(),
{
    if rows.len() > 0 {
        let (p, q) = (packed.drop_last(), rows.drop_last());
        assert(stands_for(packed[rows.len() - 1], rows[rows.len() - 1]));
        assert forall|i: int| 0 <= i < q.len() implies stands_for(#[trigger] p[i], q[i]) by {
            assert(stands_for(packed[i], rows[i]));
        }
        assert forall|i: int| #![trigger q[i]] 0 <= i < q.len() implies index_of(q[i].abbrev)
            is Some by {
            assert(index_of(rows[i].abbrev) is Some);
        }
        outline_is_kept(p, q);
        if !is_report(rows.last().abbrev) {
            assert(outline(packed) =~= outline(p).push(bare(shape(packed.last()))));
            assert(plain(rows).map_values(|r: Row| bare(kept(r))) =~= plain(q).map_values(
                |r: Row| bare(kept(r)),
            ).push(bare(kept(shape(rows.last())))));
        }
    } else {
        assert(packed =~= rows);
        assert(outline(packed) =~= plain(rows).map_values(|r: Row| bare(kept(r))));
    }
}

/// A frame shows the same rows whatever the settings, but for expert records:
/// the same names, ranges, data sources and depths in the same order, and it
/// leaves the same behind for later frames.
pub proof fn frames_have_the_same_outline(
    link_type: LinkType,
    number: u32,
    raw: RawView,
    state: StateView,
    o1: Options,
    o2: Options,
    f1: FrameView,
    f2: FrameView,
    after1: StateView,
    after2: StateView,
)
    requires
        tidy(state.reassembly),
        ({
            let m1 = dissected(link_type, number, raw.ts, raw.orig_len, raw.bytes, state, o1);
            let m2 = dissected(link_type, number, raw.ts, raw.orig_len, raw.bytes, state, o2);
            &&& frame_from(m1, number, raw, f1, after1)
            &&& frame_from(m2, number, raw, f2, after2)
        }),
    ensures
        outline(f1.rows) == outline(f2.rows),
        f1.extra == f2.extra,
        quiet(f1.summary) == quiet(f2.summary),
        after1 == after2,
{
    let (ts, len, bytes) = (raw.ts, raw.orig_len, raw.bytes);
    let m1 = dissected(link_type, number, ts, len, bytes, state, o1);
    let m2 = dissected(link_type, number, ts, len, bytes, state, o2);
    settings_change_only_reports(link_type, number, ts, len, bytes, state, o1, o2);
    dissecting_stays_sound(link_type, number, ts, len, bytes, state, o1);
    dissecting_stays_sound(link_type, number, ts, len, bytes, state, o2);
    assert forall|i: int| #![trigger m1.trace.rows[i]] 0 <= i < m1.count() implies index_of(
        m1.trace.rows[i].abbrev,
    ) is Some by {
        reveal(known);
    }
    assert forall|i: int| #![trigger m2.trace.rows[i]] 0 <= i < m2.count() implies index_of(
        m2.trace.rows[i].abbrev,
    ) is Some by {
        reveal(known);
    }
    outline_is_kept(f1.rows, m1.trace.rows);
    outline_is_kept(f2.rows, m2.trace.rows);
}

/// A frame shows the same rows whatever the settings, but for the verdicts on
/// checksums and for expert records: the same names, ranges, data sources and
/// depths in the same order.
pub proof fn frames_have_the_same_shape(
    link_type: LinkType,
    number: u32,
    raw: RawView,
    state: StateView,
    o1: Options,
    o2: Options,
    f1: FrameView,
    f2: FrameView,
    after1: StateView,
    after2: StateView,
)
    requires
        tidy(state.reassembly),
        ({
            let m1 = dissected(link_type, number, raw.ts, raw.orig_len, raw.bytes, state, o1);
            let m2 = dissected(link_type, number, raw.ts, raw.orig_len, raw.bytes, state, o2);
            &&& frame_from(m1, number, raw, f1, after1)
            &&& frame_from(m2, number, raw, f2, after2)
            &&& rows_bytes(m1.trace.rows) <= 0xffff_ffff
            &&& rows_bytes(m2.trace.rows) <= 0xffff_ffff
        }),
    ensures
        plain(f1.rows) == plain(f2.rows),
        f1.extra == f2.extra,
        quiet(f1.summary) == quiet(f2.summary),
        after1 == after2,
{
    let m1 = dissected(link_type, number, raw.ts, raw.orig_len, raw.bytes, state, o1);
    let m2 = dissected(link_type, number, raw.ts, raw.orig_len, raw.bytes, state, o2);
    settings_change_only_reports(
        link_type,
        number,
        raw.ts,
        raw.orig_len,
        raw.bytes,
        state,
        o1,
        o2,
    );
    every_field_is_registered(link_type, number, raw, state, o1, f1, after1);
    every_field_is_registered(link_type, number, raw, state, o2, f2, after2);
    kept_are_plain(m1.trace.rows);
    kept_are_plain(m2.trace.rows);
}

/// Without validation a frame shows what it shows with it, but for expert
/// records and findings about checksums: there are none of those findings, and
/// every checksum status is that it is unverified or not present.
pub proof fn validation_changes_reporting_and_nothing_else(
    link_type: LinkType,
    number: u32,
    raw: RawView,
    state: StateView,
    on: Options,
    off: Options,
    f1: FrameView,
    f2: FrameView,
    after1: StateView,
    after2: StateView,
)
    requires
        unasked(off),
        tidy(state.reassembly),
        ({
            let m1 = dissected(link_type, number, raw.ts, raw.orig_len, raw.bytes, state, on);
            let m2 = dissected(link_type, number, raw.ts, raw.orig_len, raw.bytes, state, off);
            &&& frame_from(m1, number, raw, f1, after1)
            &&& frame_from(m2, number, raw, f2, after2)
        }),
    ensures
        outline(f1.rows) == outline(f2.rows),
        after1 == after2,
        forall|i: int|
            0 <= i < f2.rows.len() ==> (#[trigger] f2.rows[i]).abbrev != "_ws.checksum.bad"@,
        forall|i: int|
            0 <= i < f2.rows.len() && is_status((#[trigger] f2.rows[i]).abbrev)
                ==> f2.rows[i].value == ValueView::Unsigned(CK_UNVERIFIED) || f2.rows[i].value
                == ValueView::Unsigned(CK_NOT_PRESENT),
{
    frames_have_the_same_outline(
        link_type,
        number,
        raw,
        state,
        on,
        off,
        f1,
        f2,
        after1,
        after2,
    );
    unasked_checksums_get_no_verdict(link_type, number, raw, state, off, f2, after2);
}

} // verus!

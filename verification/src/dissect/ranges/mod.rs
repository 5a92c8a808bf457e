//! Every byte range a frame shows lies inside its data source.
//!
//! A dissector sees part of a data source and writes rows about it. What it
//! writes stays inside that source, and so does what it hands on to the next
//! layer. That is shown here for each operation on a frame being dissected,
//! then for each protocol, and then for whole frames.

use vstd::prelude::*;

use super::ctx::{AddrsView, Model, Proto};
use super::cursor::SourceId;
use super::expert::{Group, Severity};
use super::node::{Row, ValueView};
use super::reassembly::{
    absorbed, added, collected, fresh, lemma_oldest, oldest, overlaid, pending_from, roomy, tidy,
    FragInfo, FragKeyView, FragResultView, PendingView, ReassemblyView,
};
use super::stream::desegment::Origin;
use super::stream::table::KeyView;
use super::stream::tcp::Segment;
use super::stream::{Direction, EndView};
use super::{AddrView, SummaryView};
use crate::capture::Timestamp;
use names::{allowed, frame_names, gives_verdict, giving_none, known, tame, unasked};

pub mod dhcp;
pub mod dns;
pub mod frame;
pub mod http;
pub mod icmp;
pub mod icmpv6;
pub mod ipv6;
pub mod link;
pub mod names;
pub mod network;
pub mod tls;
pub mod transport;

verus! {

/// The length of data source `s`: the frame's `n`, or that of a buffer made
/// while dissecting it; less than nothing where there is no such source.
pub open spec fn room(extra: Seq<Seq<u8>>, n: int, s: SourceId) -> int {
    if s == 0 {
        n
    } else if s - 1 < extra.len() {
        extra[s - 1].len() as int
    } else {
        -1
    }
}

/// A row's range lies in a source of length `room`.
pub open spec fn fits(r: Row, room: int) -> bool {
    0 <= r.start <= room && r.end <= room
}

/// The data sources of `m` are those of `m0`, and at most one more.
pub open spec fn extends(m0: Model, m: Model) -> bool {
    &&& m0.extra.len() <= m.extra.len() <= m0.extra.len() + 1
    &&& forall|i: int| 0 <= i < m0.extra.len() ==> m.extra[i] == m0.extra[i]
}

/// The rows of `m` begin with those of `m0`, under the same names, with the
/// same values and in the same places.
pub open spec fn keeps(m0: Model, m: Model) -> bool {
    &&& m0.count() <= m.count()
    &&& forall|i: int|
        #![trigger m.trace.rows[i]]
        0 <= i < m0.count() ==> m.trace.rows[i].source == m0.trace.rows[i].source
            && m.trace.rows[i].start == m0.trace.rows[i].start && m.trace.rows[i].end
            == m0.trace.rows[i].end && m.trace.rows[i].abbrev == m0.trace.rows[i].abbrev
            && m.trace.rows[i].depth == m0.trace.rows[i].depth && m.trace.rows[i].value
            == m0.trace.rows[i].value
}

/// What is handed on starts inside its data source.
pub open spec fn hands_on(m: Model, n: int) -> bool {
    m.next matches Some(h) ==> h.offset <= room(m.extra, n, h.source)
}

/// The rows written since `m0` lie in their data sources, and so does what is
/// handed on; they are fields that are registered, and none of them gives a
/// verdict that nobody asked for.
#[verifier::opaque]
pub open spec fn grown(m0: Model, m: Model, n: int) -> bool {
    &&& m.source == m0.source
    &&& extends(m0, m)
    &&& keeps(m0, m)
    &&& forall|i: int|
        #![trigger m.trace.rows[i]]
        m0.count() <= i < m.count() ==> fits(
            m.trace.rows[i],
            room(m.extra, n, m.trace.rows[i].source),
        ) && !(unasked(m0.options) && gives_verdict(m.trace.rows[i])) && known(
            m.trace.rows[i].abbrev,
        )
    &&& m.options == m0.options
    &&& hands_on(m, n)
    &&& tidy(m0.state.reassembly) ==> tidy(m.state.reassembly)
}

/// The room in the data source that `m0` dissects.
pub open spec fn space(m0: Model, n: int) -> int {
    room(m0.extra, n, m0.source)
}

/// The rows written since `m0` lie in the data source that it dissects, and
/// what is handed on lies in some source; the rows are fields that are
/// registered, and none of them gives a verdict that nobody asked for.
#[verifier::opaque]
pub open spec fn within(m0: Model, m: Model, n: int) -> bool {
    &&& m.source == m0.source
    &&& m.base == m0.base
    &&& m.nesting == m0.nesting
    &&& m.extra == m0.extra
    &&& keeps(m0, m)
    &&& forall|i: int|
        #![trigger m.trace.rows[i]]
        m0.count() <= i < m.count() ==> m.trace.rows[i].source == m0.source && fits(
            m.trace.rows[i],
            space(m0, n),
        ) && !(unasked(m0.options) && gives_verdict(m.trace.rows[i])) && known(
            m.trace.rows[i].abbrev,
        )
    &&& m.options == m0.options
    &&& hands_on(m, n)
    &&& tidy(m0.state.reassembly) ==> tidy(m.state.reassembly)
}

/// A dissector may start on `d`: it stands in the data source at the base,
/// and what was collected of fragments is in order.
pub open spec fn ready(d: Seq<u8>, m: Model, n: int) -> bool {
    &&& 0 <= n
    &&& 0 <= m.base
    &&& m.base + d.len() <= space(m, n)
    &&& hands_on(m, n)
    &&& m.extra.len() < 255
    &&& tidy(m.state.reassembly)
}

proof fn fresh_stay(s: Seq<PendingView>, limit: int)
    requires
        forall|i: int| 0 <= i < s.len() ==> #[trigger] collected(s[i]),
    ensures
        forall|i: int|
            0 <= i < fresh(s, limit).len() ==> #[trigger] collected(fresh(s, limit)[i]),
    decreases s.len(),
{
    if s.len() > 0 {
        assert forall|i: int| 0 <= i < s.drop_last().len() implies #[trigger] collected(
            s.drop_last()[i],
        ) by {
            assert(collected(s[i]));
        }
        fresh_stay(s.drop_last(), limit);
        assert(collected(s[s.len() - 1]));
        let before = fresh(s.drop_last(), limit);
        let now = fresh(s, limit);
        assert forall|i: int| 0 <= i < now.len() implies #[trigger] collected(now[i]) by {
            if i < before.len() {
                assert(collected(before[i]));
                assert(now[i] == before[i]);
            } else {
                assert(now[i] == s.last());
            }
        }
    }
}

proof fn roomy_stay(s: Seq<PendingView>, max: int)
    requires
        forall|i: int| 0 <= i < s.len() ==> #[trigger] collected(s[i]),
    ensures
        forall|i: int| 0 <= i < roomy(s, max).len() ==> #[trigger] collected(roomy(s, max)[i]),
    decreases s.len(),
{
    if s.len() >= max && s.len() > 0 {
        lemma_oldest(s);
        let k = oldest(s);
        let rest = s.remove(k);
        assert forall|i: int| 0 <= i < rest.len() implies #[trigger] collected(rest[i]) by {
            if i < k {
                assert(collected(s[i]));
            } else {
                assert(collected(s[i + 1]));
            }
        }
        roomy_stay(rest, max);
        assert(roomy(s, max) == roomy(rest, max));
    }
}

proof fn pending_found(s: Seq<PendingView>, key: FragKeyView, i: int)
    requires
        0 <= i,
    ensures
        pending_from(s, key, i) matches Some(k) ==> i <= k < s.len(),
    decreases s.len() - i,
{
    if i < s.len() && s[i].key != key {
        pending_found(s, key, i + 1);
    }
}

proof fn absorbed_stays(
    r: ReassemblyView,
    i: int,
    offset: usize,
    more: bool,
    payload: Seq<u8>,
    frame: u32,
    ts: Timestamp,
)
    requires
        tidy(r),
        0 <= i < r.pending.len(),
        offset + payload.len() <= usize::MAX,
    ensures
        tidy(absorbed(r, i, offset, more, payload, frame, ts).0),
        absorbed(r, i, offset, more, payload, frame, ts).1 matches FragResultView::Complete {
            data,
            frags,
        } ==> forall|k: int|
            0 <= k < frags.len() ==> (#[trigger] frags[k]).end() <= data.len(),
{
    let p = r.pending[i];
    assert(collected(p));
    let frags = p.frags.push(FragInfo { frame, offset, len: payload.len() as usize });
    let buf = overlaid(p.buf, offset as int, payload);
    assert forall|k: int| 0 <= k < frags.len() implies (#[trigger] frags[k]).end() <= buf.len() by {
        if k < p.frags.len() {
            assert(frags[k] == p.frags[k]);
        }
    }
    let gone = r.pending.remove(i);
    assert forall|k: int| 0 <= k < gone.len() implies #[trigger] collected(gone[k]) by {
        if k < i {
            assert(collected(r.pending[k]));
        } else {
            assert(collected(r.pending[k + 1]));
        }
    }
}

/// Adding a fragment keeps every datagram's fragments inside what was
/// collected of it, and a datagram that is complete holds all of its own.
pub proof fn fragments_stay_collected(
    r: ReassemblyView,
    key: FragKeyView,
    offset: usize,
    more: bool,
    payload: Seq<u8>,
    frame: u32,
    ts: Timestamp,
)
    requires
        tidy(r),
    ensures
        tidy(added(r, key, offset, more, payload, frame, ts).0),
        added(r, key, offset, more, payload, frame, ts).1 matches FragResultView::Complete {
            data,
            frags,
        } ==> forall|k: int|
            0 <= k < frags.len() ==> (#[trigger] frags[k]).end() <= data.len(),
{
    let limit = ts.secs - r.timeout_secs;
    fresh_stay(r.pending, limit);
    let live = ReassemblyView { pending: fresh(r.pending, limit), ..r };
    assert(tidy(live));
    if offset + payload.len() <= r.max_datagram {
        pending_found(live.pending, key, 0);
        match pending_from(live.pending, key, 0) {
            Some(i) => absorbed_stays(live, i, offset, more, payload, frame, ts),
            None => {
                let room = roomy(live.pending, r.max_pending as int);
                roomy_stay(live.pending, r.max_pending as int);
                let next = ReassemblyView {
                    pending: room.push(super::reassembly::just_seen(key, ts)),
                    ..live
                };
                assert(tidy(next));
                absorbed_stays(next, room.len() as int, offset, more, payload, frame, ts);
            },
        }
    }
}

/// Rows stay inside as long as nothing is written.
pub proof fn nothing_written(m: Model, n: int)
    requires
        hands_on(m, n),
    ensures
        within(m, m, n),
{
    reveal(within);
}

/// Rows that stay inside, and more of them, stay inside.
pub proof fn within_chain(m0: Model, m1: Model, m2: Model, n: int)
    requires
        within(m0, m1, n),
        within(m1, m2, n),
    ensures
        within(m0, m2, n),
{
    reveal(within);
    assert forall|i: int| 0 <= i < m0.count() implies m2.trace.rows[i].source
        == m0.trace.rows[i].source && m2.trace.rows[i].start == m0.trace.rows[i].start
        && m2.trace.rows[i].end == m0.trace.rows[i].end by {
        assert(m1.trace.rows[i].source == m0.trace.rows[i].source);
    }
    assert forall|i: int| m0.count() <= i < m2.count() implies m2.trace.rows[i].source == m0.source
        && fits(m2.trace.rows[i], space(m0, n)) && !(unasked(m0.options) && gives_verdict(
        m2.trace.rows[i],
    )) && known(m2.trace.rows[i].abbrev) by {
        if i < m1.count() {
            assert(m1.trace.rows[i].source == m0.source);
            assert(!(unasked(m0.options) && gives_verdict(m1.trace.rows[i])));
            assert(known(m1.trace.rows[i].abbrev));
        }
    }
}

/// Where the slice starts and how deep it is quoted do not matter to rows
/// that stay inside.
pub proof fn within_elsewhere(m0: Model, base: int, nesting: u8, m: Model, n: int)
    requires
        within(m0.nested(nesting).with_base(base), m, n),
    ensures
        within(m0, m.with_base(m0.base).nested(m0.nesting), n),
{
    reveal(within);
    reveal(Model::with_base);
    reveal(Model::nested);
}

/// What a layer may start on it may start on inside a quote.
pub proof fn ready_elsewhere(d: Seq<u8>, m0: Model, base: int, nesting: u8, n: int)
    requires
        0 <= n,
        0 <= base,
        base + d.len() <= space(m0, n),
        hands_on(m0, n),
        m0.extra.len() < 255,
        tidy(m0.state.reassembly),
    ensures
        ready(d, m0.nested(nesting).with_base(base), n),
        m0.nested(nesting).with_base(base).nesting == nesting,
        m0.nested(nesting).with_base(base).source == m0.source,
        space(m0.nested(nesting).with_base(base), n) == space(m0, n),
{
    reveal(Model::with_base);
    reveal(Model::nested);
}

/// What is known of a frame whose rows stayed inside.
pub proof fn within_facts(m0: Model, m: Model, n: int)
    requires
        within(m0, m, n),
    ensures
        hands_on(m, n),
        tidy(m0.state.reassembly) ==> tidy(m.state.reassembly),
        space(m, n) == space(m0, n),
{
    reveal(within);
}

/// Fragments stay collected while a layer is dissected.
pub proof fn within_tidy(m0: Model, m: Model, n: int)
    requires
        within(m0, m, n),
        tidy(m0.state.reassembly),
    ensures
        tidy(m.state.reassembly),
{
    reveal(within);
}

pub broadcast proof fn within_counts(m0: Model, m: Model, n: int)
    requires
        #[trigger] within(m0, m, n),
    ensures
        m0.count() <= m.count(),
        m.source == m0.source,
        m.base == m0.base,
        m.nesting == m0.nesting,
        m.extra == m0.extra,
        m.options == m0.options,
{
    reveal(within);
}

/// What lies in the source being dissected lies in its data source.
pub proof fn within_grows(m0: Model, m: Model, n: int)
    requires
        within(m0, m, n),
        space(m0, n) >= 0,
    ensures
        grown(m0, m, n),
{
    reveal(within);
    reveal(grown);
}

pub broadcast proof fn leaf_within(
    m0: Model,
    m: Model,
    n: int,
    abbrev: Seq<char>,
    start: int,
    end: int,
    value: ValueView,
)
    requires
        within(m0, m, n),
        0 <= start <= space(m0, n),
        end <= space(m0, n),
        allowed(m0.options, abbrev, value),
    ensures
        #[trigger] within(m0, m.leaf(abbrev, start, end, value), n),
{
    broadcast use giving_none;

    reveal(within);
    reveal(Model::leaf);
}

pub broadcast proof fn leaf_counts(
    m: Model,
    abbrev: Seq<char>,
    start: int,
    end: int,
    value: ValueView,
)
    ensures
        (#[trigger] m.leaf(abbrev, start, end, value)).count() >= m.count() + 1,
        m.leaf(abbrev, start, end, value).source == m.source,
        m.leaf(abbrev, start, end, value).base == m.base,
        m.leaf(abbrev, start, end, value).extra == m.extra,
{
    reveal(Model::leaf);
}

pub broadcast proof fn leaf_text_within(
    m0: Model,
    m: Model,
    n: int,
    abbrev: Seq<char>,
    start: int,
    end: int,
    value: ValueView,
    text: Seq<char>,
)
    requires
        within(m0, m, n),
        0 <= start <= space(m0, n),
        end <= space(m0, n),
        tame(abbrev),
    ensures
        #[trigger] within(m0, m.leaf_text(abbrev, start, end, value, text), n),
{
    broadcast use giving_none;

    frame_names();
    reveal(within);
    reveal(Model::leaf_text);
    reveal(Model::record);
}

pub broadcast proof fn leaf_text_counts(
    m: Model,
    abbrev: Seq<char>,
    start: int,
    end: int,
    value: ValueView,
    text: Seq<char>,
)
    ensures
        (#[trigger] m.leaf_text(abbrev, start, end, value, text)).count() >= m.count() + 1,
        m.leaf_text(abbrev, start, end, value, text).source == m.source,
        m.leaf_text(abbrev, start, end, value, text).base == m.base,
        m.leaf_text(abbrev, start, end, value, text).extra == m.extra,
{
    reveal(Model::leaf_text);
    reveal(Model::record);
}

pub broadcast proof fn begin_within(
    m0: Model,
    m: Model,
    n: int,
    abbrev: Seq<char>,
    start: int,
    end: int,
)
    requires
        within(m0, m, n),
        0 <= start <= space(m0, n),
        end <= space(m0, n),
        tame(abbrev),
    ensures
        #[trigger] within(m0, m.begin(abbrev, start, end), n),
{
    broadcast use giving_none;

    reveal(within);
    reveal(Model::begin);
}

pub broadcast proof fn begin_counts(m: Model, abbrev: Seq<char>, start: int, end: int)
    ensures
        (#[trigger] m.begin(abbrev, start, end)).count() >= m.count() + 1,
        m.begin(abbrev, start, end).source == m.source,
        m.begin(abbrev, start, end).base == m.base,
        m.begin(abbrev, start, end).extra == m.extra,
{
    reveal(Model::begin);
}

pub broadcast proof fn begin_value_within(
    m0: Model,
    m: Model,
    n: int,
    abbrev: Seq<char>,
    start: int,
    end: int,
    value: ValueView,
)
    requires
        within(m0, m, n),
        0 <= start <= space(m0, n),
        end <= space(m0, n),
        allowed(m0.options, abbrev, value),
    ensures
        #[trigger] within(m0, m.begin_value(abbrev, start, end, value), n),
{
    broadcast use giving_none;

    reveal(within);
    reveal(Model::begin_value);
}

pub broadcast proof fn begin_value_counts(
    m: Model,
    abbrev: Seq<char>,
    start: int,
    end: int,
    value: ValueView,
)
    ensures
        (#[trigger] m.begin_value(abbrev, start, end, value)).count() >= m.count() + 1,
        m.begin_value(abbrev, start, end, value).source == m.source,
        m.begin_value(abbrev, start, end, value).base == m.base,
        m.begin_value(abbrev, start, end, value).extra == m.extra,
{
    reveal(Model::begin_value);
}

pub broadcast proof fn begin_text_within(
    m0: Model,
    m: Model,
    n: int,
    abbrev: Seq<char>,
    start: int,
    end: int,
    text: Seq<char>,
)
    requires
        within(m0, m, n),
        0 <= start <= space(m0, n),
        end <= space(m0, n),
        tame(abbrev),
    ensures
        #[trigger] within(m0, m.begin_text(abbrev, start, end, text), n),
{
    broadcast use giving_none;

    frame_names();
    reveal(within);
    reveal(Model::begin_text);
    reveal(Model::record);
}

pub broadcast proof fn begin_text_counts(
    m: Model,
    abbrev: Seq<char>,
    start: int,
    end: int,
    text: Seq<char>,
)
    ensures
        (#[trigger] m.begin_text(abbrev, start, end, text)).count() >= m.count() + 1,
        m.begin_text(abbrev, start, end, text).source == m.source,
        m.begin_text(abbrev, start, end, text).base == m.base,
        m.begin_text(abbrev, start, end, text).extra == m.extra,
{
    reveal(Model::begin_text);
    reveal(Model::record);
}

pub broadcast proof fn begin_value_text_within(
    m0: Model,
    m: Model,
    n: int,
    abbrev: Seq<char>,
    start: int,
    end: int,
    value: ValueView,
    text: Seq<char>,
)
    requires
        within(m0, m, n),
        0 <= start <= space(m0, n),
        end <= space(m0, n),
        allowed(m0.options, abbrev, value),
    ensures
        #[trigger] within(m0, m.begin_value_text(abbrev, start, end, value, text), n),
{
    broadcast use giving_none;

    reveal(within);
    reveal(Model::begin_value_text);
}

pub broadcast proof fn begin_value_text_counts(
    m: Model,
    abbrev: Seq<char>,
    start: int,
    end: int,
    value: ValueView,
    text: Seq<char>,
)
    ensures
        (#[trigger] m.begin_value_text(abbrev, start, end, value, text)).count() >= m.count() + 1,
        m.begin_value_text(abbrev, start, end, value, text).source == m.source,
        m.begin_value_text(abbrev, start, end, value, text).base == m.base,
        m.begin_value_text(abbrev, start, end, value, text).extra == m.extra,
{
    reveal(Model::begin_value_text);
}

pub broadcast proof fn end_within(m0: Model, m: Model, n: int)
    requires
        within(m0, m, n),
    ensures
        #[trigger] within(m0, m.end(), n),
{
    reveal(within);
    reveal(Model::end);
}

pub broadcast proof fn end_counts(m: Model)
    ensures
        (#[trigger] m.end()).count() == m.count(),
        m.end().source == m.source,
        m.end().base == m.base,
        m.end().extra == m.extra,
{
    reveal(Model::end);
}

pub broadcast proof fn end_at_within(m0: Model, m: Model, n: int, id: int, end: int)
    requires
        within(m0, m, n),
        m0.count() <= id < m.count(),
        end <= space(m0, n),
    ensures
        #[trigger] within(m0, m.end_at(id, end), n),
{
    reveal(within);
    reveal(Model::end_at);
}

pub broadcast proof fn end_at_counts(m: Model, id: int, end: int)
    requires
        0 <= id < m.count(),
    ensures
        (#[trigger] m.end_at(id, end)).count() == m.count(),
        m.end_at(id, end).source == m.source,
        m.end_at(id, end).base == m.base,
        m.end_at(id, end).extra == m.extra,
{
    reveal(Model::end_at);
}

pub broadcast proof fn set_end_within(m0: Model, m: Model, n: int, id: int, end: int)
    requires
        within(m0, m, n),
        m0.count() <= id < m.count(),
        end <= space(m0, n),
    ensures
        #[trigger] within(m0, m.set_end(id, end), n),
{
    reveal(within);
    reveal(Model::set_end);
}

pub broadcast proof fn set_end_counts(m: Model, id: int, end: int)
    requires
        0 <= id < m.count(),
    ensures
        (#[trigger] m.set_end(id, end)).count() == m.count(),
        m.set_end(id, end).source == m.source,
        m.set_end(id, end).base == m.base,
        m.set_end(id, end).extra == m.extra,
{
    reveal(Model::set_end);
}

pub broadcast proof fn set_text_within(m0: Model, m: Model, n: int, id: int, text: Seq<char>)
    requires
        within(m0, m, n),
        0 <= id < m.count(),
    ensures
        #[trigger] within(m0, m.set_text(id, text), n),
{
    reveal(within);
    reveal(Model::set_text);
}

pub broadcast proof fn set_text_counts(m: Model, id: int, text: Seq<char>)
    requires
        0 <= id < m.count(),
    ensures
        (#[trigger] m.set_text(id, text)).count() == m.count(),
        m.set_text(id, text).source == m.source,
        m.set_text(id, text).base == m.base,
        m.set_text(id, text).extra == m.extra,
{
    reveal(Model::set_text);
}

pub broadcast proof fn set_value_counts(m: Model, id: int, value: ValueView)
    ensures
        (#[trigger] m.set_value(id, value)).count() == m.count(),
        m.set_value(id, value).source == m.source,
        m.set_value(id, value).base == m.base,
        m.set_value(id, value).extra == m.extra,
{
    reveal(Model::set_value);
}

pub broadcast proof fn at_depth_within(m0: Model, m: Model, n: int, depth: int)
    requires
        within(m0, m, n),
    ensures
        #[trigger] within(m0, m.at_depth(depth), n),
{
    reveal(within);
    reveal(Model::at_depth);
}

pub broadcast proof fn at_depth_counts(m: Model, depth: int)
    ensures
        (#[trigger] m.at_depth(depth)).count() == m.count(),
        m.at_depth(depth).source == m.source,
        m.at_depth(depth).base == m.base,
        m.at_depth(depth).extra == m.extra,
{
    reveal(Model::at_depth);
}

pub broadcast proof fn record_within(
    m0: Model,
    m: Model,
    n: int,
    start: int,
    end: int,
    severity: Severity,
    group: Group,
    summary: Seq<char>,
)
    requires
        within(m0, m, n),
        0 <= start <= space(m0, n),
        end <= space(m0, n),
    ensures
        #[trigger] within(m0, m.record(start, end, severity, group, summary), n),
{
    broadcast use giving_none;

    frame_names();
    reveal(within);
    reveal(Model::record);
}

pub broadcast proof fn record_counts(
    m: Model,
    start: int,
    end: int,
    severity: Severity,
    group: Group,
    summary: Seq<char>,
)
    ensures
        (#[trigger] m.record(start, end, severity, group, summary)).count() >= m.count() + 1,
        m.record(start, end, severity, group, summary).source == m.source,
        m.record(start, end, severity, group, summary).base == m.base,
        m.record(start, end, severity, group, summary).extra == m.extra,
{
    reveal(Model::record);
}

pub broadcast proof fn expert_within(
    m0: Model,
    m: Model,
    n: int,
    abbrev: Seq<char>,
    start: int,
    end: int,
    severity: Severity,
    group: Group,
    summary: Seq<char>,
)
    requires
        within(m0, m, n),
        0 <= start <= space(m0, n),
        end <= space(m0, n),
        tame(abbrev) || (known(abbrev) && !unasked(m0.options)),
    ensures
        #[trigger] within(m0, m.expert(abbrev, start, end, severity, group, summary), n),
{
    broadcast use giving_none;

    frame_names();
    reveal(within);
    reveal(Model::expert);
    reveal(Model::leaf_text);
    reveal(Model::record);
}

pub broadcast proof fn expert_counts(
    m: Model,
    abbrev: Seq<char>,
    start: int,
    end: int,
    severity: Severity,
    group: Group,
    summary: Seq<char>,
)
    ensures
        (#[trigger] m.expert(
            abbrev,
            start,
            end,
            severity,
            group,
            summary,
        )).count() >= m.count() + 1,
        m.expert(abbrev, start, end, severity, group, summary).source == m.source,
        m.expert(abbrev, start, end, severity, group, summary).base == m.base,
        m.expert(abbrev, start, end, severity, group, summary).extra == m.extra,
{
    reveal(Model::expert);
    reveal(Model::leaf_text);
    reveal(Model::record);
}

pub broadcast proof fn call_next_within(m0: Model, m: Model, n: int, proto: Proto, offset: int)
    requires
        within(m0, m, n),
        0 <= m.base + offset <= space(m0, n),
    ensures
        #[trigger] within(m0, m.call_next(proto, offset), n),
{
    reveal(within);
    reveal(Model::call_next);
}

pub broadcast proof fn call_next_counts(m: Model, proto: Proto, offset: int)
    ensures
        (#[trigger] m.call_next(proto, offset)).count() == m.count(),
        m.call_next(proto, offset).source == m.source,
        m.call_next(proto, offset).base == m.base,
        m.call_next(proto, offset).extra == m.extra,
{
    reveal(Model::call_next);
}

pub broadcast proof fn call_next_bounded_within(
    m0: Model,
    m: Model,
    n: int,
    proto: Proto,
    offset: int,
    len: int,
)
    requires
        within(m0, m, n),
        0 <= m.base + offset <= space(m0, n),
    ensures
        #[trigger] within(m0, m.call_next_bounded(proto, offset, len), n),
{
    reveal(within);
    reveal(Model::call_next_bounded);
}

pub broadcast proof fn call_next_bounded_counts(m: Model, proto: Proto, offset: int, len: int)
    ensures
        (#[trigger] m.call_next_bounded(proto, offset, len)).count() == m.count(),
        m.call_next_bounded(proto, offset, len).source == m.source,
        m.call_next_bounded(proto, offset, len).base == m.base,
        m.call_next_bounded(proto, offset, len).extra == m.extra,
{
    reveal(Model::call_next_bounded);
}

pub broadcast proof fn next_taken_within(m0: Model, m: Model, n: int)
    requires
        within(m0, m, n),
    ensures
        #[trigger] within(m0, m.next_taken(), n),
{
    reveal(within);
    reveal(Model::next_taken);
}

pub broadcast proof fn next_taken_counts(m: Model)
    ensures
        (#[trigger] m.next_taken()).count() == m.count(),
        m.next_taken().source == m.source,
        m.next_taken().base == m.base,
        m.next_taken().extra == m.extra,
{
    reveal(Model::next_taken);
}

pub broadcast proof fn push_protocol_within(m0: Model, m: Model, n: int, name: Seq<char>)
    requires
        within(m0, m, n),
    ensures
        #[trigger] within(m0, m.push_protocol(name), n),
{
    reveal(within);
    reveal(Model::push_protocol);
}

pub broadcast proof fn push_protocol_counts(m: Model, name: Seq<char>)
    ensures
        (#[trigger] m.push_protocol(name)).count() == m.count(),
        m.push_protocol(name).source == m.source,
        m.push_protocol(name).base == m.base,
        m.push_protocol(name).extra == m.extra,
{
    reveal(Model::push_protocol);
}

pub broadcast proof fn set_protocol_within(m0: Model, m: Model, n: int, name: Seq<char>)
    requires
        within(m0, m, n),
    ensures
        #[trigger] within(m0, m.set_protocol(name), n),
{
    reveal(within);
    reveal(Model::set_protocol);
    reveal(Model::push_protocol);
    reveal(Model::named);
}

pub broadcast proof fn set_protocol_counts(m: Model, name: Seq<char>)
    ensures
        (#[trigger] m.set_protocol(name)).count() == m.count(),
        m.set_protocol(name).source == m.source,
        m.set_protocol(name).base == m.base,
        m.set_protocol(name).extra == m.extra,
{
    reveal(Model::set_protocol);
    reveal(Model::push_protocol);
    reveal(Model::named);
}

pub broadcast proof fn named_within(m0: Model, m: Model, n: int, name: Seq<char>)
    requires
        within(m0, m, n),
    ensures
        #[trigger] within(m0, m.named(name), n),
{
    reveal(within);
    reveal(Model::named);
}

pub broadcast proof fn named_counts(m: Model, name: Seq<char>)
    ensures
        (#[trigger] m.named(name)).count() == m.count(),
        m.named(name).source == m.source,
        m.named(name).base == m.base,
        m.named(name).extra == m.extra,
{
    reveal(Model::named);
}

pub broadcast proof fn truncate_protocols_within(m0: Model, m: Model, n: int, k: int)
    requires
        within(m0, m, n),
    ensures
        #[trigger] within(m0, m.truncate_protocols(k), n),
{
    reveal(within);
    reveal(Model::truncate_protocols);
}

pub broadcast proof fn truncate_protocols_counts(m: Model, k: int)
    ensures
        (#[trigger] m.truncate_protocols(k)).count() == m.count(),
        m.truncate_protocols(k).source == m.source,
        m.truncate_protocols(k).base == m.base,
        m.truncate_protocols(k).extra == m.extra,
{
    reveal(Model::truncate_protocols);
}

pub broadcast proof fn set_info_within(m0: Model, m: Model, n: int, info: Seq<char>)
    requires
        within(m0, m, n),
    ensures
        #[trigger] within(m0, m.set_info(info), n),
{
    reveal(within);
    reveal(Model::set_info);
}

pub broadcast proof fn set_info_counts(m: Model, info: Seq<char>)
    ensures
        (#[trigger] m.set_info(info)).count() == m.count(),
        m.set_info(info).source == m.source,
        m.set_info(info).base == m.base,
        m.set_info(info).extra == m.extra,
{
    reveal(Model::set_info);
}

pub broadcast proof fn between_within(
    m0: Model,
    m: Model,
    n: int,
    source: AddrView,
    destination: AddrView,
)
    requires
        within(m0, m, n),
    ensures
        #[trigger] within(m0, m.between(source, destination), n),
{
    reveal(within);
    reveal(Model::between);
}

pub broadcast proof fn between_counts(m: Model, source: AddrView, destination: AddrView)
    ensures
        (#[trigger] m.between(source, destination)).count() == m.count(),
        m.between(source, destination).source == m.source,
        m.between(source, destination).base == m.base,
        m.between(source, destination).extra == m.extra,
{
    reveal(Model::between);
}

pub broadcast proof fn with_addrs_within(m0: Model, m: Model, n: int, addrs: Option<AddrsView>)
    requires
        within(m0, m, n),
    ensures
        #[trigger] within(m0, m.with_addrs(addrs), n),
{
    reveal(within);
    reveal(Model::with_addrs);
}

pub broadcast proof fn with_addrs_counts(m: Model, addrs: Option<AddrsView>)
    ensures
        (#[trigger] m.with_addrs(addrs)).count() == m.count(),
        m.with_addrs(addrs).source == m.source,
        m.with_addrs(addrs).base == m.base,
        m.with_addrs(addrs).extra == m.extra,
{
    reveal(Model::with_addrs);
}

pub broadcast proof fn with_summary_within(m0: Model, m: Model, n: int, summary: SummaryView)
    requires
        within(m0, m, n),
    ensures
        #[trigger] within(m0, m.with_summary(summary), n),
{
    reveal(within);
    reveal(Model::with_summary);
}

pub broadcast proof fn with_summary_counts(m: Model, summary: SummaryView)
    ensures
        (#[trigger] m.with_summary(summary)).count() == m.count(),
        m.with_summary(summary).source == m.source,
        m.with_summary(summary).base == m.base,
        m.with_summary(summary).extra == m.extra,
{
    reveal(Model::with_summary);
}

pub broadcast proof fn with_stream_within(
    m0: Model,
    m: Model,
    n: int,
    stream: Option<(u32, Direction)>,
)
    requires
        within(m0, m, n),
    ensures
        #[trigger] within(m0, m.with_stream(stream), n),
{
    reveal(within);
    reveal(Model::with_stream);
}

pub broadcast proof fn with_stream_counts(m: Model, stream: Option<(u32, Direction)>)
    ensures
        (#[trigger] m.with_stream(stream)).count() == m.count(),
        m.with_stream(stream).source == m.source,
        m.with_stream(stream).base == m.base,
        m.with_stream(stream).extra == m.extra,
{
    reveal(Model::with_stream);
}

pub broadcast proof fn with_origin_within(m0: Model, m: Model, n: int, origin: Option<Origin>)
    requires
        within(m0, m, n),
    ensures
        #[trigger] within(m0, m.with_origin(origin), n),
{
    reveal(within);
    reveal(Model::with_origin);
}

pub broadcast proof fn with_origin_counts(m: Model, origin: Option<Origin>)
    ensures
        (#[trigger] m.with_origin(origin)).count() == m.count(),
        m.with_origin(origin).source == m.source,
        m.with_origin(origin).base == m.base,
        m.with_origin(origin).extra == m.extra,
{
    reveal(Model::with_origin);
}

pub broadcast proof fn hold_within(m0: Model, m: Model, n: int, bytes: Seq<u8>)
    requires
        within(m0, m, n),
    ensures
        #[trigger] within(m0, m.hold(bytes).0, n),
{
    reveal(within);
    reveal(Model::hold);
}

pub broadcast proof fn hold_counts(m: Model, bytes: Seq<u8>)
    ensures
        (#[trigger] m.hold(bytes).0).count() == m.count(),
        m.hold(bytes).0.source == m.source,
        m.hold(bytes).0.base == m.base,
        m.hold(bytes).0.extra == m.extra,
{
    reveal(Model::hold);
}

pub broadcast proof fn drop_held_within(m0: Model, m: Model, n: int)
    requires
        within(m0, m, n),
    ensures
        #[trigger] within(m0, m.drop_held(), n),
{
    reveal(within);
    reveal(Model::drop_held);
}

pub broadcast proof fn drop_held_counts(m: Model)
    ensures
        (#[trigger] m.drop_held()).count() == m.count(),
        m.drop_held().source == m.source,
        m.drop_held().base == m.base,
        m.drop_held().extra == m.extra,
{
    reveal(Model::drop_held);
}

pub broadcast proof fn take_held_within(m0: Model, m: Model, n: int, stream: u32, dir: Direction)
    requires
        within(m0, m, n),
    ensures
        #[trigger] within(m0, m.take_held(stream, dir), n),
{
    reveal(within);
    reveal(Model::take_held);
}

pub broadcast proof fn take_held_counts(m: Model, stream: u32, dir: Direction)
    ensures
        (#[trigger] m.take_held(stream, dir)).count() == m.count(),
        m.take_held(stream, dir).source == m.source,
        m.take_held(stream, dir).base == m.base,
        m.take_held(stream, dir).extra == m.extra,
{
    reveal(Model::take_held);
}

pub broadcast proof fn add_fragment_within(
    m0: Model,
    m: Model,
    n: int,
    key: FragKeyView,
    offset: usize,
    more: bool,
    payload: Seq<u8>,
)
    requires
        within(m0, m, n),
    ensures
        #[trigger] within(m0, m.add_fragment(key, offset, more, payload).0, n),
{
    reveal(within);
    reveal(Model::add_fragment);
    if tidy(m.state.reassembly) {
        fragments_stay_collected(
            m.state.reassembly,
            key,
            offset,
            more,
            payload,
            m.frame_number,
            m.ts,
        );
    }
}

pub broadcast proof fn add_fragment_counts(
    m: Model,
    key: FragKeyView,
    offset: usize,
    more: bool,
    payload: Seq<u8>,
)
    ensures
        (#[trigger] m.add_fragment(key, offset, more, payload).0).count() == m.count(),
        m.add_fragment(key, offset, more, payload).0.source == m.source,
        m.add_fragment(key, offset, more, payload).0.base == m.base,
        m.add_fragment(key, offset, more, payload).0.extra == m.extra,
{
    reveal(Model::add_fragment);
}

pub broadcast proof fn look_up_within(
    m0: Model,
    m: Model,
    n: int,
    src: EndView,
    dst: EndView,
    proto: u8,
    fresh: bool,
)
    requires
        within(m0, m, n),
    ensures
        #[trigger] within(m0, m.look_up(src, dst, proto, fresh).0, n),
{
    reveal(within);
    reveal(Model::look_up);
}

pub broadcast proof fn look_up_counts(m: Model, src: EndView, dst: EndView, proto: u8, fresh: bool)
    ensures
        (#[trigger] m.look_up(src, dst, proto, fresh).0).count() == m.count(),
        m.look_up(src, dst, proto, fresh).0.source == m.source,
        m.look_up(src, dst, proto, fresh).0.base == m.base,
        m.look_up(src, dst, proto, fresh).0.extra == m.extra,
{
    reveal(Model::look_up);
}

pub broadcast proof fn analyse_within(
    m0: Model,
    m: Model,
    n: int,
    key: KeyView,
    d: Direction,
    seg: Segment,
)
    requires
        within(m0, m, n),
    ensures
        #[trigger] within(m0, m.analyse(key, d, seg).0, n),
{
    reveal(within);
    reveal(Model::analyse);
}

pub broadcast proof fn analyse_counts(m: Model, key: KeyView, d: Direction, seg: Segment)
    ensures
        (#[trigger] m.analyse(key, d, seg).0).count() == m.count(),
        m.analyse(key, d, seg).0.source == m.source,
        m.analyse(key, d, seg).0.base == m.base,
        m.analyse(key, d, seg).0.extra == m.extra,
{
    reveal(Model::analyse);
}

/// A buffer made while dissecting is handed on as a data source of its own.
pub proof fn new_source_stays(m0: Model, m: Model, n: int, bytes: Seq<u8>, proto: Proto)
    requires
        within(m0, m, n),
        0 <= n,
        0 <= space(m0, n),
    ensures
        grown(m0, m.add_source(bytes).call_next_in_source(proto, m.next_source()), n),
{
    reveal(within);
    reveal(grown);
    reveal(Model::add_source);
    reveal(Model::call_next_in_source);
}

/// The operations on a frame being dissected, each of which keeps to its
/// source.
pub broadcast group keeping_inside {
    within_counts,
    leaf_within,
    leaf_counts,
    leaf_text_within,
    leaf_text_counts,
    begin_within,
    begin_counts,
    begin_value_within,
    begin_value_counts,
    begin_text_within,
    begin_text_counts,
    begin_value_text_within,
    begin_value_text_counts,
    end_within,
    end_counts,
    end_at_within,
    end_at_counts,
    set_end_within,
    set_end_counts,
    set_text_within,
    set_text_counts,
    set_value_counts,
    at_depth_within,
    at_depth_counts,
    record_within,
    record_counts,
    expert_within,
    expert_counts,
    call_next_within,
    call_next_counts,
    call_next_bounded_within,
    call_next_bounded_counts,
    next_taken_within,
    next_taken_counts,
    push_protocol_within,
    push_protocol_counts,
    set_protocol_within,
    set_protocol_counts,
    named_within,
    named_counts,
    truncate_protocols_within,
    truncate_protocols_counts,
    set_info_within,
    set_info_counts,
    between_within,
    between_counts,
    with_addrs_within,
    with_addrs_counts,
    with_summary_within,
    with_summary_counts,
    with_stream_within,
    with_stream_counts,
    with_origin_within,
    with_origin_counts,
    hold_within,
    hold_counts,
    drop_held_within,
    drop_held_counts,
    take_held_within,
    take_held_counts,
    add_fragment_within,
    add_fragment_counts,
    look_up_within,
    look_up_counts,
    analyse_within,
    analyse_counts,
}

} // verus!

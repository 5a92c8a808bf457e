//! What a layer shows, the frame shows.

use vstd::prelude::*;

use super::{field, written, writing, Field};
use crate::capture::{LinkType, RawView, Timestamp};
use crate::dissect::ctx::{untouched, Handoff, Model, Proto};
use crate::dissect::node::{stands_for, ValueView};
use crate::dissect::ranges::frame::{
    chain_stays_sound, growing_stays_sound, keeps_on, layer_grows, sound, tail_stays_sound,
};
use crate::dissect::ranges::names::{frame_names, known};
use crate::dissect::ranges::{
    keeping_inside, keeps, nothing_written, ready, room, within, within_grows,
};
use crate::dissect::reassembly::tidy;
use crate::dissect::state::StateView;
use crate::dissect::{
    chain, dissected, exposed, first_proto, frame_from, frame_rows, layer_of, source_of, with_tail,
    FrameView, Options, MAX_LAYERS,
};
use crate::text::{dec, padded, signed};

verus! {

/// A dissector at work: the protocol, the bytes it sees and the frame as it
/// finds it.
pub struct Stop {
    pub proto: Proto,
    pub bytes: Seq<u8>,
    pub found: Model,
}

/// The dissector that gets `h` from `m`, if there are such bytes.
pub open spec fn stop_at(bytes: Seq<u8>, h: Handoff, m: Model) -> Option<Stop> {
    match source_of(bytes, m.extra, h.source) {
        Some(owned) => Some(
            Stop {
                proto: h.proto,
                bytes: exposed(owned, h.offset as int, h.len),
                found: m.in_source(h.source).with_base(h.offset as int),
            },
        ),
        None => None,
    }
}

/// The dissector that works `j` layers behind the one that gets `h`, where the
/// chain gets that far within `k` layers.
pub open spec fn stop_behind(
    bytes: Seq<u8>,
    h: Handoff,
    k: nat,
    m: Model,
    j: nat,
) -> Option<Stop>
    decreases j,
{
    if k == 0 {
        None
    } else if j == 0 {
        stop_at(bytes, h, m)
    } else {
        match stop_at(bytes, h, m) {
            None => None,
            Some(s) => match layer_of(s.proto, s.bytes, s.found) {
                (after, None) => match after.next {
                    Some(next) => stop_behind(
                        bytes,
                        next,
                        (k - 1) as nat,
                        after.next_taken(),
                        (j - 1) as nat,
                    ),
                    None => None,
                },
                _ => None,
            },
        }
    }
}

proof fn stops_keep(bytes: Seq<u8>, h: Handoff, k: nat, m: Model, j: nat)
    requires
        sound(m, bytes.len() as int),
        h.offset <= room(m.extra, bytes.len() as int, h.source),
        m.extra.len() + k < 255,
    ensures
        stop_behind(bytes, h, k, m, j) matches Some(s) ==> ({
            let (after, e) = layer_of(s.proto, s.bytes, s.found);
            &&& m.count() <= s.found.count()
            &&& e is None ==> s.found.count() <= after.count() && keeps(
                after,
                chain(bytes, h, k, m),
            )
        }),
    decreases j,
{
    let n = bytes.len() as int;
    if k > 0 {
        if let Some(s) = stop_at(bytes, h, m) {
            let owned = source_of(bytes, m.extra, h.source)->0;
            let before = s.found;
            assert(owned.len() == room(m.extra, n, h.source));
            assert(ready(s.bytes, before, n) && sound(before, n) && before.source == h.source
                && before.extra == m.extra && before.count() == m.count()) by {
                reveal(Model::in_source);
                reveal(Model::with_base);
            }
            layer_grows(h.proto, s.bytes, before, n);
            let (after, e) = layer_of(h.proto, s.bytes, before);
            growing_stays_sound(before, after, n);
            if e is None {
                let taken = after.next_taken();
                assert(sound(taken, n) && taken.extra == after.extra && keeps(after, taken)) by {
                    reveal(Model::next_taken);
                }
                if let Some(next) = after.next {
                    let rest = chain(bytes, next, (k - 1) as nat, taken);
                    chain_stays_sound(bytes, next, (k - 1) as nat, taken);
                    keeps_on(after, taken, rest);
                    assert(chain(bytes, h, k, m) == rest);
                    if j > 0 {
                        stops_keep(bytes, next, (k - 1) as nat, taken, (j - 1) as nat);
                    }
                } else {
                    assert(chain(bytes, h, k, m) == taken);
                }
            }
        }
    }
}

/// The frame as the first dissector finds it.
pub open spec fn opened(
    link_type: LinkType,
    number: u32,
    ts: Timestamp,
    orig_len: u32,
    bytes: Seq<u8>,
    state: StateView,
    options: Options,
) -> Model {
    frame_rows(
        untouched(link_type, number, ts, state, options),
        number,
        ts,
        bytes.len() as int,
        orig_len,
        link_type,
    ).leaf("frame.protocols"@, 0, 0, ValueView::Str(""@)).end()
}

/// The dissector at work `j` layers into a frame.
pub open spec fn stop_in(
    link_type: LinkType,
    number: u32,
    ts: Timestamp,
    orig_len: u32,
    bytes: Seq<u8>,
    state: StateView,
    options: Options,
    j: nat,
) -> Option<Stop> {
    stop_behind(
        bytes,
        Handoff { proto: first_proto(link_type), source: 0, offset: 0, len: None },
        MAX_LAYERS as nat,
        opened(link_type, number, ts, orig_len, bytes, state, options),
        j,
    )
}

/// The fields that a layer writes stay what they are in the frame: nothing
/// that is dissected later changes, moves or removes them.
pub proof fn layers_stay_in_the_frame(
    link_type: LinkType,
    number: u32,
    ts: Timestamp,
    orig_len: u32,
    bytes: Seq<u8>,
    state: StateView,
    options: Options,
    j: nat,
)
    requires
        tidy(state.reassembly),
        stop_in(link_type, number, ts, orig_len, bytes, state, options, j) matches Some(s)
            && layer_of(s.proto, s.bytes, s.found).1 is None,
    ensures
        ({
            let s = stop_in(link_type, number, ts, orig_len, bytes, state, options, j)->0;
            let after = layer_of(s.proto, s.bytes, s.found).0;
            let m = dissected(link_type, number, ts, orig_len, bytes, state, options);
            &&& s.found.count() <= after.count() <= m.count()
            &&& written(m, s.found.count()).take(after.count() - s.found.count()) == written(
                after,
                s.found.count(),
            )
        }),
{
    frame_names();
    let n = bytes.len() as int;
    let start = untouched(link_type, number, ts, state, options);
    let head = frame_rows(start, number, ts, n, orig_len, link_type);
    let open = opened(link_type, number, ts, orig_len, bytes, state, options);
    assert(sound(start, n));
    nothing_written(start, n);
    assert(within(start, open, n)) by {
        broadcast use keeping_inside;

    }
    within_grows(start, open, n);
    growing_stays_sound(start, open, n);
    assert(open.extra.len() == 0) by {
        reveal(within);
    }
    let first = Handoff { proto: first_proto(link_type), source: 0, offset: 0, len: None };
    let chained = chain(bytes, first, MAX_LAYERS as nat, open);
    chain_stays_sound(bytes, first, MAX_LAYERS as nat, open);
    stops_keep(bytes, first, MAX_LAYERS as nat, open, j);
    tail_stays_sound(bytes, open.count(), chained);
    let whole = with_tail(bytes, open.count(), chained);
    let s = stop_in(link_type, number, ts, orig_len, bytes, state, options, j)->0;
    let after = layer_of(s.proto, s.bytes, s.found).0;
    keeps_on(after, chained, whole);
    let m = dissected(link_type, number, ts, orig_len, bytes, state, options);
    assert(head.count() < open.count()) by {
        broadcast use writing;

    }
    let lo = s.found.count();
    assert forall|i: int| lo <= i < after.count() implies field(#[trigger] m.trace.rows[i])
        == field(after.trace.rows[i]) by {
        reveal(Model::set_value);
        reveal(Model::named);
        assert(field(whole.trace.rows[i]) == field(after.trace.rows[i]));
    }
    assert(m.count() == whole.count()) by {
        reveal(Model::set_value);
        reveal(Model::named);
    }
    assert(written(m, lo).take(after.count() - lo) =~= written(after, lo));
}

/// A frame that is kept shows the rows as they were dissected: the same names
/// over the same bytes, with the same values where these are no strings.
pub proof fn kept_frames_show_what_was_dissected(
    link_type: LinkType,
    number: u32,
    raw: RawView,
    state: StateView,
    options: Options,
    f: FrameView,
    after: StateView,
    i: int,
)
    requires
        tidy(state.reassembly),
        ({
            let m = dissected(
                link_type,
                number,
                raw.ts,
                raw.orig_len,
                raw.bytes,
                state,
                options,
            );
            &&& frame_from(m, number, raw, f, after)
            &&& 0 <= i < m.count()
            &&& 0 <= m.trace.rows[i].start <= m.trace.rows[i].end <= 0xffff_ffff
            &&& m.trace.rows[i].value !is Str
            &&& m.trace.rows[i].value !is Ipv6
        }),
    ensures
        field(f.rows[i]) == field(
            dissected(
                link_type,
                number,
                raw.ts,
                raw.orig_len,
                raw.bytes,
                state,
                options,
            ).trace.rows[i],
        ),
{
    let m = dissected(link_type, number, raw.ts, raw.orig_len, raw.bytes, state, options);
    crate::dissect::ranges::frame::dissecting_stays_sound(
        link_type,
        number,
        raw.ts,
        raw.orig_len,
        raw.bytes,
        state,
        options,
    );
    assert(stands_for(f.rows[i], m.trace.rows[i]));
    assert(known(m.trace.rows[i].abbrev));
    reveal(known);
}

/// What is known of a frame before any layer is read: its number, its time to
/// the nanosecond, its length on the wire, how much of it was captured, and
/// the link type.
pub proof fn frames_show_how_they_were_captured(
    link_type: LinkType,
    number: u32,
    ts: Timestamp,
    orig_len: u32,
    bytes: Seq<u8>,
    state: StateView,
    options: Options,
)
    requires
        0 <= link_type.0,
        bytes.len() <= u64::MAX,
    ensures
        ({
            let at = |name: Seq<char>, value: ValueView|
                Field { abbrev: name, source: 0, start: 0, end: 0, value };
            written(opened(link_type, number, ts, orig_len, bytes, state, options), 0) == seq![
                Field {
                    abbrev: "frame"@,
                    source: 0,
                    start: 0,
                    end: bytes.len() as int,
                    value: ValueView::Empty,
                },
                at("frame.number"@, ValueView::Unsigned(number as u64)),
                at(
                    "frame.time_epoch"@,
                    ValueView::Str(
                        signed(ts.secs as int) + "."@ + padded(dec(ts.nanos as int), 9),
                    ),
                ),
                at("frame.len"@, ValueView::Unsigned(orig_len as u64)),
                at("frame.cap_len"@, ValueView::Unsigned(bytes.len() as u64)),
                at("frame.encap_type"@, ValueView::Unsigned(link_type.0 as u64)),
                at("frame.protocols"@, ValueView::Str(""@)),
            ]
        }),
{
    broadcast use writing;

    let start = untouched(link_type, number, ts, state, options);
    assert(written(start, 0) =~= Seq::empty());
    let at = |name: Seq<char>, value: ValueView|
        Field { abbrev: name, source: 0, start: 0, end: 0, value };
    assert(written(opened(link_type, number, ts, orig_len, bytes, state, options), 0) =~= seq![
        Field {
            abbrev: "frame"@,
            source: 0,
            start: 0,
            end: bytes.len() as int,
            value: ValueView::Empty,
        },
        at("frame.number"@, ValueView::Unsigned(number as u64)),
        at(
            "frame.time_epoch"@,
            ValueView::Str(signed(ts.secs as int) + "."@ + padded(dec(ts.nanos as int), 9)),
        ),
        at("frame.len"@, ValueView::Unsigned(orig_len as u64)),
        at("frame.cap_len"@, ValueView::Unsigned(bytes.len() as u64)),
        at("frame.encap_type"@, ValueView::Unsigned(link_type.0 as u64)),
        at("frame.protocols"@, ValueView::Str(""@)),
    ]);
}

/// The link type of a capture decides which dissector comes first.
pub proof fn link_types_decide_the_first_layer()
    ensures
        first_proto(LinkType(1)) == Proto::Ethernet,
        first_proto(LinkType(0)) == Proto::Null,
        first_proto(LinkType(108)) == Proto::Null,
        first_proto(LinkType(12)) == Proto::Ipv4,
        first_proto(LinkType(228)) == Proto::Ipv4,
        first_proto(LinkType(229)) == Proto::Ipv6,
        forall|n: i32|
            n != 0 && n != 1 && n != 12 && n != 108 && n != 228 && n != 229 ==> #[trigger]
                first_proto(LinkType(n)) == Proto::Data,
{
}

} // verus!

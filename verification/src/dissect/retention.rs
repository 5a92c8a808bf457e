//! What is remembered from frame to frame, for how long, and what goes first.

use vstd::prelude::*;

use super::reassembly::{
    absorbed, added, fresh, lemma_oldest, nothing_pending, oldest, overlaid, roomy, FragKeyView,
    PendingView, ReassemblyView,
};
use super::stream::desegment::{held_from, kept, prefix_for, HeldView, Origin, PrefixView};
use super::stream::table::{empty_table, looked_up, seen_since, with_room, SlotView, TableView};
use super::stream::{Direction, EndView};
use crate::capture::Timestamp;

verus! {

// ---- fragments ------------------------------------------------------------------

/// Where fragments overlap, the one that came last is what counts; bytes that
/// none has brought are zero until one does.
pub proof fn the_last_fragment_wins(
    buf: Seq<u8>,
    first: int,
    a: Seq<u8>,
    second: int,
    b: Seq<u8>,
    i: int,
)
    requires
        0 <= first,
        0 <= second,
        0 <= i,
    ensures
        ({
            let both = overlaid(overlaid(buf, first, a), second, b);
            &&& second <= i < second + b.len() ==> i < both.len() && both[i] == b[i - second]
            &&& !(second <= i < second + b.len()) && first <= i < first + a.len() ==> i
                < both.len() && both[i] == a[i - first]
            &&& !(second <= i < second + b.len()) && !(first <= i < first + a.len()) && i
                < buf.len() ==> both[i] == buf[i]
            &&& !(second <= i < second + b.len()) && !(first <= i < first + a.len()) && buf.len()
                <= i < both.len() ==> both[i] == 0
        }),
{
}

/// A datagram is forgotten once no fragment of it has come for longer than the
/// timeout, and no sooner.
pub proof fn idle_datagrams_are_forgotten(s: Seq<PendingView>, limit: int, p: PendingView)
    ensures
        fresh(s, limit).contains(p) <==> s.contains(p) && p.last_seen.secs >= limit,
    decreases s.len(),
{
    if s.len() > 0 {
        let rest = s.drop_last();
        idle_datagrams_are_forgotten(rest, limit, p);
        let kept = fresh(rest, limit);
        if s.contains(p) {
            let i = choose|i: int| 0 <= i < s.len() && s[i] == p;
            if i < rest.len() {
                assert(rest[i] == p);
            }
        }
        if rest.contains(p) {
            let i = choose|i: int| 0 <= i < rest.len() && rest[i] == p;
            assert(s[i] == p);
        }
        assert(s[s.len() - 1] == s.last());
        if s.last().last_seen.secs >= limit {
            let now = kept.push(s.last());
            assert(now[kept.len() as int] == s.last());
            if kept.contains(p) {
                let i = choose|i: int| 0 <= i < kept.len() && kept[i] == p;
                assert(now[i] == p);
            }
            if now.contains(p) {
                let i = choose|i: int| 0 <= i < now.len() && now[i] == p;
                if i < kept.len() {
                    assert(kept[i] == p);
                }
            }
        }
    }
}

/// What makes room is a datagram that no other was seen before.
pub proof fn the_oldest_datagram_makes_room(s: Seq<PendingView>, k: int)
    requires
        0 <= k < s.len(),
    ensures
        0 <= oldest(s) < s.len(),
        !s[k].first_seen.earlier_than(s[oldest(s)].first_seen),
    decreases s.len(),
{
    lemma_oldest(s);
    if s.len() > 1 {
        let rest = s.drop_last();
        lemma_oldest(rest);
        if k < rest.len() {
            the_oldest_datagram_makes_room(rest, k);
        } else {
            the_oldest_datagram_makes_room(rest, oldest(rest));
        }
    }
}

/// Room is made for one more, by dropping the oldest alone and only as long
/// as there is none.
pub proof fn room_is_made_for_one_more(s: Seq<PendingView>, max: int)
    requires
        max > 0,
    ensures
        roomy(s, max).len() < max,
        s.len() < max ==> roomy(s, max) == s,
        s.len() == max ==> roomy(s, max) == s.remove(oldest(s)),
    decreases s.len(),
{
    if s.len() >= max {
        lemma_oldest(s);
        room_is_made_for_one_more(s.remove(oldest(s)), max);
    }
}

/// A fragment that says the datagram ends elsewhere than another said, or that
/// reaches past the end another gave, is refused, and the datagram is dropped.
pub proof fn contradicting_fragments_are_refused(
    r: ReassemblyView,
    i: int,
    offset: usize,
    more: bool,
    payload: Seq<u8>,
    frame: u32,
    ts: Timestamp,
)
    requires
        0 <= i < r.pending.len(),
        r.pending[i].total is Some,
        offset + payload.len() <= usize::MAX,
        !more && offset + payload.len() != r.pending[i].total->0 || offset + payload.len()
            > r.pending[i].total->0,
    ensures
        ({
            let (after, result) = absorbed(r, i, offset, more, payload, frame, ts);
            &&& result is Rejected
            &&& after.pending == r.pending.remove(i)
        }),
{
}

/// No datagram is longer than IPv4 can say, at most a thousand and twenty-four
/// are put together at a time, and each is waited for half a minute.
pub proof fn limits_of_reassembly()
    ensures
        nothing_pending().pending.len() == 0,
        nothing_pending().max_datagram == 0xffff,
        nothing_pending().max_pending == 1024,
        nothing_pending().timeout_secs == 30,
{
}

/// A fragment that reaches past the longest datagram is refused, and nothing
/// is kept of it.
pub proof fn oversized_fragments_are_refused(
    r: ReassemblyView,
    key: FragKeyView,
    offset: usize,
    more: bool,
    payload: Seq<u8>,
    frame: u32,
    ts: Timestamp,
    p: PendingView,
)
    requires
        offset + payload.len() > r.max_datagram,
    ensures
        ({
            let (after, result) = added(r, key, offset, more, payload, frame, ts);
            &&& result is Rejected
            &&& after.pending.contains(p) ==> r.pending.contains(p)
        }),
{
    idle_datagrams_are_forgotten(r.pending, ts.secs - r.timeout_secs, p);
}

// ---- conversations --------------------------------------------------------------

/// Those seen since are exactly those last seen at the limit or later.
pub proof fn recent_conversations_stay(s: Seq<SlotView>, limit: int, p: SlotView)
    ensures
        seen_since(s, limit).contains(p) <==> s.contains(p) && p.last_seen.secs >= limit,
    decreases s.len(),
{
    if s.len() > 0 {
        let rest = s.drop_last();
        recent_conversations_stay(rest, limit, p);
        let kept = seen_since(rest, limit);
        if s.contains(p) {
            let i = choose|i: int| 0 <= i < s.len() && s[i] == p;
            if i < rest.len() {
                assert(rest[i] == p);
            }
        }
        if rest.contains(p) {
            let i = choose|i: int| 0 <= i < rest.len() && rest[i] == p;
            assert(s[i] == p);
        }
        assert(s[s.len() - 1] == s.last());
        if s.last().last_seen.secs >= limit {
            let now = kept.push(s.last());
            assert(now[kept.len() as int] == s.last());
            if kept.contains(p) {
                let i = choose|i: int| 0 <= i < kept.len() && kept[i] == p;
                assert(now[i] == p);
            }
            if now.contains(p) {
                let i = choose|i: int| 0 <= i < now.len() && now[i] == p;
                if i < kept.len() {
                    assert(kept[i] == p);
                }
            }
        }
    }
}

/// Room is never made at the cost of a conversation seen later than one that
/// stays.
pub proof fn the_idlest_conversations_go(
    t: TableView,
    now: Timestamp,
    gone: SlotView,
    stays: SlotView,
)
    requires
        t.slots.contains(gone),
        !with_room(t, now).contains(gone),
        with_room(t, now).contains(stays),
    ensures
        gone.last_seen.secs < stays.last_seen.secs,
        t.slots.contains(stays),
{
    let limit = now.secs - t.idle_timeout_secs;
    let awake = seen_since(t.slots, limit);
    recent_conversations_stay(t.slots, limit, gone);
    recent_conversations_stay(t.slots, limit, stays);
    let k = super::stream::table::time_in_place(awake, awake.len() as int / 10) + 1;
    recent_conversations_stay(awake, k, gone);
    recent_conversations_stay(awake, k, stays);
}

/// A frame that starts a connection gets an id that no frame had yet and runs
/// forward, whatever was known of its ends.
pub proof fn connections_get_ids_in_turn(
    t: TableView,
    src: EndView,
    dst: EndView,
    proto: u8,
    now: Timestamp,
)
    ensures
        ({
            let (after, look) = looked_up(t, src, dst, proto, now, true);
            &&& look.id == t.next_id
            &&& look.first
            &&& look.direction == Direction::Forward
            &&& t.next_id < u32::MAX ==> after.next_id == t.next_id + 1
        }),
{
}

/// The table starts empty, with ids from zero; it holds two hundred thousand
/// conversations, and one is idle after five minutes.
pub proof fn limits_of_the_stream_table()
    ensures
        empty_table().slots.len() == 0,
        empty_table().next_id == 0,
        empty_table().max_streams == 200_000,
        empty_table().idle_timeout_secs == 300,
{
}

// ---- bytes held back ------------------------------------------------------------

/// Bytes held for a direction come back in front of its next payload within a
/// minute, and not after it.
pub proof fn held_bytes_come_back_within_a_minute(
    h: Seq<HeldView>,
    stream: u32,
    d: Direction,
    payload: Seq<u8>,
    now: Timestamp,
)
    ensures
        held_from(h, stream, d, 0) matches Some(i) ==> ({
            let got = prefix_for(h, stream, d, payload, now);
            &&& now.secs - h[i].last_seen.secs <= 60 ==> (got matches PrefixView::Combined {
                bytes,
                origin,
            } && bytes == h[i].bytes + payload && origin.first_frame == h[i].origin.first_frame
                && origin.proto == h[i].origin.proto)
            &&& now.secs - h[i].last_seen.secs > 60 ==> got is Nothing
        }),
        held_from(h, stream, d, 0) is None ==> prefix_for(h, stream, d, payload, now) is Nothing,
{
}

/// A megabyte can be held for a direction, and no more; nothing is not held.
pub proof fn what_can_be_held(
    h: Seq<HeldView>,
    stream: u32,
    d: Direction,
    bytes: Seq<u8>,
    origin: Origin,
    now: Timestamp,
)
    ensures
        bytes.len() == 0 || bytes.len() > 0x10_0000 ==> !kept(h, stream, d, bytes, origin, now).1
            && kept(h, stream, d, bytes, origin, now).0 == h,
        0 < bytes.len() <= 0x10_0000 && h.len() < 4096 ==> kept(
            h,
            stream,
            d,
            bytes,
            origin,
            now,
        ).1,
{
}

} // verus!

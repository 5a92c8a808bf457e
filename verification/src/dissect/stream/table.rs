//! The stream id table: 5-tuple to stable id, plus the per-conversation TCP
//! sequence state.
//!
//! One table, not two: the ids must survive for the whole capture while the
//! analysis only matters while a conversation is live, but two tables would
//! mean two caps and two eviction policies that can disagree about whether a
//! stream exists.

use vstd::prelude::*;

use crate::capture::Timestamp;

use super::tcp::{
    after_segment, findings, no_findings, no_history, Analysis, AnalysisView, Findings, Segment,
};
use super::{endpoints_are_ordered, EndView, Endpoint};

verus! {

/// A conversation, keyed so both directions land on the same entry.
#[derive(Debug, Clone, Copy, PartialEq, Eq, Hash)]
pub struct StreamKey {
    lo: Endpoint,
    hi: Endpoint,
    proto: u8,
}

/// What a key stands for.
pub struct KeyView {
    pub lo: EndView,
    pub hi: EndView,
    pub proto: u8,
}

impl View for StreamKey {
    type V = KeyView;

    closed spec fn view(&self) -> KeyView {
        KeyView { lo: self.lo@, hi: self.hi@, proto: self.proto }
    }
}

/// The key of a conversation between `a` and `b`: the endpoints sorted.
pub open spec fn key_of(a: EndView, b: EndView, proto: u8) -> KeyView {
    if b.before(a) {
        KeyView { lo: b, hi: a, proto }
    } else {
        KeyView { lo: a, hi: b, proto }
    }
}

/// A to B and B to A have the same key.
pub proof fn key_is_symmetric(a: EndView, b: EndView, proto: u8)
    requires
        a.addr.len() == 16,
        b.addr.len() == 16,
    ensures
        key_of(a, b, proto) == key_of(b, a, proto),
{
    endpoints_are_ordered(a, b);
}

/// Which way round a frame runs relative to the stream's first frame.
#[derive(Debug, Clone, Copy, PartialEq, Eq, Structural)]
pub enum Direction {
    /// Source is the endpoint that sent the stream's first frame.
    Forward,
    Reverse,
}

impl StreamKey {
    /// Canonical key: endpoints sorted, so both directions agree.
    pub fn new(a: Endpoint, b: Endpoint, proto: u8) -> (r: StreamKey)
        ensures
            r@ == key_of(a@, b@, proto),
    {
        if b.is_before(&a) {
            StreamKey { lo: b, hi: a, proto }
        } else {
            StreamKey { lo: a, hi: b, proto }
        }
    }

    pub fn proto(&self) -> (r: u8)
        ensures
            r == self@.proto,
    {
        self.proto
    }

    pub fn endpoints(&self) -> (r: (Endpoint, Endpoint))
        ensures
            r.0@ == self@.lo,
            r.1@ == self@.hi,
    {
        (self.lo, self.hi)
    }

    fn is_same(&self, other: &StreamKey) -> (r: bool)
        ensures
            r == (self@ == other@),
    {
        self.lo.is_same(&other.lo) && self.hi.is_same(&other.hi) && self.proto == other.proto
    }
}

/// What a lookup tells the dissector. Carries the key so a follow-up call
/// can reach the same entry without rebuilding it.
#[derive(Debug, Clone, Copy, PartialEq, Eq)]
pub struct Lookup {
    pub id: u32,
    pub direction: Direction,
    /// True when this frame created the stream.
    pub first: bool,
    pub key: StreamKey,
}

/// What a lookup tells.
pub struct LookupView {
    pub id: u32,
    pub direction: Direction,
    pub first: bool,
    pub key: KeyView,
}

impl View for Lookup {
    type V = LookupView;

    open spec fn view(&self) -> LookupView {
        LookupView { id: self.id, direction: self.direction, first: self.first, key: self.key@ }
    }
}

#[derive(Debug, Clone, Copy)]
struct Slot {
    key: StreamKey,
    id: u32,
    /// The source endpoint of the frame that created the stream; a frame
    /// whose source matches runs in the forward direction.
    origin: Endpoint,
    last_seen: Timestamp,
    /// TCP sequence state. Unused for UDP.
    analysis: Analysis,
}

/// One conversation in the table.
#[verifier::ext_equal]
pub struct SlotView {
    pub key: KeyView,
    pub id: u32,
    pub origin: EndView,
    pub last_seen: Timestamp,
    pub analysis: AnalysisView,
}

impl Slot {
    spec fn shown(self) -> SlotView {
        SlotView {
            key: self.key@,
            id: self.id,
            origin: self.origin@,
            last_seen: self.last_seen,
            analysis: self.analysis@,
        }
    }
}

/// The conversations of a table.
#[derive(Debug)]
pub struct Slots {
    list: Vec<Slot>,
}

/// The ids of a table, handed out one after the other.
#[derive(Debug)]
pub struct Ids {
    next: u32,
}

impl Ids {
    /// The id that the next new conversation gets.
    pub closed spec fn upcoming(self) -> u32 {
        self.next
    }
}

/// What slots stand for.
spec fn all_shown(v: Seq<Slot>) -> Seq<SlotView> {
    v.map_values(|s: Slot| s.shown())
}

/// No conversation is held twice, and each was begun by one of its endpoints.
pub open spec fn orderly(slots: Seq<SlotView>) -> bool {
    &&& forall|i: int, j: int|
        0 <= i < j < slots.len() ==> (#[trigger] slots[i]).key != (#[trigger] slots[j]).key
    &&& forall|i: int|
        0 <= i < slots.len() ==> (#[trigger] slots[i]).origin == slots[i].key.lo
            || slots[i].origin == slots[i].key.hi
}

impl Slots {
    #[verifier::type_invariant]
    spec fn inv(self) -> bool {
        orderly(all_shown(self.list@))
    }

    /// The conversations held, in the order they were first seen.
    pub closed spec fn held(self) -> Seq<SlotView> {
        all_shown(self.list@)
    }

    fn set(&mut self, i: usize, slot: Slot)
        requires
            i < old(self).held().len(),
            slot.shown().key == old(self).held()[i as int].key,
            slot.origin@ == slot.key@.lo || slot.origin@ == slot.key@.hi,
        ensures
            final(self).held() == old(self).held().update(i as int, slot.shown()),
    {
        proof {
            use_type_invariant(&*self);
        }
        let mut list: Vec<Slot> = Vec::new();
        std::mem::swap(&mut list, &mut self.list);
        list[i] = slot;
        assert(all_shown(list@) =~= old(self).held().update(i as int, slot.shown()));
        self.list = list;
    }

    fn push(&mut self, slot: Slot)
        requires
            forall|j: int|
                0 <= j < old(self).held().len() ==> (#[trigger] old(self).held()[j]).key
                    != slot.key@,
            slot.origin@ == slot.key@.lo || slot.origin@ == slot.key@.hi,
        ensures
            final(self).held() == old(self).held().push(slot.shown()),
    {
        proof {
            use_type_invariant(&*self);
        }
        let mut list: Vec<Slot> = Vec::new();
        std::mem::swap(&mut list, &mut self.list);
        list.push(slot);
        assert(all_shown(list@) =~= old(self).held().push(slot.shown()));
        self.list = list;
    }
}

/// Ids and liveness for every conversation seen.
#[derive(Debug)]
pub struct StreamTable {
    pub slots: Slots,
    pub ids: Ids,
    /// Beyond this many conversations, the least recently seen are dropped.
    /// A dropped conversation that reappears is given a new id, which is
    /// wrong but bounded.
    pub max_streams: usize,
    /// Conversations idle for longer than this are dropped first.
    pub idle_timeout_secs: i64,
}

/// The conversations held, in the order they were first seen, and the limits.
#[verifier::ext_equal]
pub struct TableView {
    pub slots: Seq<SlotView>,
    pub next_id: u32,
    pub max_streams: usize,
    pub idle_timeout_secs: i64,
}

impl View for StreamTable {
    type V = TableView;

    open spec fn view(&self) -> TableView {
        TableView {
            slots: self.slots.held(),
            next_id: self.ids.upcoming(),
            max_streams: self.max_streams,
            idle_timeout_secs: self.idle_timeout_secs,
        }
    }
}

/// A table that has seen nothing.
pub open spec fn empty_table() -> TableView {
    TableView {
        slots: Seq::empty(),
        next_id: 0,
        max_streams: 200_000,
        idle_timeout_secs: 300,
    }
}

/// The position of the conversation with `key`, from `i` on.
pub open spec fn slot_from(slots: Seq<SlotView>, key: KeyView, i: int) -> Option<int>
    decreases slots.len() - i,
{
    if i < 0 || i >= slots.len() {
        None
    } else if slots[i].key == key {
        Some(i)
    } else {
        slot_from(slots, key, i + 1)
    }
}

/// The id after `id`.
pub open spec fn id_after(id: u32) -> u32 {
    if id < u32::MAX {
        (id + 1) as u32
    } else {
        0
    }
}

/// The conversations last seen at `limit` or later.
pub open spec fn seen_since(slots: Seq<SlotView>, limit: int) -> Seq<SlotView>
    decreases slots.len(),
{
    if slots.len() == 0 {
        Seq::empty()
    } else if slots.last().last_seen.secs >= limit {
        seen_since(slots.drop_last(), limit).push(slots.last())
    } else {
        seen_since(slots.drop_last(), limit)
    }
}

/// How many conversations were last seen before `limit`.
pub open spec fn older_than(slots: Seq<SlotView>, limit: int) -> int {
    slots.len() - seen_since(slots, limit).len()
}

/// `t` is the last-seen time in place `k` when they are put in order.
pub open spec fn in_place(slots: Seq<SlotView>, k: int, t: int) -> bool {
    older_than(slots, t) <= k < older_than(slots, t + 1)
}

/// The last-seen time in place `k`.
pub open spec fn time_in_place(slots: Seq<SlotView>, k: int) -> int {
    choose|t: int| in_place(slots, k, t)
}

/// What is left once room has been made: nothing is dropped below the limit;
/// else the idle go, and if that is not enough the oldest tenth goes too.
pub open spec fn with_room(t: TableView, now: Timestamp) -> Seq<SlotView> {
    let awake = seen_since(t.slots, now.secs - t.idle_timeout_secs);
    if t.slots.len() < t.max_streams {
        t.slots
    } else if awake.len() < t.max_streams || awake.len() == 0 {
        awake
    } else {
        seen_since(awake, time_in_place(awake, awake.len() as int / 10) + 1)
    }
}

/// A conversation just begun.
pub open spec fn begun(key: KeyView, id: u32, origin: EndView, now: Timestamp) -> SlotView {
    SlotView { key, id, origin, last_seen: now, analysis: no_history() }
}

/// The table after a lookup, and what it tells. A frame that starts a
/// connection begins a new stream even on a 5-tuple seen before; any other
/// frame joins the stream of its 5-tuple if there is one.
pub open spec fn looked_up(
    t: TableView,
    src: EndView,
    dst: EndView,
    proto: u8,
    now: Timestamp,
    fresh: bool,
) -> (TableView, LookupView) {
    let key = key_of(src, dst, proto);
    let started = LookupView { id: t.next_id, direction: Direction::Forward, first: true, key };
    match slot_from(t.slots, key, 0) {
        Some(i) => if fresh {
            (
                TableView {
                    slots: t.slots.update(i, begun(key, t.next_id, src, now)),
                    next_id: id_after(t.next_id),
                    ..t
                },
                started,
            )
        } else {
            (
                TableView {
                    slots: t.slots.update(i, SlotView { last_seen: now, ..t.slots[i] }),
                    ..t
                },
                LookupView {
                    id: t.slots[i].id,
                    direction: if t.slots[i].origin == src {
                        Direction::Forward
                    } else {
                        Direction::Reverse
                    },
                    first: false,
                    key,
                },
            )
        },
        None => (
            TableView {
                slots: with_room(t, now).push(begun(key, t.next_id, src, now)),
                next_id: id_after(t.next_id),
                ..t
            },
            started,
        ),
    }
}

/// The table after a segment was folded into the conversation with `key`.
pub open spec fn analysed(t: TableView, key: KeyView, d: Direction, seg: Segment) -> TableView {
    match slot_from(t.slots, key, 0) {
        Some(i) => TableView {
            slots: t.slots.update(
                i,
                SlotView {
                    analysis: after_segment(t.slots[i].analysis, d, seg),
                    ..t.slots[i]
                },
            ),
            ..t
        },
        None => t,
    }
}

/// What the analyser makes of a segment of the conversation with `key`.
pub open spec fn analysis_findings(
    t: TableView,
    key: KeyView,
    d: Direction,
    seg: Segment,
) -> Findings {
    match slot_from(t.slots, key, 0) {
        Some(i) => findings(t.slots[i].analysis.dir(d), t.slots[i].analysis.facing(d), seg),
        None => no_findings(),
    }
}

impl Default for StreamTable {
    fn default() -> (r: StreamTable)
        ensures
            r@ == empty_table(),
    {
        StreamTable::new()
    }
}

impl StreamTable {
    pub fn new() -> (r: StreamTable)
        ensures
            r@ == empty_table(),
    {
        assert(all_shown(Seq::empty()) =~= Seq::empty());
        let r = StreamTable {
            slots: Slots { list: Vec::new() },
            ids: Ids { next: 0 },
            max_streams: 200_000,
            idle_timeout_secs: 300,
        };
        assert(r@.slots =~= Seq::empty());
        r
    }

    pub fn len(&self) -> (r: usize)
        ensures
            r == self@.slots.len(),
    {
        self.slots.list.len()
    }

    pub fn is_empty(&self) -> (r: bool)
        ensures
            r == (self@.slots.len() == 0),
    {
        self.slots.list.len() == 0
    }

    /// Ids handed out so far, which is also the id the next new stream gets.
    pub fn next_id(&self) -> (r: u32)
        ensures
            r == self@.next_id,
    {
        self.ids.next
    }

    fn position(&self, key: &StreamKey) -> (r: Option<usize>)
        ensures
            match r {
                Some(i) => i < self.slots.list@.len() && slot_from(self@.slots, key@, 0) == Some(
                    i as int,
                ),
                None => slot_from(self@.slots, key@, 0) is None,
            },
    {
        let mut i: usize = 0;
        while i < self.slots.list.len()
            invariant
                i <= self.slots.list@.len(),
                self@.slots.len() == self.slots.list@.len(),
                slot_from(self@.slots, key@, 0) == slot_from(self@.slots, key@, i as int),
            decreases self.slots.list.len() - i,
        {
            assert(self@.slots[i as int] == self.slots.list@[i as int].shown());
            if self.slots.list[i].key.is_same(key) {
                return Some(i);
            }
            i += 1;
        }
        None
    }

    fn take_id(&mut self) -> (id: u32)
        ensures
            id == old(self)@.next_id,
            final(self)@ == (TableView { next_id: id_after(old(self)@.next_id), ..old(self)@ }),
            final(self).slots == old(self).slots,
    {
        let id: u32 = self.ids.next;
        self.ids = Ids { next: id.wrapping_add(1) };
        id
    }

    fn set_slot(&mut self, i: usize, slot: Slot)
        requires
            i < old(self)@.slots.len(),
            slot.shown().key == old(self)@.slots[i as int].key,
            slot.origin@ == slot.key@.lo || slot.origin@ == slot.key@.hi,
        ensures
            final(self)@ == (TableView {
                slots: old(self)@.slots.update(i as int, slot.shown()),
                ..old(self)@
            }),
    {
        self.slots.set(i, slot);
    }

    /// The stream this frame belongs to, creating it if it is new.
    ///
    /// `fresh` says the frame starts a connection (a TCP SYN without ACK).
    /// Such a frame always begins a new stream even if the 5-tuple was seen
    /// before, because ports are reused and two connections between the same
    /// ports are two conversations, not one.
    pub fn lookup(
        &mut self,
        src: Endpoint,
        dst: Endpoint,
        proto: u8,
        now: Timestamp,
        fresh: bool,
    ) -> (r: Lookup)
        ensures
            (final(self)@, r@) == looked_up(old(self)@, src@, dst@, proto, now, fresh),
            orderly(old(self)@.slots),
            orderly(final(self)@.slots),
    {
        proof {
            use_type_invariant(&self.slots);
            lemma_lookup_orderly(self@, src@, dst@, proto, now, fresh);
        }
        let key = StreamKey::new(src, dst, proto);
        proof {
            lemma_slot(self@.slots, key@, 0);
        }
        match self.position(&key) {
            Some(i) => {
                assert(self@.slots[i as int] == self.slots.list@[i as int].shown());
                let slot: Slot = self.slots.list[i];
                if fresh {
                    // Port reuse: a new connection on an old 5-tuple.
                    let id: u32 = self.take_id();
                    self.set_slot(
                        i,
                        Slot {
                            key,
                            id,
                            origin: src,
                            last_seen: now,
                            analysis: Analysis::default(),
                        },
                    );
                    Lookup { id, direction: Direction::Forward, first: true, key }
                } else {
                    let direction: Direction = if slot.origin.is_same(&src) {
                        Direction::Forward
                    } else {
                        Direction::Reverse
                    };
                    self.set_slot(
                        i,
                        Slot {
                            key: slot.key,
                            id: slot.id,
                            origin: slot.origin,
                            last_seen: now,
                            analysis: slot.analysis,
                        },
                    );
                    Lookup { id: slot.id, direction, first: false, key }
                }
            },
            None => {
                proof {
                    lemma_absent_subset(self@, now, key@);
                }
                self.evict_if_full(now);
                let id: u32 = self.take_id();
                let slot = Slot {
                    key,
                    id,
                    origin: src,
                    last_seen: now,
                    analysis: Analysis::default(),
                };
                self.slots.push(slot);
                Lookup { id, direction: Direction::Forward, first: true, key }
            },
        }
    }

    /// Fold a segment into the conversation's TCP state and report what the
    /// analyser made of it. A stream that is not in the table is not analysed.
    pub fn analyse(&mut self, look: &Lookup, seg: &Segment) -> (r: Findings)
        ensures
            r == analysis_findings(old(self)@, look.key@, look.direction, *seg),
            final(self)@ == analysed(old(self)@, look.key@, look.direction, *seg),
            orderly(final(self)@.slots),
    {
        proof {
            use_type_invariant(&self.slots);
            lemma_slot(self@.slots, look.key@, 0);
        }
        match self.position(&look.key) {
            Some(i) => {
                assert(self@.slots[i as int] == self.slots.list@[i as int].shown());
                let mut slot: Slot = self.slots.list[i];
                let r: Findings = slot.analysis.observe(look.direction, seg);
                self.set_slot(i, slot);
                proof {
                    use_type_invariant(&self.slots);
                }
                r
            },
            None => Findings::default(),
        }
    }

    /// Read-only access to a conversation's TCP state.
    pub fn analysis(&self, key: &StreamKey) -> (r: Option<&Analysis>)
        ensures
            match r {
                Some(a) => slot_from(self@.slots, key@, 0) is Some && a@ == self@.slots[slot_from(
                    self@.slots,
                    key@,
                    0,
                )->Some_0].analysis,
                None => slot_from(self@.slots, key@, 0) is None,
            },
    {
        match self.position(key) {
            Some(i) => {
                assert(self@.slots[i as int] == self.slots.list@[i as int].shown());
                Some(&self.slots.list[i].analysis)
            },
            None => None,
        }
    }

    fn retain_since(&mut self, limit: i128)
        ensures
            final(self)@ == (TableView {
                slots: seen_since(old(self)@.slots, limit as int),
                ..old(self)@
            }),
    {
        let mut kept: Vec<Slot> = Vec::new();
        let mut i: usize = 0;
        assert(seen_since(self@.slots.take(0), limit as int) =~= Seq::empty());
        while i < self.slots.list.len()
            invariant
                i <= self.slots.list@.len(),
                self@.slots.len() == self.slots.list@.len(),
                self@.slots == all_shown(self.slots.list@),
                self@ == old(self)@,
                all_shown(kept@) == seen_since(
                    self@.slots.take(i as int),
                    limit as int,
                ),
            decreases self.slots.list.len() - i,
        {
            let slot: Slot = self.slots.list[i];
            assert(self@.slots.take(i + 1).drop_last() =~= self@.slots.take(i as int));
            let ghost before = kept@;
            if slot.last_seen.secs as i128 >= limit {
                kept.push(slot);
                assert(all_shown(kept@) =~= all_shown(before).push(slot.shown()));
            }
            i += 1;
        }
        assert(self@.slots.take(self@.slots.len() as int) =~= self@.slots);
        proof {
            use_type_invariant(&self.slots);
            lemma_seen_orderly(self@.slots, limit as int);
        }
        self.slots = Slots { list: kept };
    }

    fn count_before(&self, limit: i128) -> (r: usize)
        ensures
            r == older_than(self@.slots, limit as int),
            r <= self@.slots.len(),
    {
        let mut n: usize = 0;
        let mut i: usize = 0;
        assert(seen_since(self@.slots.take(0), limit as int) =~= Seq::empty());
        while i < self.slots.list.len()
            invariant
                i <= self.slots.list@.len(),
                n <= i,
                self@.slots == all_shown(self.slots.list@),
                n == older_than(self@.slots.take(i as int), limit as int),
            decreases self.slots.list.len() - i,
        {
            assert(self@.slots.take(i + 1).drop_last() =~= self@.slots.take(i as int));
            if (self.slots.list[i].last_seen.secs as i128) < limit {
                n += 1;
            }
            i += 1;
        }
        assert(self@.slots.take(self@.slots.len() as int) =~= self@.slots);
        n
    }

    /// The last-seen time in place `k` when they are put in order.
    fn nth_oldest(&self, k: usize) -> (r: i128)
        requires
            k < self@.slots.len(),
        ensures
            in_place(self@.slots, k as int, r as int),
            i64::MIN <= r <= i64::MAX,
    {
        let mut lo: i128 = i64::MIN as i128;
        let mut hi: i128 = i64::MAX as i128;
        proof {
            lemma_extremes(self@.slots);
        }
        while lo < hi
            invariant
                i64::MIN <= lo <= hi <= i64::MAX,
                older_than(self@.slots, lo as int) <= k < older_than(self@.slots, hi + 1),
            decreases hi - lo,
        {
            let mid: i128 = lo + (hi - lo) / 2;
            if self.count_before(mid + 1) > k {
                hi = mid;
            } else {
                lo = mid + 1;
            }
        }
        lo
    }

    /// Drop idle conversations, then the oldest, until there is room.
    fn evict_if_full(&mut self, now: Timestamp)
        ensures
            final(self)@ == (TableView { slots: with_room(old(self)@, now), ..old(self)@ }),
    {
        if self.slots.list.len() < self.max_streams {
            return;
        }
        let cutoff: i128 = now.secs as i128 - self.idle_timeout_secs as i128;
        self.retain_since(cutoff);
        if self.slots.list.len() < self.max_streams || self.slots.list.len() == 0 {
            return;
        }
        // Still full: drop the oldest tenth in one pass rather than one entry
        // per frame, which would rescan the table on every packet.
        let nth: usize = self.slots.list.len() / 10;
        let threshold: i128 = self.nth_oldest(nth);
        proof {
            let awake = self@.slots;
            let t = time_in_place(awake, awake.len() as int / 10);
            assert(in_place(awake, awake.len() as int / 10, threshold as int));
            lemma_place_unique(awake, awake.len() as int / 10, threshold as int, t);
        }
        self.retain_since(threshold + 1);
    }
}

proof fn lemma_extremes(slots: Seq<SlotView>)
    ensures
        older_than(slots, i64::MIN as int) == 0,
        older_than(slots, i64::MAX + 1) == slots.len(),
    decreases slots.len(),
{
    if slots.len() > 0 {
        lemma_extremes(slots.drop_last());
    }
}

proof fn lemma_older_grows(slots: Seq<SlotView>, a: int, b: int)
    requires
        a <= b,
    ensures
        0 <= older_than(slots, a) <= older_than(slots, b) <= slots.len(),
    decreases slots.len(),
{
    if slots.len() > 0 {
        lemma_older_grows(slots.drop_last(), a, b);
    }
}

proof fn lemma_place_unique(slots: Seq<SlotView>, k: int, s: int, t: int)
    requires
        in_place(slots, k, s),
        in_place(slots, k, t),
    ensures
        s == t,
{
    if s < t {
        lemma_older_grows(slots, s + 1, t);
    } else if t < s {
        lemma_older_grows(slots, t + 1, s);
    }
}

proof fn lemma_place_exists(slots: Seq<SlotView>, k: int, lo: int, hi: int) -> (t: int)
    requires
        lo <= hi,
        older_than(slots, lo) <= k < older_than(slots, hi + 1),
    ensures
        in_place(slots, k, t),
    decreases hi - lo,
{
    if lo == hi {
        lo
    } else {
        let mid = lo + (hi - lo) / 2;
        if older_than(slots, mid + 1) > k {
            lemma_place_exists(slots, k, lo, mid)
        } else {
            lemma_place_exists(slots, k, mid + 1, hi)
        }
    }
}

/// Making room never leaves the table full, so with a limit of at least one
/// the number of conversations held never exceeds it.
pub proof fn table_is_bounded(
    t: TableView,
    src: EndView,
    dst: EndView,
    proto: u8,
    now: Timestamp,
    fresh: bool,
)
    requires
        1 <= t.max_streams,
        t.slots.len() <= t.max_streams,
    ensures
        looked_up(t, src, dst, proto, now, fresh).0.slots.len() <= t.max_streams,
{
    let awake = seen_since(t.slots, now.secs - t.idle_timeout_secs);
    lemma_slot(t.slots, key_of(src, dst, proto), 0);
    lemma_older_grows(t.slots, now.secs - t.idle_timeout_secs, now.secs - t.idle_timeout_secs);
    if awake.len() >= t.max_streams {
        let k = awake.len() as int / 10;
        lemma_extremes(awake);
        let w = lemma_place_exists(awake, k, i64::MIN as int, i64::MAX as int);
        let s = time_in_place(awake, k);
        assert(in_place(awake, k, s));
        lemma_older_grows(awake, s, s + 1);
    }
}

/// Both directions are one stream: a further frame between the same ends joins
/// the stream of the one before, whichever way it runs, unless it starts a
/// connection. It runs the same way as a frame from the same end, and the
/// other way as one from the other end.
pub proof fn both_directions_are_one_stream(
    t: TableView,
    a: EndView,
    b: EndView,
    proto: u8,
    sent: Timestamp,
    answered: Timestamp,
    fresh: bool,
    back: bool,
)
    requires
        orderly(t.slots),
        a.addr.len() == 16,
        b.addr.len() == 16,
        a != b,
    ensures
        ({
            let (mid, l1) = looked_up(t, a, b, proto, sent, fresh);
            let (end, l2) = if back {
                looked_up(mid, b, a, proto, answered, false)
            } else {
                looked_up(mid, a, b, proto, answered, false)
            };
            &&& l2.id == l1.id
            &&& l2.key == l1.key
            &&& !l2.first
            &&& end.slots.len() == mid.slots.len()
            &&& end.next_id == mid.next_id
            &&& l2.direction == l1.direction <==> !back
            &&& l1.first ==> l1.direction == Direction::Forward
        }),
{
    key_is_symmetric(a, b, proto);
    let key = key_of(a, b, proto);
    let (mid, l1) = looked_up(t, a, b, proto, sent, fresh);
    lemma_slot(t.slots, key, 0);
    match slot_from(t.slots, key, 0) {
        Some(i) => {
            lemma_slot_kept(t.slots, mid.slots, key, 0, i);
            assert(t.slots[i].origin == key.lo || t.slots[i].origin == key.hi);
        },
        None => {
            lemma_absent_subset(t, sent, key);
            lemma_slot_pushed(with_room(t, sent), mid.slots.last(), key, 0);
            assert(mid.slots =~= with_room(t, sent).push(mid.slots.last()));
        },
    }
}

/// What is kept of an orderly table is orderly.
proof fn lemma_seen_orderly(slots: Seq<SlotView>, limit: int)
    requires
        orderly(slots),
    ensures
        orderly(seen_since(slots, limit)),
        forall|j: int|
            0 <= j < seen_since(slots, limit).len() ==> slots.contains(
                #[trigger] seen_since(slots, limit)[j],
            ),
    decreases slots.len(),
{
    if slots.len() > 0 {
        let front = slots.drop_last();
        let less = seen_since(front, limit);
        let all = seen_since(slots, limit);
        assert(orderly(front)) by {
            assert forall|i: int, j: int| 0 <= i < j < front.len() implies (#[trigger] front[i]).key
                != (#[trigger] front[j]).key by {
                assert(slots[i].key != slots[j].key);
            }
            assert forall|i: int| 0 <= i < front.len() implies (#[trigger] front[i]).origin
                == front[i].key.lo || front[i].origin == front[i].key.hi by {
                assert(slots[i] == front[i]);
            }
        }
        lemma_seen_orderly(front, limit);
        assert forall|j: int| 0 <= j < less.len() implies slots.contains(#[trigger] less[j])
            && less[j].key != slots.last().key by {
            assert(front.contains(less[j]));
            let k = choose|k: int| 0 <= k < front.len() && front[k] == less[j];
            assert(slots[k] == less[j]);
            assert(slots[k].key != slots[slots.len() - 1].key);
        }
        assert(slots[slots.len() - 1] == slots.last());
        assert forall|j: int| 0 <= j < all.len() implies slots.contains(#[trigger] all[j]) by {
            if j < less.len() {
                assert(all[j] == less[j]);
            }
        }
    }
}

/// A lookup leaves an orderly table orderly.
proof fn lemma_lookup_orderly(
    t: TableView,
    src: EndView,
    dst: EndView,
    proto: u8,
    now: Timestamp,
    fresh: bool,
)
    requires
        orderly(t.slots),
    ensures
        orderly(with_room(t, now)),
        orderly(looked_up(t, src, dst, proto, now, fresh).0.slots),
{
    let key = key_of(src, dst, proto);
    let awake = seen_since(t.slots, now.secs - t.idle_timeout_secs);
    lemma_slot(t.slots, key, 0);
    lemma_seen_orderly(t.slots, now.secs - t.idle_timeout_secs);
    lemma_seen_orderly(awake, time_in_place(awake, awake.len() as int / 10) + 1);
    let room = with_room(t, now);
    assert(orderly(room));
    match slot_from(t.slots, key, 0) {
        Some(i) => {
            let after = looked_up(t, src, dst, proto, now, fresh).0.slots;
            assert forall|j: int, k: int| 0 <= j < k < after.len() implies (#[trigger] after[j]).key
                != (#[trigger] after[k]).key by {
                assert(t.slots[j].key != t.slots[k].key);
            }
        },
        None => {
            lemma_absent_subset(t, now, key);
            let last = begun(key, t.next_id, src, now);
            assert forall|j: int, k: int| 0 <= j < k < room.push(last).len() implies (
            #[trigger] room.push(last)[j]).key != (#[trigger] room.push(last)[k]).key by {
                if k == room.len() {
                    assert(room[j].key != key);
                }
            }
        },
    }
}

proof fn lemma_slot(slots: Seq<SlotView>, key: KeyView, i: int)
    requires
        0 <= i,
    ensures
        slot_from(slots, key, i) matches Some(k) ==> i <= k < slots.len() && slots[k].key == key,
        slot_from(slots, key, i) is None ==> forall|j: int|
            i <= j < slots.len() ==> (#[trigger] slots[j]).key != key,
    decreases slots.len() - i,
{
    if i < slots.len() && slots[i].key != key {
        lemma_slot(slots, key, i + 1);
    }
}

proof fn lemma_slot_kept(a: Seq<SlotView>, b: Seq<SlotView>, key: KeyView, i: int, k: int)
    requires
        0 <= i <= k < a.len(),
        a.len() == b.len(),
        slot_from(a, key, i) == Some(k),
        forall|j: int| 0 <= j < a.len() ==> (#[trigger] b[j]).key == a[j].key,
    ensures
        slot_from(b, key, i) == Some(k),
    decreases a.len() - i,
{
    lemma_slot(a, key, i);
    assert(b[i].key == a[i].key);
    if i < k {
        lemma_slot_kept(a, b, key, i + 1, k);
    }
}

proof fn lemma_slot_pushed(a: Seq<SlotView>, s: SlotView, key: KeyView, i: int)
    requires
        0 <= i <= a.len(),
        s.key == key,
        forall|j: int| i <= j < a.len() ==> (#[trigger] a[j]).key != key,
    ensures
        slot_from(a.push(s), key, i) == Some(a.len() as int),
    decreases a.len() - i,
{
    if i < a.len() {
        lemma_slot_pushed(a, s, key, i + 1);
    }
}

proof fn lemma_since_subset(slots: Seq<SlotView>, limit: int, key: KeyView)
    requires
        forall|j: int| 0 <= j < slots.len() ==> (#[trigger] slots[j]).key != key,
    ensures
        forall|j: int|
            0 <= j < seen_since(slots, limit).len() ==> (#[trigger] seen_since(slots, limit)[j]).key
                != key,
    decreases slots.len(),
{
    if slots.len() > 0 {
        lemma_since_subset(slots.drop_last(), limit, key);
    }
}

proof fn lemma_absent_subset(t: TableView, now: Timestamp, key: KeyView)
    requires
        slot_from(t.slots, key, 0) is None,
    ensures
        forall|j: int|
            0 <= j < with_room(t, now).len() ==> (#[trigger] with_room(t, now)[j]).key != key,
{
    lemma_slot(t.slots, key, 0);
    let awake = seen_since(t.slots, now.secs - t.idle_timeout_secs);
    lemma_since_subset(t.slots, now.secs - t.idle_timeout_secs, key);
    let s = time_in_place(awake, awake.len() as int / 10);
    lemma_since_subset(awake, s + 1, key);
}

} // verus!

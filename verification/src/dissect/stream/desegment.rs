//! Holding bytes of an incomplete PDU until the rest of it arrives.
//!
//! A TCP stream is bytes, not messages. An HTTP response or a TLS record can
//! start in one segment and finish three segments later, and a dissector
//! handed one segment at a time can only report what happens to be in it.
//! Desegmentation gives the sub-dissector the whole message.
//!
//! # How it fits the flat driver
//!
//! Dissection is a flat loop: a layer runs, records a handoff, and returns;
//! the driver then runs the next layer. TCP therefore cannot see what its
//! sub-dissector concluded: by the time HTTP says "I need more", TCP has
//! already returned.
//!
//! So the two halves are split by who knows what and when:
//!
//! - **Before the handoff**, TCP asks whether this stream and direction have
//!   bytes pending. That it can know. If so it prepends them to the payload,
//!   publishes the result as a new data source, and hands off into that.
//! - **After parsing**, the sub-dissector says how much it consumed. What is
//!   left becomes the new pending buffer.
//!
//! # What it deliberately does not do
//!
//! Out-of-order segments are not held and replayed. A stream that arrives out
//! of order stops being desegmented until it lines up again, and the frames
//! in between are dissected individually.

use vstd::prelude::*;

use crate::bytes;
use crate::capture::Timestamp;
use crate::dissect::ctx::Proto;

use super::Direction;

verus! {

/// Bytes held per direction of one conversation. Beyond this the pending
/// buffer is dropped and the stream falls back to per-segment dissection: a
/// sub-dissector that keeps asking for more, because a length field said so,
/// must not be able to make the worker hold a gigabyte.
pub const MAX_PENDING_PER_DIRECTION: usize = 0x10_0000;

/// Directions holding bytes, across all conversations.
pub const MAX_PENDING_DIRECTIONS: usize = 4096;

/// Pending bytes are abandoned if nothing continues the stream for this long.
pub const IDLE_TIMEOUT_SECS: i64 = 60;

/// Where a held message came from, carried forward each time it grows.
#[derive(Debug, Clone, Copy, PartialEq, Eq, Structural)]
pub struct Origin {
    /// The dissector that asked for more. The same one gets the combined
    /// buffer, rather than re-running the port heuristics on a fragment.
    pub proto: Proto,
    /// Frame the message started in.
    pub first_frame: u32,
    /// Frames that have contributed to it, including the current one.
    pub frames: u32,
}

/// What TCP should do with a segment's payload.
#[derive(Debug, PartialEq, Eq)]
pub enum Prefix {
    /// Nothing pending: dissect the payload where it lies.
    Nothing,
    /// Pending bytes exist; dissect this buffer instead.
    Combined { bytes: Vec<u8>, origin: Origin },
}

/// What a prefix stands for.
#[verifier::ext_equal]
pub enum PrefixView {
    Nothing,
    Combined { bytes: Seq<u8>, origin: Origin },
}

impl View for Prefix {
    type V = PrefixView;

    open spec fn view(&self) -> PrefixView {
        match self {
            Prefix::Nothing => PrefixView::Nothing,
            Prefix::Combined { bytes, origin } => PrefixView::Combined {
                bytes: bytes@,
                origin: *origin,
            },
        }
    }
}

#[derive(Debug)]
struct Pending {
    stream: u32,
    direction: Direction,
    bytes: Vec<u8>,
    origin: Origin,
    last_seen: Timestamp,
}

/// The bytes held for one direction of one conversation.
#[verifier::ext_equal]
pub struct HeldView {
    pub stream: u32,
    pub direction: Direction,
    pub bytes: Seq<u8>,
    pub origin: Origin,
    pub last_seen: Timestamp,
}

impl Pending {
    spec fn shown(self) -> HeldView {
        HeldView {
            stream: self.stream,
            direction: self.direction,
            bytes: self.bytes@,
            origin: self.origin,
            last_seen: self.last_seen,
        }
    }
}

/// Bytes held for parts of conversations, once for each direction.
#[derive(Debug)]
pub struct Desegment {
    pending: Vec<Pending>,
}

impl Desegment {
    #[verifier::type_invariant]
    spec fn inv(self) -> bool {
        one_each(self@)
    }
}

impl View for Desegment {
    type V = Seq<HeldView>;

    closed spec fn view(&self) -> Seq<HeldView> {
        self.pending@.map_values(|p: Pending| p.shown())
    }
}

/// No direction of a conversation holds bytes twice.
pub open spec fn one_each(h: Seq<HeldView>) -> bool {
    forall|i: int, j: int|
        0 <= i < j < h.len() ==> !((#[trigger] h[i]).stream == (#[trigger] h[j]).stream
            && h[i].direction == h[j].direction)
}

/// The position of what is held for `stream` in direction `d`, from `i` on.
pub open spec fn held_from(h: Seq<HeldView>, stream: u32, d: Direction, i: int) -> Option<int>
    decreases h.len() - i,
{
    if i < 0 || i >= h.len() {
        None
    } else if h[i].stream == stream && h[i].direction == d {
        Some(i)
    } else {
        held_from(h, stream, d, i + 1)
    }
}

/// What is held once the bytes for `stream` in direction `d` are gone.
pub open spec fn without(h: Seq<HeldView>, stream: u32, d: Direction) -> Seq<HeldView> {
    match held_from(h, stream, d, 0) {
        Some(i) => h.remove(i),
        None => h,
    }
}

/// Has a buffer last touched at `seen` been abandoned by `now`?
pub open spec fn abandoned(seen: Timestamp, now: Timestamp) -> bool {
    now.secs - seen.secs > IDLE_TIMEOUT_SECS
}

/// What `take` gives: the held bytes in front of the payload, unless nothing
/// is held or what is held was abandoned.
pub open spec fn prefix_for(
    h: Seq<HeldView>,
    stream: u32,
    d: Direction,
    payload: Seq<u8>,
    now: Timestamp,
) -> PrefixView {
    match held_from(h, stream, d, 0) {
        Some(i) => if abandoned(h[i].last_seen, now) {
            PrefixView::Nothing
        } else {
            PrefixView::Combined {
                bytes: h[i].bytes + payload,
                origin: Origin {
                    frames: if h[i].origin.frames < u32::MAX {
                        (h[i].origin.frames + 1) as u32
                    } else {
                        u32::MAX
                    },
                    ..h[i].origin
                },
            }
        },
        None => PrefixView::Nothing,
    }
}

/// What is held and not abandoned at `now`.
pub open spec fn current(h: Seq<HeldView>, now: Timestamp) -> Seq<HeldView>
    decreases h.len(),
{
    if h.len() == 0 {
        Seq::empty()
    } else if abandoned(h.last().last_seen, now) {
        current(h.drop_last(), now)
    } else {
        current(h.drop_last(), now).push(h.last())
    }
}

/// What is held after bytes were offered for `stream` in direction `d`, and
/// whether they were taken: nothing and too much are refused, and so is a new
/// direction when as many as allowed hold bytes that were not abandoned.
pub open spec fn kept(
    h: Seq<HeldView>,
    stream: u32,
    d: Direction,
    bytes: Seq<u8>,
    origin: Origin,
    now: Timestamp,
) -> (Seq<HeldView>, bool) {
    let held = HeldView {
        stream,
        direction: d,
        bytes,
        origin: Origin {
            frames: if origin.frames == 0 {
                1
            } else {
                origin.frames
            },
            ..origin
        },
        last_seen: now,
    };
    if bytes.len() == 0 || bytes.len() > MAX_PENDING_PER_DIRECTION {
        (h, false)
    } else {
        match held_from(h, stream, d, 0) {
            Some(i) => (h.update(i, held), true),
            None => if h.len() < MAX_PENDING_DIRECTIONS {
                (h.push(held), true)
            } else if current(h, now).len() < MAX_PENDING_DIRECTIONS {
                (current(h, now).push(held), true)
            } else {
                (current(h, now), false)
            },
        }
    }
}

impl Default for Desegment {
    fn default() -> (r: Desegment)
        ensures
            r@ == Seq::<HeldView>::empty(),
    {
        Desegment::new()
    }
}

impl Desegment {
    pub fn new() -> (r: Desegment)
        ensures
            r@ == Seq::<HeldView>::empty(),
    {
        let r = Desegment { pending: Vec::new() };
        assert(r@ =~= Seq::empty());
        r
    }

    pub fn len(&self) -> (r: usize)
        ensures
            r == self@.len(),
    {
        self.pending.len()
    }

    pub fn is_empty(&self) -> (r: bool)
        ensures
            r == (self@.len() == 0),
    {
        self.pending.len() == 0
    }

    fn position(&self, stream: u32, dir: Direction) -> (r: Option<usize>)
        ensures
            match r {
                Some(i) => i < self.pending@.len() && held_from(self@, stream, dir, 0) == Some(
                    i as int,
                ),
                None => held_from(self@, stream, dir, 0) is None,
            },
    {
        let mut i: usize = 0;
        while i < self.pending.len()
            invariant
                i <= self.pending@.len(),
                self@.len() == self.pending@.len(),
                held_from(self@, stream, dir, 0) == held_from(self@, stream, dir, i as int),
            decreases self.pending.len() - i,
        {
            assert(self@[i as int] == self.pending@[i as int].shown());
            if self.pending[i].stream == stream && self.pending[i].direction == dir {
                return Some(i);
            }
            i += 1;
        }
        None
    }

    /// Take whatever is pending for this direction and combine it with
    /// `payload`. Called by TCP before handing off.
    pub fn take(
        &mut self,
        stream: u32,
        dir: Direction,
        payload: &[u8],
        now: Timestamp,
    ) -> (r: Prefix)
        ensures
            r@ == prefix_for(old(self)@, stream, dir, payload@, now),
            final(self)@ == without(old(self)@, stream, dir),
            one_each(old(self)@),
            one_each(final(self)@),
    {
        proof {
            use_type_invariant(&*self);
        }
        match self.position(stream, dir) {
            None => Prefix::Nothing,
            Some(i) => {
                assert(self@[i as int] == self.pending@[i as int].shown());
                let p: Pending = self.take_out(i);
                // Abandon a buffer nothing has continued for a minute: the
                // connection is gone, or the length that asked for more was
                // nonsense.
                if now.secs as i128 - p.last_seen.secs as i128 > IDLE_TIMEOUT_SECS as i128 {
                    return Prefix::Nothing;
                }
                let mut bytes: Vec<u8> = p.bytes;
                bytes::put_all(&mut bytes, payload);
                Prefix::Combined {
                    bytes,
                    origin: Origin {
                        proto: p.origin.proto,
                        first_frame: p.origin.first_frame,
                        frames: p.origin.frames.saturating_add(1),
                    },
                }
            },
        }
    }

    /// Keep `bytes` until more of the stream arrives. Returns false when the
    /// request was refused, in which case the caller must dissect what it has
    /// rather than waiting for bytes that will never be held.
    pub fn keep(
        &mut self,
        stream: u32,
        dir: Direction,
        bytes: &[u8],
        origin: Origin,
        now: Timestamp,
    ) -> (r: bool)
        ensures
            (final(self)@, r) == kept(old(self)@, stream, dir, bytes@, origin, now),
            one_each(old(self)@),
            one_each(final(self)@),
    {
        proof {
            use_type_invariant(&*self);
            lemma_held(self@, stream, dir, 0);
        }
        if bytes.len() == 0 || bytes.len() > MAX_PENDING_PER_DIRECTION {
            return false;
        }
        let held = Pending {
            stream,
            direction: dir,
            bytes: bytes::copy_of(bytes),
            origin: Origin {
                proto: origin.proto,
                first_frame: origin.first_frame,
                frames: if origin.frames == 0 {
                    1
                } else {
                    origin.frames
                },
            },
            last_seen: now,
        };
        match self.position(stream, dir) {
            Some(i) => {
                let mut pending: Vec<Pending> = Vec::new();
                std::mem::swap(&mut pending, &mut self.pending);
                pending[i] = held;
                let ghost after = pending@.map_values(|p: Pending| p.shown());
                assert(after =~= old(self)@.update(i as int, held.shown()));
                self.pending = pending;
                true
            },
            None => {
                if self.pending.len() >= MAX_PENDING_DIRECTIONS {
                    self.expire(now);
                    if self.pending.len() >= MAX_PENDING_DIRECTIONS {
                        return false;
                    }
                }
                let ghost before = self@;
                proof {
                    use_type_invariant(&*self);
                    lemma_current(old(self)@, now);
                    assert forall|j: int| 0 <= j < before.len() implies !((
                    #[trigger] before[j]).stream == stream && before[j].direction == dir) by {
                        if before != old(self)@ {
                            assert(old(self)@.contains(current(old(self)@, now)[j]));
                        }
                    }
                }
                let mut pending: Vec<Pending> = Vec::new();
                std::mem::swap(&mut pending, &mut self.pending);
                pending.push(held);
                let ghost after = pending@.map_values(|p: Pending| p.shown());
                assert(after =~= before.push(held.shown()));
                self.pending = pending;
                true
            },
        }
    }

    /// Forget this direction's pending bytes: the stream reset, closed, or
    /// went out of order.
    pub fn forget(&mut self, stream: u32, dir: Direction)
        ensures
            final(self)@ == without(old(self)@, stream, dir),
            one_each(final(self)@),
    {
        proof {
            use_type_invariant(&*self);
        }
        if let Some(i) = self.position(stream, dir) {
            let _ = self.take_out(i);
        }
    }

    fn take_out(&mut self, i: usize) -> (r: Pending)
        requires
            i < old(self)@.len(),
        ensures
            final(self)@ == old(self)@.remove(i as int),
            r.shown() == old(self)@[i as int],
            one_each(final(self)@),
    {
        proof {
            use_type_invariant(&*self);
            lemma_one_each_removed(self@, i as int);
        }
        let mut pending: Vec<Pending> = Vec::new();
        std::mem::swap(&mut pending, &mut self.pending);
        let p: Pending = pending.remove(i);
        let ghost after = pending@.map_values(|p: Pending| p.shown());
        assert(after =~= old(self)@.remove(i as int));
        self.pending = pending;
        p
    }

    /// Drop buffers nothing has continued within the timeout.
    pub fn expire(&mut self, now: Timestamp)
        ensures
            final(self)@ == current(old(self)@, now),
            one_each(final(self)@),
    {
        proof {
            use_type_invariant(&*self);
        }
        let mut i: usize = self.pending.len();
        let ghost tail = Seq::<HeldView>::empty();
        assert(self@.take(i as int) =~= self@);
        assert(current(self@, now) + tail =~= current(self@, now));
        while i > 0
            invariant
                i <= self.pending@.len(),
                self@ == self@.take(i as int) + tail,
                self@.len() == self.pending@.len(),
                current(old(self)@, now) == current(self@.take(i as int), now) + tail,
            decreases i,
        {
            i -= 1;
            let ghost before = self@;
            assert(before[i as int] == self.pending@[i as int].shown());
            assert(before.take(i + 1).drop_last() =~= before.take(i as int));
            let seen: Timestamp = self.pending[i].last_seen;
            if now.secs as i128 - seen.secs as i128 > IDLE_TIMEOUT_SECS as i128 {
                let _ = self.take_out(i);
                assert(self@.take(i as int) =~= before.take(i as int));
                assert(self@ =~= self@.take(i as int) + tail);
            } else {
                proof {
                    let longer = seq![before[i as int]] + tail;
                    assert(current(before.take(i as int), now).push(before[i as int]) + tail
                        =~= current(before.take(i as int), now) + longer);
                    assert(self@ =~= self@.take(i as int) + longer);
                    tail = longer;
                }
            }
        }
        assert(self@.take(0) =~= Seq::empty());
        assert(self@ =~= tail);
        assert(current(self@.take(0), now) + tail =~= tail);
        proof {
            use_type_invariant(&*self);
        }
    }
}

proof fn lemma_one_each_removed(h: Seq<HeldView>, k: int)
    requires
        one_each(h),
        0 <= k < h.len(),
    ensures
        one_each(h.remove(k)),
        forall|j: int|
            0 <= j < h.remove(k).len() ==> !((#[trigger] h.remove(k)[j]).stream == h[k].stream
                && h.remove(k)[j].direction == h[k].direction),
{
    let less = h.remove(k);
    assert forall|j: int| 0 <= j < less.len() implies #[trigger] less[j] == h[if j < k {
        j
    } else {
        j + 1
    }] by {}
}

/// What was taken is gone: taking again gives nothing, and what is held for
/// other directions stays as it was.
pub proof fn taken_bytes_are_gone(
    h: Seq<HeldView>,
    stream: u32,
    d: Direction,
    other: u32,
    e: Direction,
    payload: Seq<u8>,
    now: Timestamp,
)
    requires
        one_each(h),
    ensures
        one_each(without(h, stream, d)),
        prefix_for(without(h, stream, d), stream, d, payload, now) == PrefixView::Nothing,
        other != stream || e != d ==> prefix_for(without(h, stream, d), other, e, payload, now)
            == prefix_for(h, other, e, payload, now),
{
    let less = without(h, stream, d);
    lemma_held(h, stream, d, 0);
    lemma_held(less, stream, d, 0);
    if let Some(k) = held_from(h, stream, d, 0) {
        lemma_one_each_removed(h, k);
        lemma_held(h, other, e, 0);
        lemma_held(less, other, e, 0);
        if other != stream || e != d {
            match held_from(h, other, e, 0) {
                Some(i) => {
                    lemma_held_before(h, other, e, 0, i);
                    let at = if i < k {
                        i
                    } else {
                        i - 1
                    };
                    assert(less[at] == h[i]);
                    assert forall|j: int| 0 <= j < at implies !((#[trigger] less[j]).stream == other
                        && less[j].direction == e) by {
                        assert(less[j] == h[if j < k {
                            j
                        } else {
                            j + 1
                        }]);
                    }
                    lemma_held_at(less, other, e, 0, at);
                },
                None => {
                    if let Some(j) = held_from(less, other, e, 0) {
                        assert(less[j] == h[if j < k {
                            j
                        } else {
                            j + 1
                        }]);
                    }
                },
            }
        }
    }
}

proof fn lemma_held(h: Seq<HeldView>, stream: u32, d: Direction, i: int)
    requires
        0 <= i,
    ensures
        held_from(h, stream, d, i) matches Some(k) ==> i <= k < h.len() && h[k].stream == stream
            && h[k].direction == d,
        held_from(h, stream, d, i) is None ==> forall|j: int|
            i <= j < h.len() ==> !((#[trigger] h[j]).stream == stream && h[j].direction == d),
    decreases h.len() - i,
{
    if i < h.len() && !(h[i].stream == stream && h[i].direction == d) {
        lemma_held(h, stream, d, i + 1);
    }
}

proof fn lemma_current(h: Seq<HeldView>, now: Timestamp)
    ensures
        current(h, now).len() <= h.len(),
        forall|j: int|
            0 <= j < current(h, now).len() ==> h.contains(#[trigger] current(h, now)[j]),
    decreases h.len(),
{
    if h.len() > 0 {
        lemma_current(h.drop_last(), now);
        assert forall|j: int| 0 <= j < current(h, now).len() implies h.contains(
            #[trigger] current(h, now)[j],
        ) by {
            let short = current(h.drop_last(), now);
            if j < short.len() {
                assert(h.drop_last().contains(short[j]));
                let k = choose|k: int| 0 <= k < h.len() - 1 && h.drop_last()[k] == short[j];
                assert(h[k] == short[j]);
            } else {
                assert(h[h.len() - 1] == current(h, now)[j]);
            }
        }
    }
}

proof fn lemma_held_at(h: Seq<HeldView>, stream: u32, d: Direction, i: int, k: int)
    requires
        0 <= i <= k < h.len(),
        h[k].stream == stream,
        h[k].direction == d,
        forall|j: int| i <= j < k ==> !((#[trigger] h[j]).stream == stream && h[j].direction == d),
    ensures
        held_from(h, stream, d, i) == Some(k),
    decreases k - i,
{
    if i < k {
        lemma_held_at(h, stream, d, i + 1, k);
    }
}

proof fn lemma_held_before(h: Seq<HeldView>, stream: u32, d: Direction, i: int, k: int)
    requires
        0 <= i,
        held_from(h, stream, d, i) == Some(k),
    ensures
        forall|j: int| i <= j < k ==> !((#[trigger] h[j]).stream == stream && h[j].direction == d),
    decreases h.len() - i,
{
    if i < h.len() && !(h[i].stream == stream && h[i].direction == d) {
        lemma_held_before(h, stream, d, i + 1, k);
    }
}

/// Bytes that were kept come back in front of the next payload, from the
/// message's first frame, if that payload follows before they are abandoned.
pub proof fn kept_bytes_come_back(
    h: Seq<HeldView>,
    stream: u32,
    d: Direction,
    bytes: Seq<u8>,
    origin: Origin,
    then: Timestamp,
    payload: Seq<u8>,
    now: Timestamp,
)
    requires
        kept(h, stream, d, bytes, origin, then).1,
        !abandoned(then, now),
    ensures
        prefix_for(kept(h, stream, d, bytes, origin, then).0, stream, d, payload, now) matches
            PrefixView::Combined { bytes: got, origin: from } && got == bytes + payload
            && from.proto == origin.proto && from.first_frame == origin.first_frame,
{
    let after = kept(h, stream, d, bytes, origin, then).0;
    lemma_held(h, stream, d, 0);
    match held_from(h, stream, d, 0) {
        Some(i) => {
            lemma_held_before(h, stream, d, 0, i);
            lemma_held_at(after, stream, d, 0, i);
        },
        None => {
            let base = if h.len() < MAX_PENDING_DIRECTIONS {
                h
            } else {
                current(h, then)
            };
            lemma_current(h, then);
            assert forall|j: int| 0 <= j < base.len() implies !((#[trigger] after[j]).stream
                == stream && after[j].direction == d) by {
                assert(after[j] == base[j]);
                if h.len() >= MAX_PENDING_DIRECTIONS {
                    assert(h.contains(current(h, then)[j]));
                }
            }
            lemma_held_at(after, stream, d, 0, base.len() as int);
        },
    }
}

/// Keeping never holds bytes for more directions than allowed.
pub proof fn held_directions_are_bounded(
    h: Seq<HeldView>,
    stream: u32,
    d: Direction,
    bytes: Seq<u8>,
    origin: Origin,
    now: Timestamp,
)
    requires
        h.len() <= MAX_PENDING_DIRECTIONS,
    ensures
        kept(h, stream, d, bytes, origin, now).0.len() <= MAX_PENDING_DIRECTIONS,
{
    lemma_held(h, stream, d, 0);
    lemma_current(h, now);
}

/// What is kept for one direction leaves every other direction's bytes as
/// they were, while there is room.
pub proof fn directions_are_independent(
    h: Seq<HeldView>,
    stream: u32,
    d: Direction,
    bytes: Seq<u8>,
    origin: Origin,
    other: u32,
    e: Direction,
    payload: Seq<u8>,
    now: Timestamp,
)
    requires
        h.len() < MAX_PENDING_DIRECTIONS,
        other != stream || d != e,
    ensures
        prefix_for(kept(h, stream, d, bytes, origin, now).0, other, e, payload, now) == prefix_for(
            h,
            other,
            e,
            payload,
            now,
        ),
{
    let after = kept(h, stream, d, bytes, origin, now).0;
    lemma_held(h, stream, d, 0);
    lemma_held(h, other, e, 0);
    lemma_held(after, other, e, 0);
    match held_from(h, other, e, 0) {
        Some(i) => {
            lemma_held_before(h, other, e, 0, i);
            assert(after[i] == h[i]);
            lemma_held_at(after, other, e, 0, i);
        },
        None => {
            assert(held_from(after, other, e, 0) is None) by {
                if let Some(k) = held_from(after, other, e, 0) {
                    if k < h.len() {
                        assert(after[k] == h[k] || held_from(h, stream, d, 0) == Some(k));
                    }
                }
            }
        },
    }
}

} // verus!

//! The capture store: an append-only, chunked ring of dissected frames.
//!
//! Frames live in fixed-size chunks (`CHUNK` frames). Sealed chunks are
//! immutable `Arc`s, so a `Snapshot` is a handful of `Arc` clones plus the
//! (small) open chunk, and indexing is O(1). Eviction removes whole chunks from
//! the front, so the configured limits are honoured to within one chunk.

use std::sync::Arc;

use vstd::prelude::*;

use crate::capture::Timestamp;
use crate::dissect::{Frame, FrameView};

pub mod branches;
pub mod buckets;
pub mod columns;
pub mod conversations;
pub mod follow;
pub mod gathering;
pub mod hierarchy;
pub mod io_graph;
pub mod order;
pub mod view;

pub use conversations::Row;
pub use follow::Stream;

verus! {

/// Frames per sealed chunk. Also the eviction granularity.
pub const CHUNK: usize = 4096;

/// Ring-buffer limits; eviction happens when either is exceeded.
#[derive(Debug, Clone, Copy, PartialEq, Eq)]
pub struct Limits {
    pub max_frames: u64,
    pub max_bytes: u64,
}

impl Default for Limits {
    fn default() -> (r: Limits)
        ensures
            r.max_frames == 1_000_000,
            r.max_bytes == 2 * 1024 * 1024 * 1024,
    {
        Limits { max_frames: 1_000_000, max_bytes: 2_147_483_648 }
    }
}

#[derive(Debug, Clone, Copy, PartialEq, Eq)]
pub struct StoreStats {
    /// Frames currently held.
    pub frames: u64,
    /// Approximate bytes currently held (payload + tree + bookkeeping).
    pub bytes: u64,
    pub evicted_frames: u64,
    pub evicted_bytes: u64,
    /// Number the next appended frame must carry.
    pub next_number: u32,
}

impl Default for StoreStats {
    fn default() -> (r: StoreStats)
        ensures
            r == (StoreStats {
                frames: 0,
                bytes: 0,
                evicted_frames: 0,
                evicted_bytes: 0,
                next_number: 0,
            }),
    {
        StoreStats { frames: 0, bytes: 0, evicted_frames: 0, evicted_bytes: 0, next_number: 0 }
    }
}

/// `Arc::clone`: another handle on the same value.
#[verifier::external_body]
pub(crate) fn share<T>(a: &Arc<T>) -> (r: Arc<T>)
    ensures
        r == *a,
{
    Arc::clone(a)
}

// ---- what is held ---------------------------------------------------------------

/// A frame in the store, and the memory it is charged for.
#[verifier::ext_equal]
pub struct Held {
    pub frame: FrameView,
    pub size: int,
}

/// What a frame is charged for.
pub open spec fn charge(f: Frame) -> int {
    if f.held() <= usize::MAX {
        f.held()
    } else {
        usize::MAX as int
    }
}

/// What a handle on a frame stands for.
pub open spec fn held_of(f: Arc<Frame>) -> Held {
    Held { frame: f@, size: charge(*f) }
}

/// What several handles stand for.
pub open spec fn all_held(v: Seq<Arc<Frame>>) -> Seq<Held> {
    v.map_values(|f: Arc<Frame>| held_of(f))
}

/// The memory that frames are charged for together.
pub open spec fn total(v: Seq<Held>) -> int
    decreases v.len(),
{
    if v.len() == 0 {
        0
    } else {
        total(v.drop_last()) + v.last().size
    }
}

/// The memory that chunks are charged for together.
pub open spec fn total_all(v: Seq<Seq<Held>>) -> int
    decreases v.len(),
{
    if v.len() == 0 {
        0
    } else {
        total(v[0]) + total_all(v.drop_first())
    }
}

/// What the store holds, and what it has let go.
#[verifier::ext_equal]
pub struct StoreView {
    /// Full chunks, oldest first.
    pub sealed: Seq<Seq<Held>>,
    /// The chunk being filled.
    pub open: Seq<Held>,
    /// Number of the first frame currently held.
    pub first_number: u32,
    pub next_number: u32,
    /// Timestamp of the first frame ever appended; survives eviction.
    pub start_ts: Option<Timestamp>,
    pub evicted_frames: int,
    pub evicted_bytes: int,
    pub limits: Limits,
    /// Bumped on every mutation.
    pub version: u64,
}

/// `n` steps after `number`, as 32 bits count them.
pub open spec fn after(number: u32, n: int) -> u32 {
    ((number + n) % 0x1_0000_0000) as u32
}

/// The next version.
pub open spec fn bumped(version: u64) -> u64 {
    if version == u64::MAX {
        0
    } else {
        (version + 1) as u64
    }
}

/// The frame at row `k`.
pub open spec fn row(sealed: Seq<Seq<Held>>, open: Seq<Held>, k: int) -> Held {
    if k < sealed.len() * CHUNK {
        sealed[k / (CHUNK as int)][k % (CHUNK as int)]
    } else {
        open[k - sealed.len() * CHUNK]
    }
}

/// Row `k` carries the number that is `k` after the first.
pub open spec fn contiguous(sealed: Seq<Seq<Held>>, open: Seq<Held>, first: u32) -> bool {
    forall|k: int|
        0 <= k < sealed.len() * CHUNK + open.len() ==> (#[trigger] row(
            sealed,
            open,
            k,
        )).frame.number == after(first, k)
}

impl StoreView {
    /// Frames currently held.
    pub open spec fn count(self) -> int {
        self.sealed.len() * CHUNK + self.open.len()
    }

    /// Memory currently held.
    pub open spec fn bytes(self) -> int {
        total_all(self.sealed) + total(self.open)
    }

    /// Chunks are full, the open one is not, and the numbers have no gap: those
    /// that are held follow those that were evicted.
    pub open spec fn valid(self) -> bool {
        &&& forall|i: int| 0 <= i < self.sealed.len() ==> (#[trigger] self.sealed[i]).len() == CHUNK
        &&& self.open.len() < CHUNK
        &&& contiguous(self.sealed, self.open, self.first_number)
        &&& self.next_number == after(self.first_number, self.count())
        &&& self.evicted_frames >= 0
        &&& self.first_number == after(1, self.evicted_frames)
    }

    /// One of the limits is exceeded.
    pub open spec fn over(self) -> bool {
        self.count() > self.limits.max_frames || self.bytes() > self.limits.max_bytes
    }

    /// The open chunk sealed, if it is full.
    pub open spec fn settled(self) -> StoreView {
        if self.open.len() >= CHUNK {
            StoreView { sealed: self.sealed.push(self.open), open: Seq::empty(), ..self }
        } else {
            self
        }
    }

    /// One frame more, under the next number.
    pub open spec fn with_frame(self, h: Held) -> StoreView {
        StoreView {
            open: self.open.push(
                Held { frame: FrameView { number: self.next_number, ..h.frame }, ..h },
            ),
            next_number: after(self.next_number, 1),
            start_ts: match self.start_ts {
                Some(ts) => Some(ts),
                None => Some(h.frame.ts),
            },
            ..self
        }.settled()
    }

    /// The frames of a batch from `i` on.
    pub open spec fn with_frames(self, batch: Seq<Held>, i: int) -> StoreView
        decreases batch.len() - i,
    {
        if i < 0 || i >= batch.len() {
            self
        } else {
            self.with_frame(batch[i]).with_frames(batch, i + 1)
        }
    }

    /// Without the oldest chunk.
    pub open spec fn without_oldest(self) -> StoreView {
        StoreView {
            sealed: self.sealed.drop_first(),
            first_number: after(self.first_number, self.sealed[0].len() as int),
            evicted_frames: self.evicted_frames + self.sealed[0].len(),
            evicted_bytes: self.evicted_bytes + total(self.sealed[0]),
            ..self
        }
    }

    /// Without the oldest chunks, as long as a limit is exceeded.
    pub open spec fn evicted(self) -> StoreView
        decreases self.sealed.len(),
    {
        if self.over() && self.sealed.len() > 0 {
            self.without_oldest().evicted()
        } else {
            self
        }
    }

    /// After a mutation.
    pub open spec fn touched(self) -> StoreView {
        StoreView { version: bumped(self.version), ..self }
    }

    /// After a batch.
    pub open spec fn appended(self, batch: Seq<Held>) -> StoreView {
        if batch.len() == 0 {
            self
        } else {
            self.with_frames(batch, 0).evicted().touched()
        }
    }
}

/// An empty store.
pub open spec fn nothing_held(limits: Limits, version: u64) -> StoreView {
    StoreView {
        sealed: Seq::empty(),
        open: Seq::empty(),
        first_number: 1,
        next_number: 1,
        start_ts: None,
        evicted_frames: 0,
        evicted_bytes: 0,
        limits,
        version,
    }
}

// ---- the store ------------------------------------------------------------------

#[derive(Debug)]
struct Chunk {
    frames: Vec<Arc<Frame>>,
    bytes: u64,
}

/// What the chunks hold.
spec fn chunks_held(v: Seq<Arc<Chunk>>) -> Seq<Seq<Held>> {
    v.map_values(|c: Arc<Chunk>| all_held(c.frames@))
}

/// The frames of a capture, up to the limits.
#[derive(Debug)]
pub struct Store {
    sealed: Vec<Arc<Chunk>>,
    open: Vec<Arc<Frame>>,
    open_bytes: u64,
    first_number: u32,
    next_number: u32,
    start_ts: Option<Timestamp>,
    bytes: u64,
    evicted_frames: u64,
    evicted_bytes: u64,
    limits: Limits,
    version: u64,
}

impl View for Store {
    type V = StoreView;

    closed spec fn view(&self) -> StoreView {
        StoreView {
            sealed: chunks_held(self.sealed@),
            open: all_held(self.open@),
            first_number: self.first_number,
            next_number: self.next_number,
            start_ts: self.start_ts,
            evicted_frames: self.evicted_frames as int,
            evicted_bytes: self.evicted_bytes as int,
            limits: self.limits,
            version: self.version,
        }
    }
}

proof fn lemma_total_push(v: Seq<Held>, h: Held)
    ensures
        total(v.push(h)) == total(v) + h.size,
{
    assert(v.push(h).drop_last() =~= v);
}

proof fn lemma_total_all_push(v: Seq<Seq<Held>>, c: Seq<Held>)
    ensures
        total_all(v.push(c)) == total_all(v) + total(c),
    decreases v.len(),
{
    if v.len() == 0 {
        assert(v.push(c).drop_first() =~= v);
    } else {
        lemma_total_all_push(v.drop_first(), c);
        assert(v.push(c).drop_first() =~= v.drop_first().push(c));
    }
}

proof fn lemma_total_least(v: Seq<Held>)
    requires
        forall|i: int| 0 <= i < v.len() ==> (#[trigger] v[i]).size >= 0,
    ensures
        total(v) >= 0,
    decreases v.len(),
{
    if v.len() > 0 {
        assert forall|i: int| 0 <= i < v.drop_last().len() implies (#[trigger] v.drop_last()[i]).size
            >= 0 by {
            assert(v.drop_last()[i] == v[i]);
        }
        lemma_total_least(v.drop_last());
    }
}

/// A frame under the next number keeps the numbers without a gap.
proof fn lemma_with_frame(s: StoreView, h: Held)
    requires
        s.valid(),
    ensures
        s.with_frame(h).valid(),
        s.with_frame(h).count() == s.count() + 1,
        s.with_frame(h).bytes() == s.bytes() + h.size,
{
    let g = Held { frame: FrameView { number: s.next_number, ..h.frame }, ..h };
    let open = s.open.push(g);
    lemma_total_push(s.open, g);
    assert(contiguous(s.sealed, open, s.first_number)) by {
        assert forall|k: int| 0 <= k < s.sealed.len() * CHUNK + open.len() implies (#[trigger] row(
            s.sealed,
            open,
            k,
        )).frame.number == after(s.first_number, k) by {
            if k < s.count() {
                assert(row(s.sealed, open, k) == row(s.sealed, s.open, k));
            }
        }
    }
    let r = s.with_frame(h);
    if open.len() >= CHUNK {
        let sealed = s.sealed.push(open);
        lemma_total_all_push(s.sealed, open);
        assert(contiguous(sealed, Seq::empty(), s.first_number)) by {
            assert forall|k: int| 0 <= k < sealed.len() * CHUNK implies (#[trigger] row(
                sealed,
                Seq::empty(),
                k,
            )).frame.number == after(s.first_number, k) by {
                assert(row(s.sealed, open, k).frame.number == after(s.first_number, k));
                if k < s.sealed.len() * CHUNK {
                    assert(k / (CHUNK as int) < s.sealed.len());
                } else {
                    assert(k / (CHUNK as int) == s.sealed.len());
                    assert(k % (CHUNK as int) == k - s.sealed.len() * CHUNK);
                }
            }
        }
        assert(r.sealed == sealed);
        assert(r.open == Seq::<Held>::empty());
    }
}

/// Dropping the oldest chunk keeps the numbers without a gap.
proof fn lemma_without_oldest(s: StoreView)
    requires
        s.valid(),
        s.sealed.len() > 0,
    ensures
        s.without_oldest().valid(),
        s.without_oldest().count() == s.count() - CHUNK,
        s.without_oldest().bytes() == s.bytes() - total(s.sealed[0]),
{
    let r = s.without_oldest();
    assert(r.sealed =~= s.sealed.drop_first());
    assert forall|i: int| 0 <= i < r.sealed.len() implies (#[trigger] r.sealed[i]).len() == CHUNK by {
        assert(r.sealed[i] == s.sealed[i + 1]);
    }
    assert forall|k: int| 0 <= k < r.count() implies (#[trigger] row(
        r.sealed,
        r.open,
        k,
    )).frame.number == after(r.first_number, k) by {
        let old_k = k + CHUNK;
        assert(row(s.sealed, s.open, old_k).frame.number == after(s.first_number, old_k));
        if k < r.sealed.len() * CHUNK {
            assert(old_k / (CHUNK as int) == k / (CHUNK as int) + 1);
            assert(old_k % (CHUNK as int) == k % (CHUNK as int));
            assert(r.sealed[k / (CHUNK as int)] == s.sealed[k / (CHUNK as int) + 1]);
        }
    }
}

proof fn lemma_evicted(s: StoreView)
    requires
        s.valid(),
    ensures
        s.evicted().valid(),
        s.evicted().over() ==> s.evicted().sealed.len() == 0,
        s.evicted().open == s.open,
        s.evicted().evicted_frames + s.evicted().count() == s.evicted_frames + s.count(),
        s.evicted().evicted_bytes + s.evicted().bytes() == s.evicted_bytes + s.bytes(),
    decreases s.sealed.len(),
{
    if s.over() && s.sealed.len() > 0 {
        lemma_without_oldest(s);
        lemma_evicted(s.without_oldest());
    }
}

proof fn lemma_with_frames(s: StoreView, batch: Seq<Held>, i: int)
    requires
        s.valid(),
        0 <= i <= batch.len(),
    ensures
        s.with_frames(batch, i).valid(),
        s.with_frames(batch, i).count() == s.count() + batch.len() - i,
        s.with_frames(batch, i).bytes() == s.bytes() + total(batch.skip(i)),
    decreases batch.len() - i,
{
    if i < batch.len() {
        lemma_with_frame(s, batch[i]);
        lemma_with_frames(s.with_frame(batch[i]), batch, i + 1);
        lemma_total_split(batch.skip(i));
        assert(batch.skip(i).drop_first() =~= batch.skip(i + 1));
    } else {
        assert(batch.skip(i) =~= Seq::empty());
    }
}

proof fn lemma_total_split(v: Seq<Held>)
    requires
        v.len() > 0,
    ensures
        total(v) == v[0].size + total(v.drop_first()),
    decreases v.len(),
{
    if v.len() == 1 {
        assert(v.drop_first() =~= Seq::empty());
        assert(v.drop_last() =~= Seq::empty());
    } else {
        lemma_total_split(v.drop_last());
        assert(v.drop_last().drop_first() =~= v.drop_first().drop_last());
    }
}

/// The store never holds a gap: whatever is appended, the numbers of the held
/// frames follow one another, and the next frame gets the number after the
/// last.
pub proof fn numbers_have_no_gap(s: StoreView, batch: Seq<Held>)
    requires
        s.valid(),
    ensures
        s.appended(batch).valid(),
{
    if batch.len() > 0 {
        lemma_with_frames(s, batch, 0);
        lemma_evicted(s.with_frames(batch, 0));
        let r = s.appended(batch);
        assert(r.sealed == s.with_frames(batch, 0).evicted().sealed);
    }
}

/// Limits are honoured to within the open chunk: after a batch, a limit is
/// only exceeded when no full chunk is left to drop.
pub proof fn limits_are_honoured(s: StoreView, batch: Seq<Held>)
    requires
        s.valid(),
        batch.len() > 0,
    ensures
        s.appended(batch).over() ==> s.appended(batch).sealed.len() == 0,
{
    lemma_with_frames(s, batch, 0);
    lemma_evicted(s.with_frames(batch, 0));
}

/// New limits take effect at once: the oldest chunks go, whole, until the
/// limits hold or fewer frames than a chunk are left; the rest stays.
pub proof fn new_limits_drop_the_oldest_chunks(s: StoreView, limits: Limits)
    requires
        s.valid(),
    ensures
        ({
            let r = (StoreView { limits, ..s }).evicted().touched();
            let gone = s.sealed.len() - r.sealed.len();
            &&& r.valid()
            &&& 0 <= gone
            &&& r.sealed == s.sealed.skip(gone)
            &&& r.open == s.open
            &&& r.evicted_frames == s.evicted_frames + gone * CHUNK
            &&& r.count() == s.count() - gone * CHUNK
            &&& r.over() ==> r.count() < CHUNK
            &&& r.limits == limits
            &&& r.version == bumped(s.version)
        }),
{
    let t = StoreView { limits, ..s };
    assert(t.valid());
    lemma_evicted(t);
    lemma_suffix_stays(t);
}

proof fn lemma_suffix_stays(s: StoreView)
    requires
        s.valid(),
    ensures
        s.evicted().sealed.len() <= s.sealed.len(),
        s.evicted().sealed == s.sealed.skip(s.sealed.len() - s.evicted().sealed.len()),
        s.evicted().limits == s.limits,
        s.evicted().version == s.version,
    decreases s.sealed.len(),
{
    if s.over() && s.sealed.len() > 0 {
        let t = s.without_oldest();
        lemma_without_oldest(s);
        lemma_suffix_stays(t);
        let gone = t.sealed.len() - t.evicted().sealed.len();
        assert(t.sealed.skip(gone) =~= s.sealed.skip(gone + 1));
    } else {
        assert(s.sealed.skip(0) =~= s.sealed);
    }
}

/// What a batch does to the books: its frames get the next numbers whatever
/// numbers they carried, all that was ever taken in is held or counted as
/// evicted, a limit is exceeded only by less than a chunk, and readers can
/// tell that something changed. Frame numbers are 32 bits wide, so this speaks
/// of as many frames as they can number.
pub proof fn a_batch_is_booked(s: StoreView, batch: Seq<Held>)
    requires
        s.valid(),
        s.evicted_frames + s.count() + batch.len() < u32::MAX,
    ensures
        ({
            let r = s.appended(batch);
            &&& r.valid()
            &&& r.next_number == s.next_number + batch.len()
            &&& r.count() + r.evicted_frames == r.next_number - 1
            &&& batch.len() > 0 && r.over() ==> r.count() < CHUNK
            &&& r.version == s.version <==> batch.len() == 0
            &&& forall|k: int|
                0 <= k < r.count() ==> (#[trigger] row(r.sealed, r.open, k)).frame.number
                    == r.next_number - r.count() + k
        }),
{
    numbers_have_no_gap(s, batch);
    evictions_are_counted(s, batch);
    let r = s.appended(batch);
    if batch.len() > 0 {
        limits_are_honoured(s, batch);
        lemma_with_frames(s, batch, 0);
        lemma_suffix_stays(s.with_frames(batch, 0));
        lemma_kept_counts(s, batch, 0);
    }
    assert forall|k: int| 0 <= k < r.count() implies (#[trigger] row(
        r.sealed,
        r.open,
        k,
    )).frame.number == r.next_number - r.count() + k by {
        assert(row(r.sealed, r.open, k).frame.number == after(r.first_number, k));
    }
}

/// Nothing is lost uncounted: every frame and byte ever appended is held or
/// counted as evicted.
pub proof fn evictions_are_counted(s: StoreView, batch: Seq<Held>)
    requires
        s.valid(),
    ensures
        s.appended(batch).evicted_frames + s.appended(batch).count() == s.evicted_frames + s.count()
            + batch.len(),
        s.appended(batch).evicted_bytes + s.appended(batch).bytes() == s.evicted_bytes + s.bytes()
            + total(batch),
{
    if batch.len() > 0 {
        lemma_with_frames(s, batch, 0);
        lemma_evicted(s.with_frames(batch, 0));
        assert(batch.skip(0) =~= batch);
        lemma_kept_counts(s, batch, 0);
    } else {
        assert(total(batch) == 0);
    }
}

proof fn lemma_kept_counts(s: StoreView, batch: Seq<Held>, i: int)
    ensures
        s.with_frames(batch, i).evicted_frames == s.evicted_frames,
        s.with_frames(batch, i).evicted_bytes == s.evicted_bytes,
        s.with_frames(batch, i).limits == s.limits,
        s.with_frames(batch, i).version == s.version,
    decreases batch.len() - i,
{
    if 0 <= i < batch.len() {
        lemma_kept_counts(s.with_frame(batch[i]), batch, i + 1);
    }
}

impl Store {
    /// The store's books are in order.
    pub closed spec fn wf(&self) -> bool {
        &&& self@.valid()
        &&& forall|i: int|
            0 <= i < self.sealed@.len() ==> (#[trigger] self.sealed@[i]).bytes == total(
                all_held(self.sealed@[i].frames@),
            )
        &&& self.open_bytes == total(all_held(self.open@))
        &&& self.bytes == self@.bytes()
        &&& self@.count() <= usize::MAX
        &&& self@.evicted_frames + self@.count() <= u64::MAX
        &&& self@.evicted_bytes + self@.bytes() <= u64::MAX
    }

    /// A store whose books are in order holds what the laws above speak of.
    pub proof fn books_in_order_are_valid(&self)
        requires
            self.wf(),
        ensures
            self@.valid(),
            self@.count() <= usize::MAX,
            self@.evicted_frames + self@.count() <= u64::MAX,
            self@.evicted_bytes + self@.bytes() <= u64::MAX,
    {
    }

    /// The counters have room for a batch.
    pub open spec fn has_room(&self, batch: Seq<Held>) -> bool {
        &&& self@.count() + batch.len() <= usize::MAX
        &&& self@.evicted_frames + self@.count() + batch.len() <= u64::MAX
        &&& self@.evicted_bytes + self@.bytes() + total(batch) <= u64::MAX
    }

    pub fn new(limits: Limits) -> (r: Store)
        ensures
            r.wf(),
            r@ == nothing_held(limits, 0),
    {
        let r = Store {
            sealed: Vec::new(),
            open: Vec::new(),
            open_bytes: 0,
            first_number: 1,
            next_number: 1,
            start_ts: None,
            bytes: 0,
            evicted_frames: 0,
            evicted_bytes: 0,
            limits,
            version: 0,
        };
        assert(r@ =~= nothing_held(limits, 0));
        r
    }

    /// Bumped on every mutation; readers compare it before re-snapshotting.
    pub fn version(&self) -> (r: u64)
        ensures
            r == self@.version,
    {
        self.version
    }

    pub fn limits(&self) -> (r: Limits)
        ensures
            r == self@.limits,
    {
        self.limits
    }

    /// Frame numbers are assigned by the single dequeuing worker so they
    /// follow arrival order even once dissection is parallel; the store
    /// checks continuity rather than numbering.
    pub fn next_number(&self) -> (r: u32)
        ensures
            r == self@.next_number,
    {
        self.next_number
    }

    fn touch(&mut self)
        requires
            old(self).wf(),
        ensures
            final(self).wf(),
            final(self)@ == old(self)@.touched(),
    {
        self.version = if self.version == u64::MAX {
            0
        } else {
            self.version + 1
        };
    }

    /// Replace the limits and evict what exceeds them.
    pub fn set_limits(&mut self, limits: Limits)
        requires
            old(self).wf(),
        ensures
            final(self).wf(),
            final(self)@ == (StoreView { limits, ..old(self)@ }).evicted().touched(),
    {
        self.limits = limits;
        self.evict();
        self.touch();
    }

    /// Seal the open chunk if it is full.
    fn seal(&mut self)
        requires
            old(self).open@.len() <= CHUNK,
            forall|i: int|
                0 <= i < old(self).sealed@.len() ==> (#[trigger] old(self).sealed@[i]).bytes
                    == total(all_held(old(self).sealed@[i].frames@)),
            old(self).open_bytes == total(all_held(old(self).open@)),
        ensures
            final(self)@ == old(self)@.settled(),
            forall|i: int|
                0 <= i < final(self).sealed@.len() ==> (#[trigger] final(self).sealed@[i]).bytes
                    == total(all_held(final(self).sealed@[i].frames@)),
            final(self).open_bytes == total(all_held(final(self).open@)),
            final(self).bytes == old(self).bytes,
    {
        if self.open.len() >= CHUNK {
            let mut frames: Vec<Arc<Frame>> = Vec::new();
            std::mem::swap(&mut frames, &mut self.open);
            let bytes: u64 = self.open_bytes;
            self.open_bytes = 0;
            self.sealed.push(Arc::new(Chunk { frames, bytes }));
            assert(all_held(self.open@) =~= Seq::empty());
            assert(chunks_held(self.sealed@) =~= chunks_held(old(self).sealed@).push(
                all_held(old(self).open@),
            ));
        }
    }

    /// Take in one frame under the next number.
    fn push(&mut self, frame: &Arc<Frame>)
        requires
            old(self).wf(),
            old(self)@.count() < usize::MAX,
            old(self)@.evicted_frames + old(self)@.count() < u64::MAX,
            old(self)@.evicted_bytes + old(self)@.bytes() + charge(**frame) <= u64::MAX,
        ensures
            final(self).wf(),
            final(self)@ == old(self)@.with_frame(held_of(*frame)),
    {
        let ghost s = self@;
        let ghost h = held_of(*frame);
        let number: u32 = self.next_number;
        let frame: Arc<Frame> = if frame.number != number {
            Arc::new(frame.renumbered(number))
        } else {
            share(frame)
        };
        let ghost g = Held { frame: FrameView { number, ..h.frame }, ..h };
        assert(held_of(frame) =~= g);
        let size: u64 = frame.approx_size() as u64;
        proof {
            lemma_total_push(s.open, g);
            lemma_with_frame(s, h);
            assert(s.bytes() >= total(s.open)) by {
                lemma_books(self.sealed@);
            }
        }
        self.next_number = if number == u32::MAX {
            0
        } else {
            number + 1
        };
        if self.start_ts.is_none() {
            self.start_ts = Some(frame.ts);
        }
        self.open_bytes = self.open_bytes + size;
        self.bytes = self.bytes + size;
        self.open.push(frame);
        assert(all_held(self.open@) =~= s.open.push(g));
        self.seal();
    }

    /// Drop the oldest chunks as long as a limit is exceeded.
    fn evict(&mut self)
        requires
            old(self).wf(),
        ensures
            final(self).wf(),
            final(self)@ == old(self)@.evicted(),
    {
        let ghost goal = self@.evicted();
        let mut more: bool = true;
        while more
            invariant
                self.wf(),
                more ==> self@.evicted() == goal,
                !more ==> self@ == goal,
            decreases self@.sealed.len(), (if more {
                1int
            } else {
                0int
            }),
        {
            let ghost s = self@;
            let frames: u64 = self.sealed.len() as u64 * CHUNK as u64 + self.open.len() as u64;
            let over: bool = frames > self.limits.max_frames || self.bytes > self.limits.max_bytes;
            if over && self.sealed.len() > 0 {
                proof {
                    lemma_without_oldest(s);
                    lemma_books(self.sealed@.drop_first());
                    assert(chunks_held(self.sealed@)[0] == all_held(self.sealed@[0].frames@));
                    assert(chunks_held(self.sealed@).drop_first() =~= chunks_held(
                        self.sealed@.drop_first(),
                    ));
                    assert(total_all(s.sealed) == total(s.sealed[0]) + total_all(
                        s.sealed.drop_first(),
                    ));
                    lemma_open_least(self.open@);
                }
                let chunk: Arc<Chunk> = self.sealed.remove(0);
                let n: usize = chunk.frames.len();
                self.bytes = self.bytes - chunk.bytes;
                self.evicted_bytes = self.evicted_bytes + chunk.bytes;
                self.evicted_frames = self.evicted_frames + n as u64;
                self.first_number = ((self.first_number as u64 + n as u64) % 0x1_0000_0000) as u32;
                proof {
                    assert(chunks_held(self.sealed@) =~= s.sealed.drop_first());
                    assert(self@ =~= s.without_oldest());
                }
            } else {
                more = false;
            }
        }
    }

    /// Append a batch in numbering order. Frames whose number does not match
    /// `next_number` are renumbered so the store never holds a gap.
    pub fn append(&mut self, batch: Vec<Arc<Frame>>)
        requires
            old(self).wf(),
            old(self).has_room(all_held(batch@)),
        ensures
            final(self).wf(),
            final(self)@ == old(self)@.appended(all_held(batch@)),
    {
        if batch.len() == 0 {
            return;
        }
        let ghost all = all_held(batch@);
        let ghost goal = self@.with_frames(all, 0);
        let ghost start = self@;
        assert(all.skip(0) =~= all);
        let mut i: usize = 0;
        while i < batch.len()
            invariant
                i <= batch@.len(),
                self.wf(),
                all == all_held(batch@),
                self@.with_frames(all, i as int) == goal,
                self@.count() + all.len() - i <= usize::MAX,
                self@.evicted_frames + self@.count() + all.len() - i <= u64::MAX,
                self@.evicted_bytes + self@.bytes() + total(all.skip(i as int)) <= u64::MAX,
            decreases batch.len() - i,
        {
            proof {
                lemma_total_split(all.skip(i as int));
                assert(all.skip(i as int).drop_first() =~= all.skip(i + 1));
                assert(all[i as int] == held_of(batch@[i as int]));
                lemma_with_frame(self@, all[i as int]);
                lemma_batch_least(batch@, i + 1);
            }
            self.push(&batch[i]);
            i += 1;
        }
        self.evict();
        self.touch();
    }

    /// Forget everything; numbering starts over.
    pub fn clear(&mut self)
        requires
            old(self).wf(),
        ensures
            final(self).wf(),
            final(self)@ == nothing_held(old(self)@.limits, bumped(old(self)@.version)),
    {
        let mut fresh: Store = Store::new(self.limits);
        fresh.version = self.version;
        fresh.touch();
        *self = fresh;
    }

    pub fn stats(&self) -> (r: StoreStats)
        requires
            self.wf(),
        ensures
            r.frames == self@.count(),
            r.bytes == self@.bytes(),
            r.evicted_frames == self@.evicted_frames,
            r.evicted_bytes == self@.evicted_bytes,
            r.next_number == self@.next_number,
    {
        StoreStats {
            frames: self.sealed.len() as u64 * CHUNK as u64 + self.open.len() as u64,
            bytes: self.bytes,
            evicted_frames: self.evicted_frames,
            evicted_bytes: self.evicted_bytes,
            next_number: self.next_number,
        }
    }

    /// What is held at this instant.
    pub fn snapshot(&self) -> (r: Snapshot)
        requires
            self.wf(),
        ensures
            r@ == (SnapshotView {
                frames: rows_of(self@.sealed, self@.open),
                first_number: self@.first_number,
                start_ts: self@.start_ts,
                version: self@.version,
            }),
    {
        let sealed: Vec<Arc<Chunk>> = share_chunks(&self.sealed);
        let open: Vec<Arc<Frame>> = share_frames(&self.open);
        proof {
            assert forall|i: int| 0 <= i < sealed@.len() implies (#[trigger] sealed@[i]).frames@.len()
                == CHUNK by {
                assert(self@.sealed[i].len() == CHUNK);
            }
        }
        Snapshot {
            sealed,
            open,
            first_number: self.first_number,
            start_ts: self.start_ts,
            version: self.version,
        }
    }
}

fn share_chunks(v: &Vec<Arc<Chunk>>) -> (r: Vec<Arc<Chunk>>)
    ensures
        r@ == v@,
{
    let mut out: Vec<Arc<Chunk>> = Vec::new();
    let mut i: usize = 0;
    while i < v.len()
        invariant
            i <= v@.len(),
            out@ =~= v@.take(i as int),
        decreases v.len() - i,
    {
        out.push(share(&v[i]));
        i += 1;
    }
    assert(out@ =~= v@);
    out
}

fn share_frames(v: &Vec<Arc<Frame>>) -> (r: Vec<Arc<Frame>>)
    ensures
        r@ == v@,
{
    let mut out: Vec<Arc<Frame>> = Vec::new();
    let mut i: usize = 0;
    while i < v.len()
        invariant
            i <= v@.len(),
            out@ =~= v@.take(i as int),
        decreases v.len() - i,
    {
        out.push(share(&v[i]));
        i += 1;
    }
    assert(out@ =~= v@);
    out
}

proof fn lemma_charge(f: Frame)
    ensures
        charge(f) >= 0,
{
    lemma_total_len(f@.extra);
    f.tree.rows_are_held();
}

proof fn lemma_total_len(v: Seq<Seq<u8>>)
    ensures
        crate::dissect::total_len(v) >= 0,
    decreases v.len(),
{
    if v.len() > 0 {
        lemma_total_len(v.drop_last());
    }
}

proof fn lemma_open_least(v: Seq<Arc<Frame>>)
    ensures
        total(all_held(v)) >= 0,
{
    assert forall|i: int| 0 <= i < all_held(v).len() implies (#[trigger] all_held(v)[i]).size
        >= 0 by {
        lemma_charge(*v[i]);
    }
    lemma_total_least(all_held(v));
}

proof fn lemma_batch_least(v: Seq<Arc<Frame>>, i: int)
    requires
        0 <= i <= v.len(),
    ensures
        total(all_held(v).skip(i)) >= 0,
{
    assert(all_held(v).skip(i) =~= all_held(v.skip(i)));
    lemma_open_least(v.skip(i));
}

proof fn lemma_books(v: Seq<Arc<Chunk>>)
    ensures
        total_all(chunks_held(v)) >= 0,
    decreases v.len(),
{
    if v.len() > 0 {
        lemma_books(v.drop_first());
        lemma_open_least(v[0].frames@);
        assert(chunks_held(v).drop_first() =~= chunks_held(v.drop_first()));
    }
}

// ---- snapshots ------------------------------------------------------------------

/// The frames in row order.
pub open spec fn rows_of(sealed: Seq<Seq<Held>>, open: Seq<Held>) -> Seq<FrameView> {
    Seq::new((sealed.len() * CHUNK + open.len()) as nat, |k: int| row(sealed, open, k).frame)
}

/// An immutable view of the store at one instant. Cheap to clone.
#[derive(Debug)]
pub struct Snapshot {
    sealed: Vec<Arc<Chunk>>,
    open: Vec<Arc<Frame>>,
    first_number: u32,
    start_ts: Option<Timestamp>,
    version: u64,
}

/// What a snapshot holds.
#[verifier::ext_equal]
pub struct SnapshotView {
    pub frames: Seq<FrameView>,
    pub first_number: u32,
    pub start_ts: Option<Timestamp>,
    pub version: u64,
}

impl View for Snapshot {
    type V = SnapshotView;

    closed spec fn view(&self) -> SnapshotView {
        SnapshotView {
            frames: rows_of(chunks_held(self.sealed@), all_held(self.open@)),
            first_number: self.first_number,
            start_ts: self.start_ts,
            version: self.version,
        }
    }
}

impl Clone for Snapshot {
    fn clone(&self) -> (r: Snapshot)
        ensures
            r@ == self@,
    {
        proof {
            use_type_invariant(self);
        }
        Snapshot {
            sealed: share_chunks(&self.sealed),
            open: share_frames(&self.open),
            first_number: self.first_number,
            start_ts: self.start_ts,
            version: self.version,
        }
    }
}

impl Snapshot {
    #[verifier::type_invariant]
    spec fn sound(self) -> bool {
        &&& forall|i: int|
            0 <= i < self.sealed@.len() ==> (#[trigger] self.sealed@[i]).frames@.len() == CHUNK
        &&& self.open@.len() < CHUNK
        &&& self.sealed@.len() * CHUNK + self.open@.len() <= usize::MAX
        &&& contiguous(chunks_held(self.sealed@), all_held(self.open@), self.first_number)
    }

    /// A snapshot of nothing.
    pub fn empty() -> (r: Snapshot)
        ensures
            r@ == (SnapshotView {
                frames: Seq::empty(),
                first_number: 1,
                start_ts: None,
                version: 0,
            }),
    {
        let r = Snapshot {
            sealed: Vec::new(),
            open: Vec::new(),
            first_number: 1,
            start_ts: None,
            version: 0,
        };
        assert(r@.frames =~= Seq::empty());
        r
    }

    /// Version of the store this was taken from.
    pub fn version(&self) -> (r: u64)
        ensures
            r == self@.version,
    {
        self.version
    }

    pub fn len(&self) -> (r: usize)
        ensures
            r == self@.frames.len(),
    {
        proof {
            use_type_invariant(self);
        }
        self.sealed.len() * CHUNK + self.open.len()
    }

    pub fn is_empty(&self) -> (r: bool)
        ensures
            r == (self@.frames.len() == 0),
    {
        self.len() == 0
    }

    /// Timestamp of the first frame of the capture (not the first held one).
    pub fn start_ts(&self) -> (r: Option<Timestamp>)
        ensures
            r == self@.start_ts,
    {
        self.start_ts
    }

    /// The frame at row `at` (0-based position among held frames).
    pub fn get(&self, at: usize) -> (r: Option<&Arc<Frame>>)
        ensures
            match r {
                Some(f) => at < self@.frames.len() && f@ == self@.frames[at as int],
                None => at >= self@.frames.len(),
            },
    {
        proof {
            use_type_invariant(self);
        }
        let chunk: usize = at / CHUNK;
        let idx: usize = at % CHUNK;
        if chunk < self.sealed.len() {
            let c: &Arc<Chunk> = &self.sealed[chunk];
            assert(chunks_held(self.sealed@)[chunk as int] == all_held(c.frames@));
            Some(&c.frames[idx])
        } else if chunk == self.sealed.len() && idx < self.open.len() {
            Some(&self.open[idx])
        } else {
            None
        }
    }

    /// Row of the frame with `number`, if it is still held.
    pub fn row_of(&self, number: u32) -> (r: Option<usize>)
        ensures
            match r {
                Some(k) => k < self@.frames.len() && number == self@.first_number + k
                    && self@.frames[k as int].number == number,
                None => number < self@.first_number || number - self@.first_number
                    >= self@.frames.len(),
            },
    {
        if number < self.first_number {
            return None;
        }
        let k: usize = (number - self.first_number) as usize;
        if k < self.len() {
            proof {
                use_type_invariant(self);
                assert(row(
                    chunks_held(self.sealed@),
                    all_held(self.open@),
                    k as int,
                ).frame.number == after(self.first_number, k as int));
            }
            Some(k)
        } else {
            None
        }
    }

    /// The frames in row order.
    pub fn iter(&self) -> (r: Vec<&Arc<Frame>>)
        ensures
            r@.len() == self@.frames.len(),
            forall|i: int| 0 <= i < r@.len() ==> (#[trigger] r@[i])@ == self@.frames[i],
    {
        let n: usize = self.len();
        let mut out: Vec<&Arc<Frame>> = Vec::new();
        let mut i: usize = 0;
        while i < n
            invariant
                i <= n == self@.frames.len(),
                out@.len() == i,
                forall|k: int| 0 <= k < i ==> (#[trigger] out@[k])@ == self@.frames[k],
            decreases n - i,
        {
            if let Some(f) = self.get(i) {
                out.push(f);
            }
            i += 1;
        }
        out
    }
}

} // verus!

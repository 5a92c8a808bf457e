//! IPv4 fragment reassembly with a per-datagram size cap, an age timeout and
//! a cap on the number of pending datagrams (oldest evicted first).

use vstd::prelude::*;

use crate::bytes;
use crate::capture::Timestamp;

verus! {

/// (src, dst, id, protocol) identifies a datagram being reassembled.
#[derive(Debug, Clone, Copy, PartialEq, Eq, Hash)]
pub struct FragKey {
    pub src: [u8; 4],
    pub dst: [u8; 4],
    pub id: u16,
    pub proto: u8,
}

/// What a key stands for.
pub struct FragKeyView {
    pub src: Seq<u8>,
    pub dst: Seq<u8>,
    pub id: u16,
    pub proto: u8,
}

impl View for FragKey {
    type V = FragKeyView;

    open spec fn view(&self) -> FragKeyView {
        FragKeyView { src: self.src@, dst: self.dst@, id: self.id, proto: self.proto }
    }
}

impl FragKey {
    fn is_same(&self, other: &FragKey) -> (r: bool)
        ensures
            r == (self@ == other@),
    {
        let src: bool = bytes::same(&self.src, &other.src);
        let dst: bool = bytes::same(&self.dst, &other.dst);
        src && dst && self.id == other.id && self.proto == other.proto
    }
}

/// One fragment as seen in a frame.
#[derive(Debug, Clone, Copy, PartialEq, Eq, Structural)]
pub struct FragInfo {
    pub frame: u32,
    /// Byte offset within the reassembled datagram.
    pub offset: usize,
    pub len: usize,
}

impl FragInfo {
    /// One past the fragment's last byte.
    pub open spec fn end(self) -> int {
        self.offset + self.len
    }

    /// Does the fragment carry byte `i` of the datagram?
    pub open spec fn carries(self, i: int) -> bool {
        self.offset <= i < self.end()
    }
}

/// Byte `i` of the datagram is in one of the fragments.
pub open spec fn covered(frags: Seq<FragInfo>, i: int) -> bool {
    exists|k: int| 0 <= k < frags.len() && (#[trigger] frags[k]).carries(i)
}

/// The fragments are exactly the datagram of `total` bytes: every byte is
/// there, and none reaches past the end.
pub open spec fn whole(frags: Seq<FragInfo>, total: int) -> bool {
    &&& forall|i: int| 0 <= i < total ==> #[trigger] covered(frags, i)
    &&& forall|k: int| 0 <= k < frags.len() ==> (#[trigger] frags[k]).end() <= total
}

/// Every fragment ends at an offset the machine can hold.
pub open spec fn machine_sized(frags: Seq<FragInfo>) -> bool {
    forall|k: int| 0 <= k < frags.len() ==> (#[trigger] frags[k]).end() <= usize::MAX
}

#[derive(Debug)]
struct Pending {
    key: FragKey,
    buf: Vec<u8>,
    /// Byte ranges received, in order and apart from one another.
    have: Vec<(usize, usize)>,
    /// Total length once the last fragment (MF=0) has been seen.
    total: Option<usize>,
    frags: Vec<FragInfo>,
    first_seen: Timestamp,
    last_seen: Timestamp,
}

/// A datagram still short of fragments.
#[verifier::ext_equal]
pub struct PendingView {
    pub key: FragKeyView,
    pub buf: Seq<u8>,
    pub total: Option<usize>,
    pub frags: Seq<FragInfo>,
    pub first_seen: Timestamp,
    pub last_seen: Timestamp,
}

/// In order, and apart from one another.
spec fn apart(have: Seq<(usize, usize)>) -> bool {
    &&& forall|i: int| 0 <= i < have.len() ==> (#[trigger] have[i]).0 <= have[i].1
    &&& forall|i: int, j: int|
        0 <= i < j < have.len() ==> (#[trigger] have[i]).1 < (#[trigger] have[j]).0
}

spec fn holds(have: Seq<(usize, usize)>, i: int) -> bool {
    exists|k: int| 0 <= k < have.len() && (#[trigger] have[k]).0 <= i < have[k].1
}

spec fn within(have: Seq<(usize, usize)>, f: FragInfo) -> bool {
    exists|k: int| 0 <= k < have.len() && (#[trigger] have[k]).0 <= f.offset && f.end() <= have[k].1
}

spec fn ends_at(frags: Seq<FragInfo>, e: int) -> bool {
    exists|k: int| 0 <= k < frags.len() && (#[trigger] frags[k]).end() == e
}

/// `have` says which bytes the fragments carry.
spec fn tallies(have: Seq<(usize, usize)>, frags: Seq<FragInfo>) -> bool {
    &&& apart(have)
    &&& forall|i: int| #[trigger] holds(have, i) ==> covered(frags, i)
    &&& forall|k: int| 0 <= k < frags.len() ==> #[trigger] within(have, frags[k])
    &&& forall|k: int| 0 <= k < have.len() ==> ends_at(frags, (#[trigger] have[k]).1 as int)
}

impl Pending {
    #[verifier::type_invariant]
    spec fn inv(self) -> bool {
        tallies(self.have@, self.frags@) && collected(self.shown())
    }

    spec fn shown(self) -> PendingView {
        PendingView {
            key: self.key@,
            buf: self.buf@,
            total: self.total,
            frags: self.frags@,
            first_seen: self.first_seen,
            last_seen: self.last_seen,
        }
    }
}

#[derive(Debug, PartialEq, Eq)]
pub enum FragResult {
    /// Stored; the datagram is still incomplete.
    Pending { received: usize },
    /// This fragment completed the datagram.
    Complete { data: Vec<u8>, frags: Vec<FragInfo> },
    /// Rejected (over the size cap or inconsistent); not stored.
    Rejected(&'static str),
}

/// What the result of adding a fragment stands for.
#[verifier::ext_equal]
pub enum FragResultView {
    Pending { received: int },
    Complete { data: Seq<u8>, frags: Seq<FragInfo> },
    Rejected(Seq<char>),
}

impl View for FragResult {
    type V = FragResultView;

    open spec fn view(&self) -> FragResultView {
        match self {
            FragResult::Pending { received } => FragResultView::Pending {
                received: *received as int,
            },
            FragResult::Complete { data, frags } => FragResultView::Complete {
                data: data@,
                frags: frags@,
            },
            FragResult::Rejected(why) => FragResultView::Rejected(why@),
        }
    }
}

/// No fragment of the datagram reaches past the bytes collected.
pub open spec fn collected(p: PendingView) -> bool {
    forall|k: int| 0 <= k < p.frags.len() ==> (#[trigger] p.frags[k]).end() <= p.buf.len()
}

/// No datagram is pending twice.
pub open spec fn one_each(s: Seq<PendingView>) -> bool {
    forall|i: int, j: int| 0 <= i < j < s.len() ==> (#[trigger] s[i]).key != (#[trigger] s[j]).key
}

/// What slots stand for.
spec fn all_shown(v: Seq<Pending>) -> Seq<PendingView> {
    v.map_values(|p: Pending| p.shown())
}

/// The datagrams still short of fragments.
#[derive(Debug)]
pub struct Shelf {
    items: Vec<Pending>,
}

impl Shelf {
    #[verifier::type_invariant]
    spec fn inv(self) -> bool {
        &&& one_each(all_shown(self.items@))
        &&& forall|i: int|
            0 <= i < self.items@.len() ==> collected((#[trigger] self.items@[i]).shown())
    }

    /// The datagrams, in the order they were first seen.
    pub closed spec fn held(self) -> Seq<PendingView> {
        all_shown(self.items@)
    }

    fn remove(&mut self, i: usize) -> (r: Pending)
        requires
            i < old(self).held().len(),
        ensures
            final(self).held() == old(self).held().remove(i as int),
            r.shown() == old(self).held()[i as int],
            forall|j: int|
                0 <= j < final(self).held().len() ==> (#[trigger] final(self).held()[j]).key
                    != r.key@,
    {
        proof {
            use_type_invariant(&*self);
        }
        let ghost before = self.held();
        let mut items: Vec<Pending> = Vec::new();
        std::mem::swap(&mut items, &mut self.items);
        let ghost all = items@;
        let p: Pending = items.remove(i);
        proof {
            let less = all_shown(items@);
            assert(less =~= before.remove(i as int));
            assert forall|j: int| 0 <= j < items@.len() implies #[trigger] items@[j] == all[if j
                < i {
                j
            } else {
                j + 1
            }] && less[j] == before[if j < i {
                j
            } else {
                j + 1
            }] by {}
            assert forall|j: int, k: int| 0 <= j < k < less.len() implies (#[trigger] less[j]).key
                != (#[trigger] less[k]).key by {
                assert(items@[j].shown() == less[j] && items@[k].shown() == less[k]);
            }
            assert forall|j: int| 0 <= j < less.len() implies (#[trigger] less[j]).key
                != p.key@ by {
                assert(items@[j].shown() == less[j]);
                assert(before[i as int].key == p.key@);
            }
        }
        self.items = items;
        p
    }

    fn insert(&mut self, i: usize, p: Pending)
        requires
            i <= old(self).held().len(),
            forall|j: int|
                0 <= j < old(self).held().len() ==> (#[trigger] old(self).held()[j]).key
                    != p.key@,
        ensures
            final(self).held() == old(self).held().insert(i as int, p.shown()),
    {
        proof {
            use_type_invariant(&*self);
            use_type_invariant(&p);
        }
        let ghost before = self.held();
        let ghost q = p.shown();
        let mut items: Vec<Pending> = Vec::new();
        std::mem::swap(&mut items, &mut self.items);
        let ghost all = items@;
        items.insert(i, p);
        proof {
            let more = all_shown(items@);
            assert(more =~= before.insert(i as int, q));
            assert forall|j: int| 0 <= j < items@.len() implies #[trigger] more[j] == (if j < i {
                before[j]
            } else if j == i {
                q
            } else {
                before[j - 1]
            }) by {}
            assert forall|j: int| 0 <= j < items@.len() implies collected(
                (#[trigger] items@[j]).shown(),
            ) by {
                if j < i {
                    assert(items@[j] == all[j]);
                } else if j > i {
                    assert(items@[j] == all[j - 1]);
                }
            }
        }
        self.items = items;
    }
}

#[derive(Debug)]
pub struct Reassembly {
    /// The datagrams still short of fragments.
    pub pending: Shelf,
    pub max_datagram: usize,
    pub max_pending: usize,
    pub timeout_secs: i64,
}

/// The datagrams still short of fragments, in the order they were first seen,
/// and the limits.
#[verifier::ext_equal]
pub struct ReassemblyView {
    pub pending: Seq<PendingView>,
    pub max_datagram: usize,
    pub max_pending: usize,
    pub timeout_secs: i64,
}

impl View for Reassembly {
    type V = ReassemblyView;

    open spec fn view(&self) -> ReassemblyView {
        ReassemblyView {
            pending: self.pending.held(),
            max_datagram: self.max_datagram,
            max_pending: self.max_pending,
            timeout_secs: self.timeout_secs,
        }
    }
}

/// No fragment reaches past the bytes collected with it.
pub open spec fn tidy(r: ReassemblyView) -> bool {
    forall|i: int| 0 <= i < r.pending.len() ==> #[trigger] collected(r.pending[i])
}

/// Nothing pending, and the usual limits.
pub open spec fn nothing_pending() -> ReassemblyView {
    ReassemblyView {
        pending: Seq::empty(),
        max_datagram: 65_535,
        max_pending: 1024,
        timeout_secs: 30,
    }
}

/// The position of the datagram with `key`, from `i` on.
pub open spec fn pending_from(s: Seq<PendingView>, key: FragKeyView, i: int) -> Option<int>
    decreases s.len() - i,
{
    if i < 0 || i >= s.len() {
        None
    } else if s[i].key == key {
        Some(i)
    } else {
        pending_from(s, key, i + 1)
    }
}

/// The datagrams whose last fragment came at `limit` or later.
pub open spec fn fresh(s: Seq<PendingView>, limit: int) -> Seq<PendingView>
    decreases s.len(),
{
    if s.len() == 0 {
        Seq::empty()
    } else if s.last().last_seen.secs >= limit {
        fresh(s.drop_last(), limit).push(s.last())
    } else {
        fresh(s.drop_last(), limit)
    }
}

/// The datagram first seen earliest.
pub open spec fn oldest(s: Seq<PendingView>) -> int
    decreases s.len(),
{
    if s.len() <= 1 {
        0
    } else {
        let i = oldest(s.drop_last());
        if s.last().first_seen.earlier_than(s[i].first_seen) {
            s.len() - 1
        } else {
            i
        }
    }
}

/// The oldest is one of them.
pub proof fn lemma_oldest(s: Seq<PendingView>)
    requires
        s.len() > 0,
    ensures
        0 <= oldest(s) < s.len(),
    decreases s.len(),
{
    if s.len() > 1 {
        lemma_oldest(s.drop_last());
    }
}

/// What is left once the oldest have made room for one more.
pub open spec fn roomy(s: Seq<PendingView>, max: int) -> Seq<PendingView>
    decreases s.len(),
{
    if s.len() < max || s.len() == 0 {
        s
    } else {
        proof {
            lemma_oldest(s);
        }
        roomy(s.remove(oldest(s)), max)
    }
}

/// `buf` with `payload` written at `offset`, zero filled up to there.
pub open spec fn overlaid(buf: Seq<u8>, offset: int, payload: Seq<u8>) -> Seq<u8> {
    let end = offset + payload.len();
    Seq::new(
        if buf.len() < end {
            end as nat
        } else {
            buf.len()
        },
        |i: int|
            if offset <= i < end {
                payload[i - offset]
            } else if i < buf.len() {
                buf[i]
            } else {
                0u8
            },
    )
}

/// A datagram of which nothing has come yet.
pub open spec fn just_seen(key: FragKeyView, ts: Timestamp) -> PendingView {
    PendingView {
        key,
        buf: Seq::empty(),
        total: None,
        frags: Seq::empty(),
        first_seen: ts,
        last_seen: ts,
    }
}

/// The total length as far as it is known once a fragment ending at `end` came.
pub open spec fn total_with(total: Option<usize>, more: bool, end: int) -> Option<usize> {
    if more {
        total
    } else {
        Some(end as usize)
    }
}

/// A fragment added to the datagram at `i`.
pub open spec fn absorbed(
    r: ReassemblyView,
    i: int,
    offset: usize,
    more: bool,
    payload: Seq<u8>,
    frame: u32,
    ts: Timestamp,
) -> (ReassemblyView, FragResultView) {
    let p = r.pending[i];
    let end = offset + payload.len();
    let total = total_with(p.total, more, end);
    let gone = ReassemblyView { pending: r.pending.remove(i), ..r };
    let frags = p.frags.push(FragInfo { frame, offset, len: payload.len() as usize });
    let buf = overlaid(p.buf, offset as int, payload);
    if !more && p.total is Some && p.total != Some(end as usize) {
        (gone, FragResultView::Rejected("conflicting total length"@))
    } else if total is Some && end > total->Some_0 {
        (gone, FragResultView::Rejected("fragment beyond datagram end"@))
    } else if total is Some && whole(frags, total->Some_0 as int) {
        (gone, FragResultView::Complete { data: buf, frags })
    } else {
        (
            ReassemblyView {
                pending: r.pending.update(
                    i,
                    PendingView { buf, total, frags, last_seen: ts, ..p },
                ),
                ..r
            },
            FragResultView::Pending { received: frags.len() as int },
        )
    }
}

/// What adding a fragment does: stale datagrams go first, an oversized
/// fragment is rejected, a new datagram makes room for itself, and then the
/// fragment is taken in.
pub open spec fn added(
    r: ReassemblyView,
    key: FragKeyView,
    offset: usize,
    more: bool,
    payload: Seq<u8>,
    frame: u32,
    ts: Timestamp,
) -> (ReassemblyView, FragResultView) {
    let live = ReassemblyView { pending: fresh(r.pending, ts.secs - r.timeout_secs), ..r };
    if offset + payload.len() > r.max_datagram {
        (live, FragResultView::Rejected("fragment exceeds maximum datagram size"@))
    } else {
        match pending_from(live.pending, key, 0) {
            Some(i) => absorbed(live, i, offset, more, payload, frame, ts),
            None => {
                let room = roomy(live.pending, r.max_pending as int);
                absorbed(
                    ReassemblyView { pending: room.push(just_seen(key, ts)), ..live },
                    room.len() as int,
                    offset,
                    more,
                    payload,
                    frame,
                    ts,
                )
            },
        }
    }
}

impl Default for Reassembly {
    fn default() -> (r: Self)
        ensures
            r@ == nothing_pending(),
    {
        Self::new()
    }
}

impl Reassembly {
    pub fn new() -> (r: Reassembly)
        ensures
            r@ == nothing_pending(),
    {
        assert(all_shown(Seq::empty()) =~= Seq::empty());
        let r = Reassembly {
            pending: Shelf { items: Vec::new() },
            max_datagram: 65_535,
            max_pending: 1024,
            timeout_secs: 30,
        };
        assert(r@.pending =~= Seq::empty());
        r
    }

    /// No datagram is pending twice, and none has a fragment that reaches past
    /// the bytes collected: this holds whenever a frame is dissected, and is
    /// recalled here.
    pub fn recall(&self)
        ensures
            one_each(self@.pending),
            tidy(self@),
    {
        proof {
            use_type_invariant(&self.pending);
            assert forall|i: int| 0 <= i < self@.pending.len() implies #[trigger] collected(
                self@.pending[i],
            ) by {
                assert(collected(self.pending.items@[i].shown()));
            }
        }
    }

    pub fn pending_count(&self) -> (r: usize)
        ensures
            r == self@.pending.len(),
    {
        self.pending.items.len()
    }

    fn position(&self, key: &FragKey) -> (r: Option<usize>)
        ensures
            match r {
                Some(i) => i < self.pending.items@.len() && pending_from(self@.pending, key@, 0) == Some(
                    i as int,
                ),
                None => pending_from(self@.pending, key@, 0) is None,
            },
    {
        let mut i: usize = 0;
        while i < self.pending.items.len()
            invariant
                i <= self.pending.items@.len(),
                self@.pending.len() == self.pending.items@.len(),
                pending_from(self@.pending, key@, 0) == pending_from(
                    self@.pending,
                    key@,
                    i as int,
                ),
            decreases self.pending.items.len() - i,
        {
            assert(self@.pending[i as int] == self.pending.items@[i as int].shown());
            if self.pending.items[i].key.is_same(key) {
                return Some(i);
            }
            i += 1;
        }
        None
    }

    /// Drop datagrams whose last fragment is older than the timeout.
    pub fn expire(&mut self, now: Timestamp)
        ensures
            final(self)@ == (ReassemblyView {
                pending: fresh(old(self)@.pending, now.secs - old(self)@.timeout_secs),
                ..old(self)@
            }),
    {
        let cutoff: i128 = now.secs as i128 - self.timeout_secs as i128;
        let mut i: usize = self.pending.items.len();
        let ghost tail = Seq::<PendingView>::empty();
        let ghost whole0 = self@.pending;
        assert(whole0.take(i as int) =~= whole0);
        assert(fresh(whole0, cutoff as int) + tail =~= fresh(whole0, cutoff as int));
        while i > 0
            invariant
                i <= self.pending.items@.len(),
                self@.pending.len() == self.pending.items@.len(),
                self@.pending == self@.pending.take(i as int) + tail,
                fresh(whole0, cutoff as int) == fresh(self@.pending.take(i as int), cutoff as int)
                    + tail,
                self@ == (ReassemblyView { pending: self@.pending, ..old(self)@ }),
            decreases i,
        {
            i -= 1;
            let ghost before = self@.pending;
            assert(before[i as int] == self.pending.items@[i as int].shown());
            assert(before.take(i + 1).drop_last() =~= before.take(i as int));
            if (self.pending.items[i].last_seen.secs as i128) < cutoff {
                let _ = self.pending.remove(i);
                assert(self@.pending =~= before.remove(i as int));
                assert(self@.pending.take(i as int) =~= before.take(i as int));
                assert(self@.pending =~= self@.pending.take(i as int) + tail);
            } else {
                proof {
                    let longer = seq![before[i as int]] + tail;
                    assert(fresh(before.take(i as int), cutoff as int).push(before[i as int])
                        + tail =~= fresh(before.take(i as int), cutoff as int) + longer);
                    assert(self@.pending =~= self@.pending.take(i as int) + longer);
                    tail = longer;
                }
            }
        }
        assert(self@.pending.take(0) =~= Seq::empty());
        assert(self@.pending =~= tail);
        assert(fresh(self@.pending.take(0), cutoff as int) + tail =~= tail);
    }

    fn evict_oldest(&mut self)
        requires
            old(self).pending.items@.len() > 0,
        ensures
            final(self)@ == (ReassemblyView {
                pending: old(self)@.pending.remove(oldest(old(self)@.pending)),
                ..old(self)@
            }),
            final(self).pending.items@.len() == old(self).pending.items@.len() - 1,
    {
        let ghost s = self@.pending;
        let mut best: usize = 0;
        let mut i: usize = 1;
        while i < self.pending.items.len()
            invariant
                1 <= i <= self.pending.items@.len(),
                best < i,
                s == all_shown(self.pending.items@),
                best == oldest(s.take(i as int)),
            decreases self.pending.items.len() - i,
        {
            assert(s.take(i + 1).drop_last() =~= s.take(i as int));
            assert(s.take(i + 1)[best as int] == s[best as int]);
            if self.pending.items[i].first_seen.earlier(self.pending.items[best].first_seen) {
                best = i;
            }
            i += 1;
        }
        assert(s.take(s.len() as int) =~= s);
        let _ = self.pending.remove(best);
        assert(self@.pending =~= s.remove(best as int));
    }

    fn make_room(&mut self)
        ensures
            final(self)@ == (ReassemblyView {
                pending: roomy(old(self)@.pending, old(self)@.max_pending as int),
                ..old(self)@
            }),
    {
        while self.pending.items.len() >= self.max_pending && self.pending.items.len() > 0
            invariant
                self@.max_pending == old(self)@.max_pending,
                self@ == (ReassemblyView { pending: self@.pending, ..old(self)@ }),
                self@.pending.len() == self.pending.items@.len(),
                roomy(self@.pending, self@.max_pending as int) == roomy(
                    old(self)@.pending,
                    old(self)@.max_pending as int,
                ),
            decreases self.pending.items.len(),
        {
            self.evict_oldest();
        }
    }

    /// Add a fragment. `offset` is in bytes (already multiplied by 8).
    pub fn add(
        &mut self,
        key: FragKey,
        offset: usize,
        more: bool,
        payload: &[u8],
        frame: u32,
        ts: Timestamp,
    ) -> (r: FragResult)
        ensures
            (final(self)@, r@) == added(old(self)@, key@, offset, more, payload@, frame, ts),
            r matches FragResult::Complete { frags, .. } ==> machine_sized(frags@),
            one_each(old(self)@.pending),
            tidy(old(self)@),
    {
        self.recall();
        self.expire(ts);
        if payload.len() > self.max_datagram || offset > self.max_datagram - payload.len() {
            return FragResult::Rejected("fragment exceeds maximum datagram size");
        }
        let end: usize = offset + payload.len();
        let ghost live = self@.pending;
        let i: usize = match self.position(&key) {
            Some(i) => i,
            None => {
                self.make_room();
                let p = Pending {
                    key,
                    buf: Vec::new(),
                    have: Vec::new(),
                    total: None,
                    frags: Vec::new(),
                    first_seen: ts,
                    last_seen: ts,
                };
                let ghost before = self@.pending;
                assert(p.shown() =~= just_seen(key@, ts));
                proof {
                    lemma_absent(live, key@, 0);
                    lemma_absent_kept(live, key@, 0, self@.max_pending as int);
                }
                self.pending.insert(self.pending.items.len(), p);
                assert(self@.pending =~= before.push(just_seen(key@, ts)));
                self.pending.items.len() - 1
            },
        };
        let ghost s = self@.pending;
        assert(s[i as int] == self.pending.items@[i as int].shown());
        let p: Pending = self.pending.remove(i);
        assert(self@.pending =~= s.remove(i as int));
        if !more {
            if let Some(t) = p.total {
                if t != end {
                    return FragResult::Rejected("conflicting total length");
                }
            }
        }
        let total: Option<usize> = if more {
            p.total
        } else {
            Some(end)
        };
        if let Some(t) = total {
            if end > t {
                return FragResult::Rejected("fragment beyond datagram end");
            }
        }
        let p: Pending = take_in(p, offset, total, payload, frame, ts);
        let complete: bool = match total {
            Some(t) => p.is_whole(t),
            None => false,
        };
        if complete {
            FragResult::Complete { data: p.buf, frags: p.frags }
        } else {
            let received: usize = p.frags.len();
            let ghost q = p.shown();
            self.pending.insert(i, p);
            assert(self@.pending =~= s.update(i as int, q));

            FragResult::Pending { received }
        }
    }
}

impl Pending {
    fn is_whole(&self, t: usize) -> (r: bool)
        requires
            self.frags@.len() > 0,
        ensures
            r == whole(self.frags@, t as int),
    {
        proof {
            use_type_invariant(self);
            lemma_whole(self.have@, self.frags@, t as int);
        }
        self.have.len() == 1 && self.have[0].0 == 0 && self.have[0].1 == t
    }
}

/// The datagram with one more fragment.
fn take_in(
    p: Pending,
    offset: usize,
    total: Option<usize>,
    payload: &[u8],
    frame: u32,
    ts: Timestamp,
) -> (r: Pending)
    requires
        offset + payload@.len() <= usize::MAX,
    ensures
        r.shown() == (PendingView {
            buf: overlaid(p.buf@, offset as int, payload@),
            total,
            frags: p.frags@.push(FragInfo { frame, offset, len: payload@.len() as usize }),
            last_seen: ts,
            ..p.shown()
        }),
{
    proof {
        use_type_invariant(&p);
    }
    let end: usize = offset + payload.len();
    let ghost old_frags = p.frags@;
    let ghost shown = p.shown();
    let ghost old_have = p.have@;
    let mut buf: Vec<u8> = p.buf;
    let ghost old_buf = buf@;
    while buf.len() < end
        invariant
            old_buf.len() <= buf@.len(),
            buf@.len() <= (if old_buf.len() < end {
                end as nat
            } else {
                old_buf.len()
            }),
            buf@ =~= Seq::new(
                buf@.len(),
                |i: int|
                    if i < old_buf.len() {
                        old_buf[i]
                    } else {
                        0u8
                    },
            ),
        decreases end - buf.len(),
    {
        buf.push(0);
    }
    let ghost grown = buf@;
    let mut j: usize = 0;
    while j < payload.len()
        invariant
            j <= payload@.len(),
            end == offset + payload@.len(),
            end <= grown.len(),
            buf@.len() == grown.len(),
            forall|k: int|
                0 <= k < grown.len() ==> #[trigger] buf@[k] == (if offset <= k < offset + j {
                    payload@[k - offset]
                } else {
                    grown[k]
                }),
        decreases payload.len() - j,
    {
        buf[offset + j] = payload[j];
        j += 1;
    }
    assert(buf@ =~= overlaid(old_buf, offset as int, payload@));
    let info = FragInfo { frame, offset, len: payload.len() };
    let mut frags: Vec<FragInfo> = p.frags;
    frags.push(info);
    let have: Vec<(usize, usize)> = merge_range(&p.have, offset, end);
    proof {
        lemma_tallies(old_have, old_frags, have@, info);
        assert forall|k: int| 0 <= k < frags@.len() implies (#[trigger] frags@[k]).end()
            <= buf@.len() by {
            if k < old_frags.len() {
                assert(shown.frags[k].end() <= shown.buf.len());
            }
        }
    }
    Pending { key: p.key, buf, have, total, frags, first_seen: p.first_seen, last_seen: ts }
}

/// `after` is `have` with the range from `s` to `e` merged in.
spec fn merged(
    have: Seq<(usize, usize)>,
    s: int,
    e: int,
    after: Seq<(usize, usize)>,
) -> bool {
    &&& apart(after)
    &&& exists|k: int|
        0 <= k < after.len() && (#[trigger] after[k]).0 <= s && e <= after[k].1
    &&& forall|k: int|
        0 <= k < have.len() ==> inside((#[trigger] have[k]).0 as int, have[k].1 as int, after)
    &&& forall|i: int| #[trigger] holds(after, i) ==> holds(have, i) || s <= i < e
    &&& forall|k: int|
        0 <= k < after.len() ==> (#[trigger] after[k]).1 == e || exists|m: int|
            0 <= m < have.len() && after[k].1 == (#[trigger] have[m]).1
}

spec fn inside(s: int, e: int, after: Seq<(usize, usize)>) -> bool {
    exists|k: int| 0 <= k < after.len() && (#[trigger] after[k]).0 <= s && e <= after[k].1
}

/// Insert a range into a sorted list of disjoint ranges, merging neighbours.
fn merge_range(have: &Vec<(usize, usize)>, start: usize, end: usize) -> (r: Vec<(usize, usize)>)
    requires
        apart(have@),
        start <= end,
    ensures
        merged(have@, start as int, end as int, r@),
{
    let mut out: Vec<(usize, usize)> = Vec::new();
    let mut i: usize = 0;
    while i < have.len() && have[i].1 < start
        invariant
            i <= have@.len(),
            out@ == have@.take(i as int),
            forall|k: int| 0 <= k < i ==> (#[trigger] have@[k]).1 < start,
        decreases have.len() - i,
    {
        out.push(have[i]);
        i += 1;
    }
    let ghost lo = i as int;
    let mut s: usize = start;
    let mut e: usize = end;
    while i < have.len() && have[i].0 <= end
        invariant
            apart(have@),
            0 <= lo <= i <= have@.len(),
            s <= start,
            s <= e,
            end <= e,
            start <= end,
            forall|k: int| lo <= k < i ==> s <= (#[trigger] have@[k]).0,
            forall|k: int| lo <= k < i ==> (#[trigger] have@[k]).1 <= e,
            forall|k: int| lo <= k < i ==> (#[trigger] have@[k]).0 <= end,
            s == start || (lo < i && s == have@[lo].0),
            e == end || (lo < i && e == have@[i - 1].1),
            lo < have@.len() ==> have@[lo].1 >= start,
        decreases have.len() - i,
    {
        proof {
            if i > lo {
                assert(have@[lo].1 < have@[i as int].0);
                assert(have@[i - 1].1 < have@[i as int].0);
            }
        }
        if have[i].0 < s {
            s = have[i].0;
        }
        if have[i].1 > e {
            e = have[i].1;
        }
        i += 1;
    }
    let ghost hi = i as int;
    out.push((s, e));
    let ghost front = out@;
    while i < have.len()
        invariant
            0 <= hi <= i <= have@.len(),
            out@ == front + have@.subrange(hi, i as int),
        decreases have.len() - i,
    {
        assert(have@.subrange(hi, i + 1) =~= have@.subrange(hi, i as int).push(have@[i as int]));
        out.push(have[i]);
        i += 1;
    }
    proof {
        lemma_merged(have@, start as int, end as int, lo, hi, s, e, out@);
    }
    out
}

#[verifier::spinoff_prover]
#[verifier::rlimit(40)]
proof fn lemma_merged(
    have: Seq<(usize, usize)>,
    start: int,
    end: int,
    lo: int,
    hi: int,
    s: usize,
    e: usize,
    out: Seq<(usize, usize)>,
)
    requires
        apart(have),
        start <= end,
        0 <= lo <= hi <= have.len(),
        s <= start,
        end <= e,
        forall|k: int| 0 <= k < lo ==> (#[trigger] have[k]).1 < start,
        forall|k: int| lo <= k < hi ==> s <= (#[trigger] have[k]).0,
        forall|k: int| lo <= k < hi ==> (#[trigger] have[k]).1 <= e,
        forall|k: int| lo <= k < hi ==> (#[trigger] have[k]).0 <= end,
        lo < have.len() ==> have[lo].1 >= start,
        hi < have.len() ==> have[hi].0 > end,
        s == start || (lo < hi && s == have[lo].0),
        e == end || (lo < hi && e == have[hi - 1].1),
        out == have.take(lo).push((s, e)) + have.subrange(hi, have.len() as int),
    ensures
        merged(have, start, end, out),
{
    assert(out.len() == lo + 1 + have.len() - hi);
    assert forall|k: int| 0 <= k < out.len() implies #[trigger] out[k] == (if k < lo {
        have[k]
    } else if k == lo {
        (s, e)
    } else {
        have[k - lo - 1 + hi]
    }) by {}
    assert(out[lo].0 <= start && end <= out[lo].1);
    assert(apart(out)) by {
        assert forall|i: int, j: int| 0 <= i < j < out.len() implies (#[trigger] out[i]).1 < (
        #[trigger] out[j]).0 by {
            if i < lo && j == lo {
                if s != start {
                    assert(have[i].1 < have[lo].0);
                }
            } else if i == lo {
                let b = j - lo - 1 + hi;
                if e != end {
                    assert(have[hi - 1].1 < have[b].0);
                } else {
                    if b > hi {
                        assert(have[hi].1 < have[b].0);
                    }
                }
            }
        }
    }
    assert forall|k: int| 0 <= k < have.len() implies inside(
        (#[trigger] have[k]).0 as int,
        have[k].1 as int,
        out,
    ) by {
        if k < lo {
            assert(out[k] == have[k]);
        } else if k < hi {
            assert(out[lo].0 <= have[k].0);
        } else {
            assert(out[k - hi + lo + 1] == have[k]);
        }
    }
    assert forall|i: int| #[trigger] holds(out, i) implies holds(have, i) || start <= i < end by {
        let k = choose|k: int| 0 <= k < out.len() && (#[trigger] out[k]).0 <= i < out[k].1;
        if k < lo {
            assert(have[k].0 <= i < have[k].1);
        } else if k > lo {
            assert(have[k - lo - 1 + hi].0 <= i < have[k - lo - 1 + hi].1);
        } else if i < start {
            assert(have[lo].0 <= i < have[lo].1);
        } else if i >= end {
            assert(have[hi - 1].0 <= i < have[hi - 1].1);
        }
    }
    assert forall|k: int| 0 <= k < out.len() implies (#[trigger] out[k]).1 == end || exists|m: int|
        0 <= m < have.len() && out[k].1 == (#[trigger] have[m]).1 by {
        if k < lo {
            assert(out[k].1 == have[k].1);
        } else if k == lo {
            if e != end {
                assert(out[k].1 == have[hi - 1].1);
            }
        } else {
            assert(out[k].1 == have[k - lo - 1 + hi].1);
        }
    }
}

proof fn lemma_tallies(
    have: Seq<(usize, usize)>,
    frags: Seq<FragInfo>,
    after: Seq<(usize, usize)>,
    info: FragInfo,
)
    requires
        tallies(have, frags),
        merged(have, info.offset as int, info.end(), after),
    ensures
        tallies(after, frags.push(info)),
{
    let more = frags.push(info);
    assert(more[frags.len() as int] == info);
    assert forall|i: int| #[trigger] holds(after, i) implies covered(more, i) by {
        if info.offset <= i < info.end() {
            assert(more[frags.len() as int].carries(i));
        } else {
            assert(covered(frags, i));
            let k = choose|k: int| 0 <= k < frags.len() && (#[trigger] frags[k]).carries(i);
            assert(more[k].carries(i));
        }
    }
    assert forall|k: int| 0 <= k < more.len() implies #[trigger] within(after, more[k]) by {
        if k < frags.len() {
            assert(within(have, frags[k]));
            let m = choose|m: int|
                0 <= m < have.len() && (#[trigger] have[m]).0 <= frags[k].offset && frags[k].end()
                    <= have[m].1;
            assert(inside(have[m].0 as int, have[m].1 as int, after));
            let n = choose|n: int|
                0 <= n < after.len() && (#[trigger] after[n]).0 <= have[m].0 && have[m].1
                    <= after[n].1;
            assert(after[n].0 <= more[k].offset && more[k].end() <= after[n].1);
        } else {
            let n = choose|n: int|
                0 <= n < after.len() && (#[trigger] after[n]).0 <= info.offset && info.end()
                    <= after[n].1;
            assert(after[n].0 <= more[k].offset);
        }
    }
    assert forall|k: int| 0 <= k < after.len() implies ends_at(
        more,
        (#[trigger] after[k]).1 as int,
    ) by {
        if after[k].1 == info.end() {
            assert(more[frags.len() as int].end() == after[k].1);
        } else {
            let m = choose|m: int| 0 <= m < have.len() && after[k].1 == (#[trigger] have[m]).1;
            assert(ends_at(frags, have[m].1 as int));
            let n = choose|n: int| 0 <= n < frags.len() && (#[trigger] frags[n]).end() == have[m].1;
            assert(more[n].end() == after[k].1);
        }
    }
}

proof fn lemma_whole(have: Seq<(usize, usize)>, frags: Seq<FragInfo>, t: int)
    requires
        tallies(have, frags),
        frags.len() > 0,
        0 <= t,
    ensures
        whole(frags, t) <==> (have.len() == 1 && have[0].0 == 0 && have[0].1 == t),
{
    if have.len() == 1 && have[0].0 == 0 && have[0].1 == t {
        assert forall|i: int| 0 <= i < t implies #[trigger] covered(frags, i) by {
            assert(have[0].0 <= i < have[0].1);
            assert(holds(have, i));
        }
        assert forall|k: int| 0 <= k < frags.len() implies (#[trigger] frags[k]).end() <= t by {
            assert(within(have, frags[k]));
        }
    }
    if whole(frags, t) {
        assert(within(have, frags[0]));
        assert forall|k: int| 0 <= k < have.len() implies (#[trigger] have[k]).1 <= t by {
            assert(ends_at(frags, have[k].1 as int));
        }
        if t > 0 {
            lemma_covered_holds(have, frags, 0);
            let k = choose|k: int| 0 <= k < have.len() && (#[trigger] have[k]).0 <= 0 < have[k].1;
            if k > 0 {
                assert(have[0].1 < have[k].0);
            }
            if have[0].1 < t {
                assert(covered(frags, have[0].1 as int));
                lemma_covered_holds(have, frags, have[0].1 as int);
                let m = choose|m: int|
                    0 <= m < have.len() && (#[trigger] have[m]).0 <= have[0].1 < have[m].1;
                if m > 0 {
                    assert(have[0].1 < have[m].0);
                }
            }
        }
        if have.len() > 1 {
            assert(have[0].1 < have[1].0);
        }
    }
}

proof fn lemma_covered_holds(have: Seq<(usize, usize)>, frags: Seq<FragInfo>, i: int)
    requires
        tallies(have, frags),
        covered(frags, i),
    ensures
        holds(have, i),
{
    let k = choose|k: int| 0 <= k < frags.len() && (#[trigger] frags[k]).carries(i);
    assert(within(have, frags[k]));
    let m = choose|m: int|
        0 <= m < have.len() && (#[trigger] have[m]).0 <= frags[k].offset && frags[k].end()
            <= have[m].1;
    assert(have[m].0 <= i < have[m].1);
}

spec fn absent(s: Seq<PendingView>, key: FragKeyView) -> bool {
    forall|j: int| 0 <= j < s.len() ==> (#[trigger] s[j]).key != key
}

proof fn lemma_absent(s: Seq<PendingView>, key: FragKeyView, i: int)
    requires
        0 <= i,
        pending_from(s, key, i) is None,
    ensures
        forall|j: int| i <= j < s.len() ==> (#[trigger] s[j]).key != key,
    decreases s.len() - i,
{
    if i < s.len() {
        lemma_absent(s, key, i + 1);
    }
}

proof fn lemma_absent_kept(s: Seq<PendingView>, key: FragKeyView, limit: int, max: int)
    requires
        absent(s, key),
    ensures
        absent(fresh(s, limit), key),
        absent(roomy(s, max), key),
    decreases s.len(),
{
    if s.len() > 0 {
        lemma_absent_kept(s.drop_last(), key, limit, max);
        lemma_oldest(s);
        lemma_absent_kept(s.remove(oldest(s)), key, limit, max);
    }
}

proof fn lemma_last(s: Seq<PendingView>, p: PendingView, i: int)
    requires
        0 <= i <= s.len(),
        absent(s, p.key),
    ensures
        pending_from(s.push(p), p.key, i) == Some(s.len() as int),
    decreases s.len() - i,
{
    if i < s.len() {
        assert(s.push(p)[i] == s[i]);
        lemma_last(s, p, i + 1);
    }
}

/// The halves of a datagram give back the whole, whichever comes first, if
/// the second comes before the first is dropped for its age.
pub proof fn halves_complete_in_either_order(
    r: ReassemblyView,
    key: FragKeyView,
    front: Seq<u8>,
    back: Seq<u8>,
    front_first: bool,
    frames: (u32, u32),
    then: Timestamp,
    now: Timestamp,
)
    requires
        pending_from(fresh(r.pending, then.secs - r.timeout_secs), key, 0) is None,
        front.len() > 0,
        front.len() + back.len() <= r.max_datagram,
        now.secs - r.timeout_secs <= then.secs,
    ensures
        ({
            let n = front.len() as usize;
            let (mid, first) = if front_first {
                added(r, key, 0, true, front, frames.0, then)
            } else {
                added(r, key, n, false, back, frames.0, then)
            };
            let (end, second) = if front_first {
                added(mid, key, n, false, back, frames.1, now)
            } else {
                added(mid, key, 0, true, front, frames.1, now)
            };
            &&& first == FragResultView::Pending { received: 1 }
            &&& second matches FragResultView::Complete { data, .. } && data == front + back
        }),
{
    let n = front.len() as usize;
    let live = fresh(r.pending, then.secs - r.timeout_secs);
    let room = roomy(live, r.max_pending as int);
    lemma_absent(live, key, 0);
    lemma_absent_kept(live, key, 0, r.max_pending as int);
    let (mid, first) = if front_first {
        added(r, key, 0, true, front, frames.0, then)
    } else {
        added(r, key, n, false, back, frames.0, then)
    };
    let one = FragInfo {
        frame: frames.0,
        offset: if front_first {
            0
        } else {
            n
        },
        len: if front_first {
            n
        } else {
            back.len() as usize
        },
    };
    let p0 = just_seen(key, then);
    assert(room.push(p0)[room.len() as int] == p0);
    let p = PendingView {
        buf: overlaid(
            Seq::empty(),
            one.offset as int,
            if front_first {
                front
            } else {
                back
            },
        ),
        total: if front_first {
            None
        } else {
            Some((n + back.len()) as usize)
        },
        frags: Seq::empty().push(one),
        ..p0
    };
    if !front_first {
        assert(!covered(p.frags, 0));
    }
    assert(mid.pending =~= room.push(p));
    let limit = now.secs - r.timeout_secs;
    assert(room.push(p).drop_last() =~= room);
    assert(fresh(mid.pending, limit) == fresh(room, limit).push(p));
    lemma_absent_kept(room, key, limit, 0);
    lemma_last(fresh(room, limit), p, 0);
    let s = fresh(room, limit).push(p);
    assert(s[fresh(room, limit).len() as int] == p);
    let two = FragInfo {
        frame: frames.1,
        offset: if front_first {
            n
        } else {
            0
        },
        len: if front_first {
            back.len() as usize
        } else {
            n
        },
    };
    let frags = p.frags.push(two);
    assert(frags[0] == one && frags[1] == two);
    assert forall|i: int| 0 <= i < n + back.len() implies #[trigger] covered(frags, i) by {
        assert(frags[0].carries(i) || frags[1].carries(i));
    }
    assert(whole(frags, n + back.len()));
    let data = overlaid(
        p.buf,
        two.offset as int,
        if front_first {
            back
        } else {
            front
        },
    );
    assert(data =~= front + back);
}

/// A fragment of a datagram: where it belongs, whether more follow, what it
/// carries, and the frame it came in.
#[verifier::ext_equal]
pub struct Part {
    pub offset: usize,
    pub more: bool,
    pub payload: Seq<u8>,
    pub frame: u32,
}

impl Part {
    pub open spec fn end(self) -> int {
        self.offset + self.payload.len()
    }

    pub open spec fn info(self) -> FragInfo {
        FragInfo { frame: self.frame, offset: self.offset, len: self.payload.len() as usize }
    }
}

/// One of the parts carries byte `i`.
pub open spec fn carried(parts: Seq<Part>, i: int) -> bool {
    exists|k: int| 0 <= k < parts.len() && (#[trigger] parts[k]).offset <= i < parts[k].end()
}

/// The parts are a datagram of `len` bytes cut up: none is empty, no two
/// overlap, together they are all of it, and only the one at its end says that
/// no more follow.
pub open spec fn cut_up(parts: Seq<Part>, len: int) -> bool {
    &&& forall|k: int|
        0 <= k < parts.len() ==> (#[trigger] parts[k]).payload.len() > 0 && parts[k].end() <= len
            && (parts[k].more <==> parts[k].end() < len)
    &&& forall|j: int, k: int|
        0 <= j < k < parts.len() ==> (#[trigger] parts[j]).end() <= (#[trigger] parts[k]).offset
            || parts[k].end() <= parts[j].offset
    &&& forall|i: int| 0 <= i < len ==> #[trigger] carried(parts, i)
}

/// After the first `n` parts have come.
pub open spec fn after_parts(
    r: ReassemblyView,
    key: FragKeyView,
    parts: Seq<Part>,
    ts: Timestamp,
    n: int,
) -> ReassemblyView
    decreases n,
{
    if n <= 0 {
        r
    } else {
        let p = parts[n - 1];
        added(
            after_parts(r, key, parts, ts, n - 1),
            key,
            p.offset,
            p.more,
            p.payload,
            p.frame,
            ts,
        ).0
    }
}

/// What came of part `n`.
pub open spec fn outcome_of(
    r: ReassemblyView,
    key: FragKeyView,
    parts: Seq<Part>,
    ts: Timestamp,
    n: int,
) -> FragResultView {
    let p = parts[n];
    added(
        after_parts(r, key, parts, ts, n),
        key,
        p.offset,
        p.more,
        p.payload,
        p.frame,
        ts,
    ).1
}

/// The bytes hold the first `n` parts where they belong.
pub open spec fn pieced(buf: Seq<u8>, parts: Seq<Part>, n: int) -> bool {
    forall|k: int|
        0 <= k < n ==> (#[trigger] parts[k]).end() <= buf.len() && buf.subrange(
            parts[k].offset as int,
            parts[k].end(),
        ) == parts[k].payload
}

/// The last part is among the first `n`.
spec fn last_seen_in(parts: Seq<Part>, n: int) -> bool {
    exists|k: int| 0 <= k < n && !(#[trigger] parts[k]).more
}

/// `p` is what is pending after `n` of the parts.
spec fn held_after(
    p: PendingView,
    key: FragKeyView,
    parts: Seq<Part>,
    len: int,
    ts: Timestamp,
    n: int,
) -> bool {
    &&& p.key == key
    &&& p.last_seen == ts
    &&& p.frags == parts.take(n).map_values(|x: Part| x.info())
    &&& p.buf.len() <= len
    &&& pieced(p.buf, parts, n)
    &&& p.total == (if last_seen_in(parts, n) {
        Some(len as usize)
    } else {
        None::<usize>
    })
}

proof fn lemma_fresh_stays(s: Seq<PendingView>, limit: int)
    ensures
        fresh(fresh(s, limit), limit) == fresh(s, limit),
        forall|i: int|
            0 <= i < fresh(s, limit).len() ==> (#[trigger] fresh(s, limit)[i]).last_seen.secs
                >= limit,
    decreases s.len(),
{
    if s.len() > 0 {
        lemma_fresh_stays(s.drop_last(), limit);
        let less = fresh(s.drop_last(), limit);
        if s.last().last_seen.secs >= limit {
            assert(less.push(s.last()).drop_last() =~= less);
        }
    }
}

proof fn lemma_all_fresh(s: Seq<PendingView>, limit: int)
    requires
        forall|i: int| 0 <= i < s.len() ==> (#[trigger] s[i]).last_seen.secs >= limit,
    ensures
        fresh(s, limit) == s,
    decreases s.len(),
{
    if s.len() > 0 {
        let front = s.drop_last();
        assert forall|i: int| 0 <= i < front.len() implies (#[trigger] front[i]).last_seen.secs
            >= limit by {
            assert(front[i] == s[i]);
        }
        lemma_all_fresh(front, limit);
        assert(s[s.len() - 1] == s.last());
        assert(front.push(s.last()) =~= s);
    }
}

proof fn lemma_roomy_fresh(s: Seq<PendingView>, max: int, limit: int)
    requires
        forall|i: int| 0 <= i < s.len() ==> (#[trigger] s[i]).last_seen.secs >= limit,
    ensures
        forall|i: int|
            0 <= i < roomy(s, max).len() ==> (#[trigger] roomy(s, max)[i]).last_seen.secs >= limit,
    decreases s.len(),
{
    if s.len() >= max && s.len() > 0 {
        lemma_oldest(s);
        let less = s.remove(oldest(s));
        assert forall|i: int| 0 <= i < less.len() implies (#[trigger] less[i]).last_seen.secs
            >= limit by {
            assert(less[i] == s[if i < oldest(s) {
                i
            } else {
                i + 1
            }]);
        }
        lemma_roomy_fresh(less, max, limit);
    }
}

/// One more part written beside those that are there.
proof fn lemma_pieced(buf: Seq<u8>, parts: Seq<Part>, len: int, n: int)
    requires
        cut_up(parts, len),
        0 <= n < parts.len(),
        buf.len() <= len,
        pieced(buf, parts, n),
    ensures
        ({
            let after = overlaid(buf, parts[n].offset as int, parts[n].payload);
            pieced(after, parts, n + 1) && after.len() <= len
        }),
{
    let p = parts[n];
    let after = overlaid(buf, p.offset as int, p.payload);
    assert forall|k: int| 0 <= k < n + 1 implies (#[trigger] parts[k]).end() <= after.len()
        && after.subrange(parts[k].offset as int, parts[k].end()) == parts[k].payload by {
        let q = parts[k];
        if k < n {
            assert(q.end() <= p.offset || p.end() <= q.offset);
            assert(buf.subrange(q.offset as int, q.end()) == q.payload);
            assert(after.subrange(q.offset as int, q.end()) =~= buf.subrange(
                q.offset as int,
                q.end(),
            ));
        } else {
            assert(after.subrange(q.offset as int, q.end()) =~= q.payload);
        }
    }
}

/// Short of the last to come, some byte is missing.
proof fn lemma_not_whole(parts: Seq<Part>, len: int, n: int)
    requires
        cut_up(parts, len),
        0 <= n < parts.len(),
        len <= usize::MAX,
    ensures
        !whole(parts.take(n).map_values(|x: Part| x.info()), len),
{
    let frags = parts.take(n).map_values(|x: Part| x.info());
    let i = parts[n].offset as int;
    assert(parts[n].payload.len() > 0 && parts[n].end() <= len);
    if covered(frags, i) {
        let k = choose|k: int| 0 <= k < frags.len() && (#[trigger] frags[k]).carries(i);
        assert(frags[k] == parts[k].info());
        assert(parts[k].end() <= len);
        assert(parts[k].end() <= parts[n].offset || parts[n].end() <= parts[k].offset);
    }
}

proof fn lemma_whole_parts(parts: Seq<Part>, len: int)
    requires
        cut_up(parts, len),
        len <= usize::MAX,
    ensures
        whole(parts.map_values(|x: Part| x.info()), len),
{
    let frags = parts.map_values(|x: Part| x.info());
    assert forall|i: int| 0 <= i < len implies #[trigger] covered(frags, i) by {
        assert(carried(parts, i));
        let k = choose|k: int|
            0 <= k < parts.len() && (#[trigger] parts[k]).offset <= i < parts[k].end();
        assert(parts[k].end() <= len);
        assert(frags[k].carries(i));
    }
    assert forall|k: int| 0 <= k < frags.len() implies (#[trigger] frags[k]).end() <= len by {
        assert(parts[k].end() <= len);
    }
}

/// Where the parts of a datagram are pending, or were.
spec fn room_for(r: ReassemblyView, ts: Timestamp) -> Seq<PendingView> {
    roomy(fresh(r.pending, ts.secs - r.timeout_secs), r.max_pending as int)
}

#[verifier::rlimit(60)]
proof fn lemma_parts(
    r: ReassemblyView,
    key: FragKeyView,
    parts: Seq<Part>,
    len: int,
    ts: Timestamp,
    n: int,
)
    requires
        pending_from(fresh(r.pending, ts.secs - r.timeout_secs), key, 0) is None,
        cut_up(parts, len),
        len <= r.max_datagram,
        r.timeout_secs >= 0,
        0 <= n < parts.len(),
    ensures
        ({
            let x = after_parts(r, key, parts, ts, n + 1);
            let o = outcome_of(r, key, parts, ts, n);
            &&& x == (ReassemblyView { pending: x.pending, ..r })
            &&& n + 1 < parts.len() ==> {
                &&& o == FragResultView::Pending { received: n + 1 }
                &&& x.pending.len() == room_for(r, ts).len() + 1
                &&& x.pending.drop_last() == room_for(r, ts)
                &&& held_after(x.pending.last(), key, parts, len, ts, n + 1)
            }
            &&& n + 1 == parts.len() ==> {
                &&& x.pending == room_for(r, ts)
                &&& o matches FragResultView::Complete { data, frags } && data.len() == len
                    && pieced(data, parts, n + 1) && frags == parts.map_values(|q: Part| q.info())
            }
        }),
    decreases n,
{
    let limit = ts.secs - r.timeout_secs;
    let live = fresh(r.pending, limit);
    let room = room_for(r, ts);
    let before = after_parts(r, key, parts, ts, n);
    let p = parts[n];
    assert(p.payload.len() > 0 && p.end() <= len && (p.more <==> p.end() < len));
    lemma_fresh_stays(r.pending, limit);
    lemma_absent(live, key, 0);
    lemma_absent_kept(live, key, 0, r.max_pending as int);
    lemma_roomy_fresh(live, r.max_pending as int, limit);
    let none = parts.take(0).map_values(|x: Part| x.info());
    let q = if n == 0 {
        assert(none =~= Seq::empty());
        just_seen(key, ts)
    } else {
        lemma_parts(r, key, parts, len, ts, n - 1);
        before.pending.last()
    };
    assert(held_after(q, key, parts, len, ts, n));
    let s = room.push(q);
    if n > 0 {
        assert(before.pending =~= s);
        assert forall|i: int| 0 <= i < s.len() implies (#[trigger] s[i]).last_seen.secs
            >= limit by {
            if i < room.len() {
                assert(s[i] == room[i]);
            }
        }
        lemma_all_fresh(s, limit);
        lemma_last(room, q, 0);
    }
    let at = ReassemblyView { pending: s, ..r };
    assert(s[room.len() as int] == q);
    let (x, o) = absorbed(at, room.len() as int, p.offset, p.more, p.payload, p.frame, ts);
    assert((x, o) == added(before, key, p.offset, p.more, p.payload, p.frame, ts));
    let frags = q.frags.push(p.info());
    assert(frags =~= parts.take(n + 1).map_values(|y: Part| y.info()));
    lemma_pieced(q.buf, parts, len, n);
    if !p.more && last_seen_in(parts, n) {
        let k = choose|k: int| 0 <= k < n && !(#[trigger] parts[k]).more;
        assert(parts[k].end() <= len && parts[k].payload.len() > 0);
        assert(parts[k].end() <= p.offset || p.end() <= parts[k].offset);
    }
    assert(last_seen_in(parts, n + 1) <==> last_seen_in(parts, n) || !p.more) by {
        if last_seen_in(parts, n) {
            let k = choose|k: int| 0 <= k < n && !(#[trigger] parts[k]).more;
            assert(!parts[k].more);
        }
    }
    assert(room.push(q).remove(room.len() as int) =~= room);
    if n + 1 < parts.len() {
        lemma_not_whole(parts, len, n + 1);
        assert(s.update(room.len() as int, x.pending.last()).drop_last() =~= room);
    } else {
        assert(parts.take(n + 1) =~= parts);
        lemma_whole_parts(parts, len);
        assert(carried(parts, len - 1));
        let k = choose|k: int|
            0 <= k < parts.len() && (#[trigger] parts[k]).offset <= len - 1 < parts[k].end();
        assert(parts[k].end() == len && !parts[k].more);
        assert(last_seen_in(parts, n + 1));
    }
}

/// A datagram comes together from its fragments in whatever order they come,
/// however many there are: each but the last to come is kept, and the last
/// gives the whole, with every fragment's bytes in their place and the
/// fragments listed as they came. Then nothing is pending of it any more.
pub proof fn parts_complete_in_any_order(
    r: ReassemblyView,
    key: FragKeyView,
    parts: Seq<Part>,
    len: int,
    ts: Timestamp,
    n: int,
)
    requires
        pending_from(fresh(r.pending, ts.secs - r.timeout_secs), key, 0) is None,
        cut_up(parts, len),
        len <= r.max_datagram,
        r.timeout_secs >= 0,
        0 <= n < parts.len(),
    ensures
        n + 1 < parts.len() ==> outcome_of(r, key, parts, ts, n) == (FragResultView::Pending {
            received: n + 1,
        }),
        n + 1 == parts.len() ==> {
            &&& outcome_of(r, key, parts, ts, n) matches FragResultView::Complete { data, frags }
                && data.len() == len && pieced(data, parts, parts.len() as int) && frags
                == parts.map_values(|q: Part| q.info())
            &&& pending_from(after_parts(r, key, parts, ts, n + 1).pending, key, 0) is None
        },
{
    lemma_parts(r, key, parts, len, ts, n);
    let live = fresh(r.pending, ts.secs - r.timeout_secs);
    lemma_absent(live, key, 0);
    lemma_absent_kept(live, key, 0, r.max_pending as int);
    lemma_nowhere(room_for(r, ts), key, 0);
}

proof fn lemma_nowhere(s: Seq<PendingView>, key: FragKeyView, i: int)
    requires
        0 <= i,
        absent(s, key),
    ensures
        pending_from(s, key, i) is None,
    decreases s.len() - i,
{
    if i < s.len() {
        lemma_nowhere(s, key, i + 1);
    }
}

} // verus!

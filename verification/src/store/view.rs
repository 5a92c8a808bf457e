//! The displayed subset of a snapshot.
//!
//! A `View` is the list the UI actually renders: every frame when no display
//! filter is set, or the matching rows when one is. Building it walks the
//! snapshot once; the packet list then indexes it in constant time, so a
//! filtered list scrolls as fast as an unfiltered one.

use std::sync::Arc;

use vstd::prelude::View as _;
use vstd::prelude::*;

use super::{Snapshot, SnapshotView};
use crate::dissect::{Frame, FrameView};
use crate::filter::eval::satisfied;
use crate::filter::types::{Test, TestView};

verus! {

/// The frames that are displayed.
#[derive(Debug)]
pub struct View {
    snapshot: Snapshot,
    /// Row indexes into the snapshot, or `None` when unfiltered.
    rows: Option<Vec<usize>>,
}

/// The rows among the first `n` that satisfy a filter, in order.
pub open spec fn picked(frames: Seq<FrameView>, t: TestView, n: int) -> Seq<int>
    decreases n,
{
    if n <= 0 {
        Seq::empty()
    } else {
        let before = picked(frames, t, n - 1);
        if satisfied(t, frames[n - 1]) {
            before.push(n - 1)
        } else {
            before
        }
    }
}

/// The rows ascend, and each is one of the first `n`.
pub open spec fn ascends(rows: Seq<int>, n: int) -> bool {
    &&& forall|i: int, j: int| 0 <= i < j < rows.len() ==> rows[i] < rows[j]
    &&& forall|i: int| 0 <= i < rows.len() ==> 0 <= #[trigger] rows[i] < n
}

/// What a view shows ascends, with a filter and without.
pub proof fn shown_rows_ascend(frames: Seq<FrameView>, t: TestView)
    ensures
        ascends(picked(frames, t, frames.len() as int), frames.len() as int),
        ascends(Seq::new(frames.len(), |i: int| i), frames.len() as int),
{
    filter_shows_exactly_the_matches(frames, t, frames.len() as int);
}

/// Row numbers as integers.
pub open spec fn row_numbers(v: Seq<usize>) -> Seq<int> {
    v.map_values(|r: usize| r as int)
}

/// The row of the frame with `number`, if it is held.
pub open spec fn held_row(s: SnapshotView, number: u32) -> Option<int> {
    if s.first_number <= number && number - s.first_number < s.frames.len() {
        Some(number - s.first_number)
    } else {
        None
    }
}

/// The position of the first of the rows that is at or after `want`.
fn position(rows: &Vec<usize>, want: usize) -> (r: usize)
    requires
        forall|i: int, j: int| 0 <= i < j < rows@.len() ==> rows@[i] < rows@[j],
    ensures
        r <= rows@.len(),
        forall|i: int| 0 <= i < r ==> rows@[i] < want,
        forall|i: int| r <= i < rows@.len() ==> rows@[i] >= want,
{
    let mut lo: usize = 0;
    let mut hi: usize = rows.len();
    while lo < hi
        invariant
            lo <= hi <= rows@.len(),
            forall|i: int, j: int| 0 <= i < j < rows@.len() ==> rows@[i] < rows@[j],
            forall|i: int| 0 <= i < lo ==> rows@[i] < want,
            forall|i: int| hi <= i < rows@.len() ==> rows@[i] >= want,
        decreases hi - lo,
    {
        let mid: usize = lo + (hi - lo) / 2;
        if rows[mid] < want {
            lo = mid + 1;
        } else {
            hi = mid;
        }
    }
    lo
}

impl View {
    #[verifier::type_invariant]
    spec fn sound(self) -> bool {
        match self.rows {
            Some(rows) => {
                &&& forall|i: int, j: int| 0 <= i < j < rows@.len() ==> rows@[i] < rows@[j]
                &&& forall|i: int|
                    0 <= i < rows@.len() ==> #[trigger] rows@[i] < self.snapshot@.frames.len()
            },
            None => true,
        }
    }

    /// The frames in the underlying capture, shown or not.
    pub closed spec fn capture(&self) -> SnapshotView {
        self.snapshot@
    }

    /// Whether a filter is set.
    pub closed spec fn narrowed(&self) -> bool {
        self.rows is Some
    }

    /// The rows shown, in order.
    pub closed spec fn shown(&self) -> Seq<int> {
        match self.rows {
            Some(rows) => row_numbers(rows@),
            None => Seq::new(self.snapshot@.frames.len(), |i: int| i),
        }
    }

    /// Every frame in the snapshot.
    pub fn all(snapshot: Snapshot) -> (r: View)
        ensures
            r.capture() == snapshot@,
            !r.narrowed(),
            r.shown() == Seq::new(snapshot@.frames.len(), |i: int| i),
    {
        View { snapshot, rows: None }
    }

    /// The frames matching `test`.
    pub fn filtered(snapshot: Snapshot, test: &Test) -> (r: View)
        ensures
            r.capture() == snapshot@,
            r.narrowed(),
            r.shown() == picked(snapshot@.frames, test@, snapshot@.frames.len() as int),
    {
        let n: usize = snapshot.len();
        let ghost frames = snapshot@.frames;
        let mut rows: Vec<usize> = Vec::new();
        let mut at: usize = 0;
        assert(row_numbers(rows@) =~= Seq::empty());
        while at < n
            invariant
                at <= n == frames.len(),
                frames == snapshot@.frames,
                row_numbers(rows@) == picked(frames, test@, at as int),
                forall|i: int, j: int| 0 <= i < j < rows@.len() ==> rows@[i] < rows@[j],
                forall|i: int| 0 <= i < rows@.len() ==> #[trigger] rows@[i] < at,
            decreases n - at,
        {
            let ghost before = row_numbers(rows@);
            if let Some(frame) = snapshot.get(at) {
                if crate::filter::eval::matches(test, frame) {
                    rows.push(at);
                    assert(row_numbers(rows@) =~= before.push(at as int));
                }
            }
            at += 1;
        }
        View { snapshot, rows: Some(rows) }
    }

    /// Build from a snapshot and an optional filter.
    pub fn build(snapshot: Snapshot, test: Option<&Test>) -> (r: View)
        ensures
            r.capture() == snapshot@,
            r.narrowed() == (test is Some),
            r.shown() == (match test {
                Some(t) => picked(snapshot@.frames, t@, snapshot@.frames.len() as int),
                None => Seq::new(snapshot@.frames.len(), |i: int| i),
            }),
    {
        match test {
            Some(t) => View::filtered(snapshot, t),
            None => View::all(snapshot),
        }
    }

    /// Version of the snapshot this view was built from.
    pub fn version(&self) -> (r: u64)
        ensures
            r == self.capture().version,
    {
        self.snapshot.version()
    }

    pub fn is_filtered(&self) -> (r: bool)
        ensures
            r == self.narrowed(),
    {
        self.rows.is_some()
    }

    /// Rows shown. They ascend, and each is a row of the capture.
    pub fn len(&self) -> (r: usize)
        ensures
            r == self.shown().len(),
            ascends(self.shown(), self.capture().frames.len() as int),
    {
        proof {
            use_type_invariant(self);
        }
        match &self.rows {
            Some(rows) => rows.len(),
            None => self.snapshot.len(),
        }
    }

    pub fn is_empty(&self) -> (r: bool)
        ensures
            r == (self.shown().len() == 0),
    {
        self.len() == 0
    }

    /// Rows in the underlying capture, shown or not.
    pub fn total(&self) -> (r: usize)
        ensures
            r == self.capture().frames.len(),
    {
        self.snapshot.len()
    }

    pub fn snapshot(&self) -> (r: &Snapshot)
        ensures
            r@ == self.capture(),
    {
        &self.snapshot
    }

    /// The frame at displayed row `at`.
    pub fn get(&self, at: usize) -> (r: Option<&Arc<Frame>>)
        ensures
            match r {
                Some(f) => at < self.shown().len() && 0 <= self.shown()[at as int]
                    < self.capture().frames.len() && f@
                    == self.capture().frames[self.shown()[at as int]],
                None => at >= self.shown().len(),
            },
    {
        proof {
            use_type_invariant(self);
        }
        match &self.rows {
            Some(rows) => if at < rows.len() {
                self.snapshot.get(rows[at])
            } else {
                None
            },
            None => self.snapshot.get(at),
        }
    }

    /// Displayed row of the frame with `number`, if it is shown.
    pub fn row_of(&self, number: u32) -> (r: Option<usize>)
        ensures
            match r {
                Some(i) => i < self.shown().len() && held_row(self.capture(), number) == Some(
                    self.shown()[i as int],
                ),
                None => forall|i: int|
                    0 <= i < self.shown().len() ==> held_row(self.capture(), number) != Some(
                        #[trigger] self.shown()[i],
                    ),
            },
    {
        proof {
            use_type_invariant(self);
        }
        match self.snapshot.row_of(number) {
            None => None,
            Some(want) => match &self.rows {
                Some(rows) => {
                    let i: usize = position(rows, want);
                    if i < rows.len() && rows[i] == want {
                        Some(i)
                    } else {
                        None
                    }
                },
                None => Some(want),
            },
        }
    }

    /// The displayed row at or after `number`, for keeping a selection close
    /// to where it was when the filter changes.
    pub fn row_at_or_after(&self, number: u32) -> (r: Option<usize>)
        ensures
            match (r, held_row(self.capture(), number)) {
                (Some(i), Some(want)) => {
                    &&& i < self.shown().len()
                    &&& self.shown()[i as int] >= want
                    &&& forall|j: int| 0 <= j < i ==> #[trigger] self.shown()[j] < want
                },
                (None, Some(want)) => forall|j: int|
                    0 <= j < self.shown().len() ==> #[trigger] self.shown()[j] < want,
                (r, None) => r is None,
            },
    {
        proof {
            use_type_invariant(self);
        }
        match self.snapshot.row_of(number) {
            None => None,
            Some(want) => match &self.rows {
                Some(rows) => {
                    let i: usize = position(rows, want);
                    if i < rows.len() {
                        Some(i)
                    } else {
                        None
                    }
                },
                None => Some(want),
            },
        }
    }

    /// The displayed frames in order.
    pub fn iter(&self) -> (r: Vec<&Arc<Frame>>)
        ensures
            r@.len() == self.shown().len(),
            forall|i: int|
                0 <= i < r@.len() ==> (#[trigger] r@[i])@
                    == self.capture().frames[self.shown()[i]],
    {
        let n: usize = self.len();
        let mut out: Vec<&Arc<Frame>> = Vec::new();
        let mut i: usize = 0;
        while i < n
            invariant
                i <= n == self.shown().len(),
                out@.len() == i,
                forall|k: int|
                    0 <= k < i ==> (#[trigger] out@[k])@
                        == self.capture().frames[self.shown()[k]],
            decreases n - i,
        {
            if let Some(f) = self.get(i) {
                out.push(f);
            }
            i += 1;
        }
        out
    }
}

/// A filtered list shows exactly the frames that satisfy the filter, in
/// capture order and each once.
pub proof fn filter_shows_exactly_the_matches(frames: Seq<FrameView>, t: TestView, n: int)
    requires
        0 <= n <= frames.len(),
    ensures
        forall|k: int|
            0 <= k < picked(frames, t, n).len() ==> 0 <= #[trigger] picked(frames, t, n)[k] < n
                && satisfied(t, frames[picked(frames, t, n)[k]]),
        forall|i: int|
            0 <= i < n && satisfied(t, #[trigger] frames[i]) ==> picked(frames, t, n).contains(i),
        forall|i: int, j: int|
            0 <= i < j < picked(frames, t, n).len() ==> picked(frames, t, n)[i] < picked(
                frames,
                t,
                n,
            )[j],
    decreases n,
{
    if n > 0 {
        filter_shows_exactly_the_matches(frames, t, n - 1);
        let before = picked(frames, t, n - 1);
        let all = picked(frames, t, n);
        assert forall|i: int| 0 <= i < n && satisfied(t, #[trigger] frames[i]) implies all.contains(
            i,
        ) by {
            if i < n - 1 {
                assert(before.contains(i));
                let k = choose|k: int| 0 <= k < before.len() && before[k] == i;
                assert(all[k] == i);
            } else {
                assert(all[before.len() as int] == i);
            }
        }
    }
}

} // verus!

//! The I/O graph: traffic over time, bucketed into intervals.
//!
//! Each series is a display filter, so the graph answers whatever the filter
//! language can express - retransmissions against throughput, one
//! conversation against the rest - rather than a fixed set of lines chosen
//! in advance.
//!
//! Buckets are counted relative to the capture's first frame, not to the
//! wall clock, so the x axis reads as "seconds into the capture" and two
//! captures taken at different times can be compared. Time is counted in
//! nanoseconds, the resolution of timestamps.

use vstd::prelude::*;

use super::conversations::plus;
use super::{Snapshot, SnapshotView};
use crate::capture::Timestamp;
use crate::dissect::stream::tcp::{nanos_between, nanos_from};
use crate::dissect::{Frame, FrameView};
use crate::filter::eval::satisfied;
use crate::filter::lex::from_one;
use crate::filter::types::{compiled as meaning, Test};
use crate::text;

verus! {

/// What a series counts in each bucket.
#[derive(Debug, Clone, Copy, PartialEq, Eq, Default, Structural)]
pub enum Unit {
    #[default]
    Packets,
    Bytes,
    /// Bytes per second, which is bytes scaled by the interval. Kept
    /// separate so the axis can be labelled honestly.
    Bits,
}

impl Unit {
    pub fn name(self) -> (r: &'static str)
        ensures
            r@ == (match self {
                Unit::Packets => "Packets"@,
                Unit::Bytes => "Bytes"@,
                Unit::Bits => "Bits/s"@,
            }),
    {
        match self {
            Unit::Packets => "Packets",
            Unit::Bytes => "Bytes",
            Unit::Bits => "Bits/s",
        }
    }
}

/// One line on the graph.
#[derive(Debug, Clone)]
pub struct Series {
    pub name: String,
    /// Empty means every frame.
    pub filter: String,
    pub colour: [u8; 3],
    pub enabled: bool,
}

impl Series {
    /// Whether no filter is set.
    pub open spec fn unfiltered(&self) -> bool {
        text::trimmed(self.filter@).len() == 0
    }

    fn takes_all(&self) -> (r: bool)
        ensures
            r == self.unfiltered(),
    {
        let chars: Vec<char> = text::chars_of(&self.filter);
        text::trim(&chars).len() == 0
    }
}

/// A series with its filter compiled, or the reason it could not be.
#[derive(Debug)]
pub struct Compiled {
    pub test: Option<Test>,
    pub error: Option<String>,
}

/// Compile the filter of a series.
pub fn compile(series: &Series) -> (r: Compiled)
    ensures
        series.unfiltered() ==> r.test is None && r.error is None,
        !series.unfiltered() ==> match meaning(series.filter@) {
            Ok(t) => r.error is None && (r.test matches Some(x) && x@ == t),
            Err(e) => r.test is None && (r.error matches Some(s) && s@ == "column "@ + text::dec(
                from_one(e.column),
            ) + ": "@ + e.message),
        },
{
    if series.takes_all() {
        return Compiled { test: None, error: None };
    }
    match crate::filter::types::compile(&series.filter) {
        Ok(t) => Compiled { test: Some(t), error: None },
        Err(e) => {
            let mut s = text::cat_dec("column ", e.column_from_one(), ": ");
            s.push_str(&e.message);
            Compiled { test: None, error: Some(s) }
        },
    }
}

/// The series that a graph starts with: every packet, TCP, and what expert
/// analysis warned of.
pub fn defaults() -> (r: Vec<Series>)
    ensures
        r@.len() == 3,
        r@[0].name@ == "All packets"@ && r@[0].filter@ == ""@,
        r@[0].colour@ == seq![140u8, 190, 230] && r@[0].enabled,
        r@[1].name@ == "TCP"@ && r@[1].filter@ == "tcp"@,
        r@[1].colour@ == seq![150u8, 210, 160] && r@[1].enabled,
        r@[2].name@ == "Problems"@ && r@[2].filter@ == "_ws.expert.severity >= \"Warning\""@,
        r@[2].colour@ == seq![240u8, 150, 110] && r@[2].enabled,
{
    let mut out: Vec<Series> = Vec::new();
    out.push(
        Series {
            name: text::owned("All packets"),
            filter: text::owned(""),
            colour: [140, 190, 230],
            enabled: true,
        },
    );
    out.push(
        Series {
            name: text::owned("TCP"),
            filter: text::owned("tcp"),
            colour: [150, 210, 160],
            enabled: true,
        },
    );
    out.push(
        Series {
            name: text::owned("Problems"),
            filter: text::owned("_ws.expert.severity >= \"Warning\""),
            colour: [240, 150, 110],
            enabled: true,
        },
    );
    assert(out@[0].colour@ =~= seq![140u8, 190, 230]);
    assert(out@[1].colour@ =~= seq![150u8, 210, 160]);
    assert(out@[2].colour@ =~= seq![240u8, 150, 110]);
    out
}

/// Bucketed counts for one series.
#[derive(Debug, Clone, PartialEq, Eq)]
pub struct Line {
    /// Packets or bytes per bucket.
    pub points: Vec<u64>,
}

/// The whole graph.
#[derive(Debug, Clone, Default)]
pub struct Graph {
    /// Nanoseconds per bucket.
    pub interval: u64,
    /// Capture time of the first frame, which bucket 0 starts at.
    pub start: Option<Timestamp>,
    pub buckets: usize,
    pub lines: Vec<Line>,
}

/// `m` is no less than any of the points, and one of them unless there are
/// none.
pub open spec fn is_highest(m: u64, lines: Seq<Line>) -> bool {
    &&& forall|i: int, b: int|
        0 <= i < lines.len() && 0 <= b < lines[i].points@.len() ==> #[trigger] lines[i].points@[b]
            <= m
    &&& m == 0 || exists|i: int, b: int|
        0 <= i < lines.len() && 0 <= b < lines[i].points@.len() && #[trigger] lines[i].points@[b]
            == m
}

impl Graph {
    /// The highest point of all lines.
    pub fn max_y(&self) -> (r: u64)
        ensures
            is_highest(r, self.lines@),
    {
        let ghost lines = self.lines@;
        let mut m: u64 = 0;
        let mut i: usize = 0;
        while i < self.lines.len()
            invariant
                i <= self.lines@.len(),
                lines == self.lines@,
                is_highest(m, lines.take(i as int)),
            decreases self.lines.len() - i,
        {
            let ghost some = lines.take(i as int);
            let ghost more = lines.take(i + 1);
            let line: &Line = &self.lines[i];
            let mut b: usize = 0;
            assert forall|j: int, c: int|
                0 <= j < i && 0 <= c < lines[j].points@.len() implies #[trigger] lines[j].points@[c]
                <= m by {
                assert(some[j].points@[c] <= m);
            }
            while b < line.points.len()
                invariant
                    i < lines.len(),
                    *line == lines[i as int],
                    some == lines.take(i as int),
                    more == lines.take(i + 1),
                    b <= line.points@.len(),
                    forall|j: int, c: int|
                        0 <= j < i && 0 <= c < lines[j].points@.len()
                            ==> #[trigger] lines[j].points@[c] <= m,
                    forall|c: int| 0 <= c < b ==> line.points@[c] <= m,
                    m == 0 || exists|j: int, c: int|
                        0 <= j <= i && 0 <= c < lines[j].points@.len()
                            && #[trigger] lines[j].points@[c] == m,
                decreases line.points.len() - b,
            {
                if line.points[b] > m {
                    m = line.points[b];
                    assert(lines[i as int].points@[b as int] == m);
                }
                b += 1;
            }
            proof {
                if m != 0 {
                    let (j, c) = choose|j: int, c: int|
                        0 <= j <= i && 0 <= c < lines[j].points@.len()
                            && #[trigger] lines[j].points@[c] == m;
                    assert(more[j].points@[c] == m);
                }
            }
            i += 1;
        }
        assert(lines.take(i as int) =~= lines);
        m
    }
}

/// The most buckets worth computing. A one-millisecond interval over an
/// hour-long capture is 3.6 million points, which no screen can show and no
/// one can read; the caller is told so it can widen the interval.
pub const MAX_BUCKETS: usize = 100_000;

/// The shortest interval: one microsecond.
pub const MIN_INTERVAL: u64 = 1_000;

/// The interval that is used where `interval` is asked for.
pub open spec fn interval_used(interval: u64) -> u64 {
    if interval < MIN_INTERVAL {
        MIN_INTERVAL
    } else {
        interval
    }
}

/// How many buckets of `interval` a capture of `span` nanoseconds takes.
pub open spec fn buckets_for(span: int, interval: u64) -> int {
    let wanted = (if span < 0 {
        0
    } else {
        span
    }) / interval as int + 1;
    if wanted > MAX_BUCKETS {
        MAX_BUCKETS as int
    } else {
        wanted
    }
}

/// The bucket of a frame, unless it is past the last one. A frame earlier than
/// the first is only possible if the capture is not in time order; bucket 0
/// keeps it visible.
pub open spec fn bucket_of(start: Timestamp, ts: Timestamp, interval: u64, buckets: int) -> Option<
    int,
> {
    let at = nanos_from(start, ts);
    if at < 0 {
        Some(0)
    } else if at / interval as int >= buckets {
        None
    } else {
        Some(at / interval as int)
    }
}

/// Whether a series counts a frame. One whose filter does not compile
/// contributes nothing, and the editor shows why.
pub open spec fn counts(s: Series, c: Option<Compiled>, f: FrameView) -> bool {
    s.enabled && match c {
        Some(c) => match c.test {
            Some(t) => satisfied(t@, f),
            None => c.error is None && s.unfiltered(),
        },
        None => false,
    }
}

/// What a frame adds to its bucket.
pub open spec fn weight(unit: Unit, f: FrameView) -> u64 {
    match unit {
        Unit::Packets => 1,
        _ => f.orig_len as u64,
    }
}

/// What the first `n` frames add to bucket `b` of a series.
pub open spec fn point(
    frames: Seq<FrameView>,
    s: Series,
    c: Option<Compiled>,
    interval: u64,
    buckets: int,
    unit: Unit,
    b: int,
    n: int,
) -> u64
    decreases n,
{
    if n <= 0 {
        0
    } else {
        let before = point(frames, s, c, interval, buckets, unit, b, n - 1);
        let f = frames[n - 1];
        if counts(s, c, f) && bucket_of(frames[0].ts, f.ts, interval, buckets) == Some(b) {
            plus(before, weight(unit, f))
        } else {
            before
        }
    }
}

/// The compiled filter that goes with series `i`.
pub open spec fn compiled_at(compiled: Seq<Compiled>, i: int) -> Option<Compiled> {
    if 0 <= i < compiled.len() {
        Some(compiled[i])
    } else {
        None
    }
}

fn takes(s: &Series, c: Option<&Compiled>, frame: &Frame) -> (r: bool)
    ensures
        r == counts(
            *s,
            match c {
                Some(c) => Some(*c),
                None => None,
            },
            frame@,
        ),
{
    if !s.enabled {
        return false;
    }
    match c {
        Some(c) => match &c.test {
            Some(t) => crate::filter::eval::matches(t, frame),
            None => c.error.is_none() && s.takes_all(),
        },
        None => false,
    }
}

fn find_bucket(start: Timestamp, ts: Timestamp, interval: u64, buckets: usize) -> (r: Option<usize>)
    requires
        interval > 0,
        buckets > 0,
    ensures
        match r {
            Some(b) => b < buckets && bucket_of(start, ts, interval, buckets as int) == Some(
                b as int,
            ),
            None => bucket_of(start, ts, interval, buckets as int) is None,
        },
{
    let at: i128 = nanos_between(start, ts);
    if at < 0 {
        return Some(0);
    }
    let b: i128 = at / interval as i128;
    if b >= buckets as i128 {
        None
    } else {
        Some(b as usize)
    }
}

fn line_of(
    snapshot: &Snapshot,
    start: Timestamp,
    s: &Series,
    c: Option<&Compiled>,
    interval: u64,
    buckets: usize,
    unit: Unit,
) -> (r: Line)
    requires
        interval > 0,
        buckets > 0,
        snapshot@.frames.len() > 0,
        start == snapshot@.frames[0].ts,
    ensures
        r.points@.len() == buckets,
        forall|b: int|
            0 <= b < buckets ==> r.points@[b] == point(
                snapshot@.frames,
                *s,
                match c {
                    Some(c) => Some(*c),
                    None => None,
                },
                interval,
                buckets as int,
                unit,
                b,
                snapshot@.frames.len() as int,
            ),
{
    let n: usize = snapshot.len();
    let ghost frames = snapshot@.frames;
    let ghost test: Option<Compiled> = match c {
        Some(c) => Some(*c),
        None => None,
    };
    let mut points: Vec<u64> = Vec::new();
    let mut i: usize = 0;
    while i < buckets
        invariant
            i <= buckets,
            points@.len() == i,
            forall|b: int| 0 <= b < i ==> points@[b] == 0,
        decreases buckets - i,
    {
        points.push(0);
        i += 1;
    }
    let mut at: usize = 0;
    while at < n
        invariant
            at <= n == frames.len(),
            frames == snapshot@.frames,
            interval > 0,
            buckets > 0,
            start == frames[0].ts,
            test == (match c {
                Some(c) => Some(*c),
                None => None,
            }),
            points@.len() == buckets,
            forall|b: int|
                0 <= b < buckets ==> points@[b] == point(
                    frames,
                    *s,
                    test,
                    interval,
                    buckets as int,
                    unit,
                    b,
                    at as int,
                ),
        decreases n - at,
    {
        if let Some(frame) = snapshot.get(at) {
            if let Some(b) = find_bucket(start, frame.ts, interval, buckets) {
                if takes(s, c, frame) {
                    let more: u64 = match unit {
                        Unit::Packets => 1,
                        _ => frame.orig_len as u64,
                    };
                    let sum: u64 = points[b].saturating_add(more);
                    points.set(b, sum);
                }
            }
        }
        at += 1;
    }
    Line { points }
}

/// The graph of a capture: each series counted into the bucket that the
/// time of a frame falls in.
pub open spec fn graph_of(
    g: Graph,
    snapshot: SnapshotView,
    series: Seq<Series>,
    compiled: Seq<Compiled>,
    interval: u64,
    unit: Unit,
) -> bool {
    let frames = snapshot.frames;
    let step = interval_used(interval);
    &&& g.interval == step
    &&& frames.len() == 0 ==> g.start is None && g.buckets == 0 && g.lines@.len() == 0
    &&& frames.len() > 0 ==> {
        &&& g.start == Some(frames[0].ts)
        &&& g.buckets == buckets_for(nanos_from(frames[0].ts, frames.last().ts), step)
        &&& g.lines@.len() == series.len()
        &&& forall|i: int|
            0 <= i < series.len() ==> (#[trigger] g.lines@[i]).points@.len() == g.buckets
        &&& forall|i: int, b: int|
            0 <= i < series.len() && 0 <= b < g.buckets ==> #[trigger] g.lines@[i].points@[b]
                == point(
                frames,
                series[i],
                compiled_at(compiled, i),
                step,
                g.buckets as int,
                unit,
                b,
                frames.len() as int,
            )
    }
}

/// Bucket the snapshot, `interval` nanoseconds to a bucket.
///
/// `compiled` parallels `series`: no test means the series has no filter
/// (every frame) or its filter does not compile, which the error tells
/// apart. A series in bits is counted in bytes; its rate is eight times the
/// bytes over the interval.
pub fn build(
    snapshot: &Snapshot,
    series: &[Series],
    compiled: &[Compiled],
    interval: u64,
    unit: Unit,
) -> (r: Graph)
    ensures
        graph_of(r, snapshot@, series@, compiled@, interval, unit),
{
    let interval: u64 = if interval < MIN_INTERVAL {
        MIN_INTERVAL
    } else {
        interval
    };
    let n: usize = snapshot.len();
    let (start, last) = match (snapshot.get(0), if n == 0 {
        None
    } else {
        snapshot.get(n - 1)
    }) {
        (Some(a), Some(b)) => (a.ts, b.ts),
        _ => return Graph { interval, start: None, buckets: 0, lines: Vec::new() },
    };
    let span: i128 = nanos_between(start, last);
    let wanted: i128 = (if span < 0 {
        0
    } else {
        span
    }) / interval as i128;
    let buckets: usize = if wanted >= MAX_BUCKETS as i128 {
        MAX_BUCKETS
    } else {
        (wanted + 1) as usize
    };
    let mut lines: Vec<Line> = Vec::new();
    let mut i: usize = 0;
    while i < series.len()
        invariant
            i <= series@.len(),
            lines@.len() == i,
            interval > 0,
            buckets > 0,
            snapshot@.frames.len() > 0,
            start == snapshot@.frames[0].ts,
            forall|k: int| 0 <= k < i ==> (#[trigger] lines@[k]).points@.len() == buckets,
            forall|k: int, b: int|
                0 <= k < i && 0 <= b < buckets ==> #[trigger] lines@[k].points@[b] == point(
                    snapshot@.frames,
                    series@[k],
                    compiled_at(compiled@, k),
                    interval,
                    buckets as int,
                    unit,
                    b,
                    snapshot@.frames.len() as int,
                ),
        decreases series.len() - i,
    {
        let c: Option<&Compiled> = if i < compiled.len() {
            Some(&compiled[i])
        } else {
            None
        };
        lines.push(line_of(snapshot, start, &series[i], c, interval, buckets, unit));
        i += 1;
    }
    Graph { interval, start: Some(start), buckets, lines }
}

/// How many of the first `n` frames a series counts.
pub open spec fn counted(
    frames: Seq<FrameView>,
    s: Series,
    c: Option<Compiled>,
    n: int,
) -> int
    decreases n,
{
    if n <= 0 {
        0
    } else {
        counted(frames, s, c, n - 1) + if counts(s, c, frames[n - 1]) {
            1int
        } else {
            0
        }
    }
}

/// The first `k` points of a series in packets, added up.
pub open spec fn points_total(
    frames: Seq<FrameView>,
    s: Series,
    c: Option<Compiled>,
    interval: u64,
    buckets: int,
    k: int,
    n: int,
) -> int
    decreases k,
{
    if k <= 0 {
        0
    } else {
        points_total(frames, s, c, interval, buckets, k - 1, n) + point(
            frames,
            s,
            c,
            interval,
            buckets,
            Unit::Packets,
            k - 1,
            n,
        )
    }
}

/// The interval changes the buckets and not the total: as long as the
/// buckets do not run out and the last frame is the latest, every frame that a
/// series counts is in exactly one of them, whatever the interval.
pub proof fn buckets_hold_every_counted_frame(
    frames: Seq<FrameView>,
    s: Series,
    c: Option<Compiled>,
    interval: u64,
)
    requires
        0 < frames.len() <= u64::MAX,
        interval > 0,
        forall|i: int|
            0 <= i < frames.len() ==> nanos_from(frames[0].ts, (#[trigger] frames[i]).ts)
                <= nanos_from(frames[0].ts, frames.last().ts),
        nanos_from(frames[0].ts, frames.last().ts) / interval as int + 1 <= MAX_BUCKETS,
    ensures
        ({
            let buckets = buckets_for(nanos_from(frames[0].ts, frames.last().ts), interval);
            points_total(frames, s, c, interval, buckets, buckets, frames.len() as int) == counted(
                frames,
                s,
                c,
                frames.len() as int,
            )
        }),
{
    let span = nanos_from(frames[0].ts, frames.last().ts);
    let buckets = buckets_for(span, interval);
    assert(nanos_from(frames[0].ts, frames[0].ts) == 0 <= span);
    vstd::arithmetic::div_mod::lemma_div_pos_is_pos(span, interval as int);
    assert forall|i: int| 0 <= i < frames.len() implies bucket_of(
        frames[0].ts,
        (#[trigger] frames[i]).ts,
        interval,
        buckets,
    ) matches Some(b) && 0 <= b < buckets by {
        let at = nanos_from(frames[0].ts, frames[i].ts);
        if at >= 0 {
            vstd::arithmetic::div_mod::lemma_div_is_ordered(at, span, interval as int);
            vstd::arithmetic::div_mod::lemma_div_pos_is_pos(at, interval as int);
        }
    }
    lemma_total(frames, s, c, interval, buckets, frames.len() as int);
}

proof fn lemma_total(
    frames: Seq<FrameView>,
    s: Series,
    c: Option<Compiled>,
    interval: u64,
    buckets: int,
    n: int,
)
    requires
        0 <= n <= frames.len() <= u64::MAX,
        forall|i: int|
            0 <= i < frames.len() ==> (bucket_of(
                frames[0].ts,
                (#[trigger] frames[i]).ts,
                interval,
                buckets,
            ) matches Some(b) && 0 <= b < buckets),
    ensures
        points_total(frames, s, c, interval, buckets, buckets, n) == counted(frames, s, c, n),
    decreases n,
{
    if n > 0 {
        lemma_total(frames, s, c, interval, buckets, n - 1);
        assert(frames[n - 1] == frames[n - 1]);
        lemma_step(frames, s, c, interval, buckets, buckets, n);
    } else {
        lemma_empty(frames, s, c, interval, buckets, buckets);
    }
}

proof fn lemma_empty(
    frames: Seq<FrameView>,
    s: Series,
    c: Option<Compiled>,
    interval: u64,
    buckets: int,
    k: int,
)
    ensures
        points_total(frames, s, c, interval, buckets, k, 0) == 0,
    decreases k,
{
    if k > 0 {
        lemma_empty(frames, s, c, interval, buckets, k - 1);
    }
}

proof fn lemma_step(
    frames: Seq<FrameView>,
    s: Series,
    c: Option<Compiled>,
    interval: u64,
    buckets: int,
    k: int,
    n: int,
)
    requires
        0 < n <= frames.len() <= u64::MAX,
    ensures
        points_total(frames, s, c, interval, buckets, k, n) == points_total(
            frames,
            s,
            c,
            interval,
            buckets,
            k,
            n - 1,
        ) + if counts(s, c, frames[n - 1]) && (bucket_of(
            frames[0].ts,
            frames[n - 1].ts,
            interval,
            buckets,
        ) matches Some(b) && 0 <= b < k) {
            1int
        } else {
            0
        },
    decreases k,
{
    if k > 0 {
        lemma_step(frames, s, c, interval, buckets, k - 1, n);
        lemma_small(frames, s, c, interval, buckets, k - 1, n - 1);
    }
}

proof fn lemma_small(
    frames: Seq<FrameView>,
    s: Series,
    c: Option<Compiled>,
    interval: u64,
    buckets: int,
    b: int,
    n: int,
)
    requires
        0 <= n <= u64::MAX,
    ensures
        point(frames, s, c, interval, buckets, Unit::Packets, b, n) <= n,
    decreases n,
{
    if n > 0 {
        lemma_small(frames, s, c, interval, buckets, b, n - 1);
    }
}

} // verus!

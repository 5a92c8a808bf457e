//! What stands in each bucket of the I/O graph.

use vstd::prelude::*;

use super::io_graph::{bucket_of, counts, point, Compiled, Series, Unit};
use crate::capture::Timestamp;
use crate::dissect::stream::tcp::nanos_from;
use crate::dissect::FrameView;

verus! {

/// The time of a frame lies in bucket `b`: not before its start and before its
/// end, and anything earlier than the capture's start in bucket 0.
pub open spec fn lies_in(start: Timestamp, ts: Timestamp, interval: u64, b: int) -> bool {
    &&& nanos_from(start, ts) < (b + 1) * interval
    &&& b == 0 || b * interval <= nanos_from(start, ts)
}

/// A frame is in the bucket that its time lies in, if there is such a bucket.
pub proof fn frames_go_to_the_bucket_of_their_time(
    start: Timestamp,
    ts: Timestamp,
    interval: u64,
    buckets: int,
    b: int,
)
    requires
        interval > 0,
        0 <= b < buckets,
    ensures
        bucket_of(start, ts, interval, buckets) == Some(b) <==> lies_in(start, ts, interval, b),
{
    let at = nanos_from(start, ts);
    let step = interval as int;
    if at >= 0 {
        let q = at / step;
        vstd::arithmetic::div_mod::lemma_fundamental_div_mod(at, step);
        let r = at % step;
        assert(0 <= r < step);
        assert(step * q == q * step) by (nonlinear_arith);
        if q < b {
            assert((q + 1) * step <= b * step) by (nonlinear_arith)
                requires
                    q + 1 <= b,
                    step > 0,
            ;
            assert((q + 1) * step == q * step + step) by (nonlinear_arith);
        } else if q > b {
            assert((b + 1) * step <= q * step) by (nonlinear_arith)
                requires
                    b + 1 <= q,
                    step > 0,
            ;
        } else {
            assert((q + 1) * step == q * step + step) by (nonlinear_arith);
        }
        if b == 0 {
            assert(0 * step == 0);
        }
    } else {
        assert(0 <= (b + 1) * step) by (nonlinear_arith)
            requires
                b >= 0,
                step > 0,
        ;
        if b > 0 {
            assert(0 <= b * step) by (nonlinear_arith)
                requires
                    b >= 0,
                    step > 0,
            ;
        }
    }
}

/// The frames among the first `n` that a series counts in bucket `b`: how many
/// there are, or how long they were on the wire in all.
pub open spec fn in_bucket(
    frames: Seq<FrameView>,
    s: Series,
    c: Option<Compiled>,
    interval: u64,
    packets: bool,
    b: int,
    n: int,
) -> int
    decreases n,
{
    if n <= 0 {
        0
    } else {
        let f = frames[n - 1];
        in_bucket(frames, s, c, interval, packets, b, n - 1) + if counts(s, c, f) && lies_in(
            frames[0].ts,
            f.ts,
            interval,
            b,
        ) {
            if packets {
                1int
            } else {
                f.orig_len as int
            }
        } else {
            0
        }
    }
}

/// Each point counts the frames whose time lies in its bucket, or their bytes
/// on the wire where the graph is not in packets.
pub proof fn each_point_counts_its_own_bucket(
    frames: Seq<FrameView>,
    s: Series,
    c: Option<Compiled>,
    interval: u64,
    buckets: int,
    unit: Unit,
    b: int,
    n: int,
)
    requires
        interval > 0,
        0 <= b < buckets,
        0 <= n <= frames.len(),
        frames.len() <= 0xffff_ffff,
    ensures
        point(frames, s, c, interval, buckets, unit, b, n) == in_bucket(
            frames,
            s,
            c,
            interval,
            unit is Packets,
            b,
            n,
        ),
        0 <= in_bucket(frames, s, c, interval, unit is Packets, b, n) <= 0xffff_ffff * n,
    decreases n,
{
    if n > 0 {
        each_point_counts_its_own_bucket(frames, s, c, interval, buckets, unit, b, n - 1);
        frames_go_to_the_bucket_of_their_time(
            frames[0].ts,
            frames[n - 1].ts,
            interval,
            buckets,
            b,
        );
        assert(0xffff_ffff * (n - 1) + 0xffff_ffff <= u64::MAX) by (nonlinear_arith)
            requires
                n <= 0xffff_ffff,
        ;
    }
}

/// A series that is switched off, or whose filter does not compile, counts
/// nothing; one without a filter counts every frame.
pub proof fn series_count_what_they_say(s: Series, c: Compiled, f: FrameView)
    ensures
        !s.enabled ==> !counts(s, Some(c), f),
        c.test is None && c.error is Some ==> !counts(s, Some(c), f),
        s.enabled && c.test is None && c.error is None && s.unfiltered() ==> counts(s, Some(c), f),
        counts(s, Some(c), f) ==> s.enabled,
{
}

} // verus!

//! Who said what in a followed stream.

use vstd::prelude::*;

use super::columns::{leads_as, lemma_leads, lemma_missing, missing};
use super::follow::{
    gathered, interleaved, payload_in, piece_in, stream_of, ChunkView, Gathered, Joining, PieceView,
};
use crate::dissect::node::ValueView;
use crate::dissect::stream::tcp::{seq_before, seq_past, seq_plus};
use crate::dissect::stream::Direction;
use crate::dissect::{source_of, AddrView, FrameView};

verus! {

/// The source of the first of `n` frames that belongs to stream `id`.
pub open spec fn opener(frames: Seq<FrameView>, id: u32, i: int, n: int) -> Option<AddrView>
    decreases n - i,
{
    if i >= n {
        None
    } else if stream_of(frames[i].rows) == Some(id as u64) {
        Some(frames[i].summary.source)
    } else {
        opener(frames, id, i + 1, n)
    }
}

proof fn opener_grows(frames: Seq<FrameView>, id: u32, i: int, n: int)
    requires
        0 <= i < n,
    ensures
        opener(frames, id, i, n) == if opener(frames, id, i, n - 1) is Some {
            opener(frames, id, i, n - 1)
        } else if stream_of(frames[n - 1].rows) == Some(id as u64) {
            Some(frames[n - 1].summary.source)
        } else {
            None
        },
    decreases n - i,
{
    if i < n - 1 && stream_of(frames[i].rows) != Some(id as u64) {
        opener_grows(frames, id, i + 1, n);
    } else if i == n - 1 {
        assert(opener(frames, id, i + 1, n) is None);
    }
}

/// The frame carries payload of stream `id` and was sent by whoever sent the
/// stream's first frame, or, for the other direction, by someone else.
pub open spec fn said(
    frames: Seq<FrameView>,
    id: u32,
    k: int,
    by_opener: bool,
) -> bool {
    piece_in(frames[k], id) is Some && (opener(frames, id, 0, frames.len() as int) == Some(
        frames[k].summary.source,
    ) <==> by_opener)
}

/// How many of the first `n` frames were said by one side.
pub open spec fn frames_said(frames: Seq<FrameView>, id: u32, by_opener: bool, n: int) -> int
    decreases n,
{
    if n <= 0 {
        0
    } else {
        frames_said(frames, id, by_opener, n - 1) + if said(frames, id, n - 1, by_opener) {
            1int
        } else {
            0
        }
    }
}

/// How many bytes of payload those frames carry.
pub open spec fn bytes_said(frames: Seq<FrameView>, id: u32, by_opener: bool, n: int) -> int
    decreases n,
{
    if n <= 0 {
        0
    } else {
        bytes_said(frames, id, by_opener, n - 1) + if said(frames, id, n - 1, by_opener) {
            piece_in(frames[n - 1], id)->Some_0.1.len() as int
        } else {
            0
        }
    }
}

proof fn opener_stays(frames: Seq<FrameView>, id: u32, n: int, k: int)
    requires
        0 <= n <= k,
        opener(frames, id, 0, n) is Some,
    ensures
        opener(frames, id, 0, k) == opener(frames, id, 0, n),
    decreases k - n,
{
    if n < k {
        opener_grows(frames, id, 0, n + 1);
        opener_stays(frames, id, n + 1, k);
    }
}

proof fn said_positive(frames: Seq<FrameView>, id: u32, by_opener: bool, n: int, k: int)
    requires
        0 <= n <= k,
    ensures
        0 <= frames_said(frames, id, by_opener, n) <= n,
        0 <= bytes_said(frames, id, by_opener, n) <= bytes_said(frames, id, by_opener, k),
    decreases k,
{
    if n < k {
        said_positive(frames, id, by_opener, n, k - 1);
    } else if n > 0 {
        said_positive(frames, id, by_opener, n - 1, n - 1);
    }
}

/// Forward is what the sender of the stream's first frame says. Each column
/// counts the frames that carry payload in its own direction, and their
/// bytes, and each piece is in the direction of its frame.
pub proof fn each_side_is_counted_by_itself(frames: Seq<FrameView>, id: u32, n: int)
    requires
        0 <= n <= frames.len() <= 0xffff_ffff,
        bytes_said(frames, id, true, frames.len() as int) <= u64::MAX,
        bytes_said(frames, id, false, frames.len() as int) <= u64::MAX,
        forall|k: int|
            0 <= k < frames.len() ==> (piece_in(#[trigger] frames[k], id) matches Some(p)
                ==> p.1.len() <= u64::MAX),
    ensures
        ({
            let g = gathered(frames, id, n);
            &&& g.origin == opener(frames, id, 0, n)
            &&& g.frames.0 == frames_said(frames, id, true, n)
            &&& g.frames.1 == frames_said(frames, id, false, n)
            &&& g.bytes.0 == bytes_said(frames, id, true, n)
            &&& g.bytes.1 == bytes_said(frames, id, false, n)
            &&& g.pieces.len() == g.numbers.len()
            &&& forall|i: int|
                0 <= i < g.pieces.len() ==> g.numbers[i] == (#[trigger] g.pieces[i]).frame
        }),
    decreases n,
{
    if n > 0 {
        each_side_is_counted_by_itself(frames, id, n - 1);
        let f = frames[n - 1];
        opener_grows(frames, id, 0, n);
        let end = frames.len() as int;
        said_positive(frames, id, true, n, end);
        said_positive(frames, id, false, n, end);
        said_positive(frames, id, true, n - 1, end);
        said_positive(frames, id, false, n - 1, end);
        let before = gathered(frames, id, n - 1);
        assert(before.begun(f, id) == opener(frames, id, 0, n));
        if piece_in(f, id) is Some {
            opener_stays(frames, id, n, end);
        }
    }
}

/// The piece of a frame is forward exactly where the frame's sender is the
/// one that opened the stream.
pub proof fn pieces_go_the_way_of_their_frame(g: Gathered, f: FrameView, id: u32)
    requires
        piece_in(f, id) is Some,
    ensures
        ({
            let p = g.with(f, id).pieces.last();
            let origin = g.with(f, id).origin;
            &&& p.frame == f.number
            &&& p.seq == piece_in(f, id)->Some_0.0
            &&& p.bytes == piece_in(f, id)->Some_0.1
            &&& g.origin is Some ==> origin == g.origin
            &&& g.origin is None ==> origin == Some(f.summary.source)
            &&& origin == Some(f.summary.source) <==> p.direction == Direction::Forward
        }),
{
}

/// What a TCP frame carries begins where its TCP header ends, or where the
/// layer shows its segment data, and goes on to the end of the data source;
/// its place in the stream is its sequence number.
pub proof fn tcp_payload_follows_the_header(f: FrameView, k: int, q: int, p: int, d: Seq<u8>)
    requires
        leads_as(f.rows, "tcp"@, k),
        leads_as(f.rows, "tcp.seq"@, q),
        f.rows[q].value matches ValueView::Unsigned(v) && v <= u32::MAX,
        leads_as(f.rows, "tcp.payload"@, p) || missing(f.rows, "tcp.payload"@),
        ({
            let r = if missing(f.rows, "tcp.payload"@) {
                f.rows[k]
            } else {
                f.rows[p]
            };
            let start = if missing(f.rows, "tcp.payload"@) {
                r.end
            } else {
                r.start
            };
            source_of(f.bytes, f.extra, r.source) == Some(d) && 0 <= start <= d.len()
        }),
    ensures
        payload_in(f) matches Some((seq, b)) && f.rows[q].value == ValueView::Unsigned(seq as u64)
            && b == d.skip(
            if missing(f.rows, "tcp.payload"@) {
                f.rows[k].end
            } else {
                f.rows[p].start
            },
        ),
{
    lemma_leads(f.rows, "tcp"@, 0, k);
    lemma_leads(f.rows, "tcp.seq"@, 0, q);
    if missing(f.rows, "tcp.payload"@) {
        lemma_missing(f.rows, "tcp.payload"@, 0);
    } else {
        lemma_leads(f.rows, "tcp.payload"@, 0, p);
    }
}

/// What a UDP frame carries begins where its header ends; datagrams have no
/// order but that of their frames.
pub proof fn udp_payload_follows_the_header(f: FrameView, k: int, d: Seq<u8>)
    requires
        missing(f.rows, "tcp"@),
        leads_as(f.rows, "udp"@, k),
        source_of(f.bytes, f.extra, f.rows[k].source) == Some(d),
        0 <= f.rows[k].end <= d.len(),
    ensures
        payload_in(f) == Some((f.number, d.skip(f.rows[k].end))),
{
    lemma_missing(f.rows, "tcp"@, 0);
    lemma_leads(f.rows, "udp"@, 0, k);
}

// ---- joining what was said ---------------------------------------------------------

/// Bytes that continue a direction are all new, and nothing is missing.
pub proof fn what_follows_is_appended(j: Joining, p: PieceView)
    requires
        0 < p.bytes.len() < 0x8000_0000,
        p.seq == j.next,
    ensures
        ({
            let k = j.with(p);
            &&& k.next == seq_plus(j.next, p.bytes.len() as int)
            &&& k.missing == j.missing
            &&& k.chunks.len() == j.chunks.len() + 1
            &&& k.chunks.last().bytes == p.bytes
            &&& k.chunks.last().gap_before == 0
            &&& k.chunks.last().frame == p.frame
            &&& k.chunks.last().direction == p.direction
        }),
{
    reveal(seq_plus);
    reveal(seq_past);
    reveal(seq_before);
    assert(p.bytes.skip(0) =~= p.bytes);
    assert(p.bytes.subrange(0, p.bytes.len() as int) =~= p.bytes);
}

/// Bytes that were never seen are a gap in front of what came behind them.
pub proof fn what_is_missing_is_a_gap(j: Joining, p: PieceView, gap: int)
    requires
        0 < p.bytes.len() < 0x4000_0000,
        0 < gap < 0x4000_0000,
        p.seq == seq_plus(j.next, gap),
        j.missing + gap <= u64::MAX,
    ensures
        ({
            let k = j.with(p);
            &&& k.next == seq_plus(j.next, gap + p.bytes.len())
            &&& k.missing == j.missing + gap
            &&& k.chunks.len() == j.chunks.len() + 1
            &&& k.chunks.last().bytes == p.bytes
            &&& k.chunks.last().gap_before == gap
            &&& k.chunks.last().frame == p.frame
        }),
{
    reveal(seq_plus);
    reveal(seq_past);
    reveal(seq_before);
}

/// Of bytes that overlap what was taken, only those behind it are new; what
/// was taken stays as it was.
pub proof fn what_overlaps_adds_only_what_is_new(j: Joining, p: PieceView, known: int)
    requires
        0 < known < 0x4000_0000,
        p.bytes.len() < 0x4000_0000,
        j.next == seq_plus(p.seq, known),
    ensures
        known >= p.bytes.len() ==> j.with(p) == j,
        known < p.bytes.len() ==> ({
            let k = j.with(p);
            &&& k.next == seq_plus(p.seq, p.bytes.len() as int)
            &&& k.missing == j.missing
            &&& k.chunks.drop_last() == j.chunks
            &&& k.chunks.last().bytes == p.bytes.skip(known)
            &&& k.chunks.last().gap_before == 0
        }),
{
    reveal(seq_plus);
    reveal(seq_past);
    reveal(seq_before);
    let k = j.with(p);
    if known < p.bytes.len() {
        assert(k.chunks.drop_last() =~= j.chunks);
        assert(p.bytes.subrange(known, p.bytes.len() as int) =~= p.bytes.skip(known));
    }
}

/// The frames of the runs ascend.
pub open spec fn by_frame(s: Seq<ChunkView>) -> bool {
    forall|i: int, j: int| 0 <= i < j < s.len() ==> s[i].frame <= s[j].frame
}

/// Both sides take turns in the order of their frames.
pub proof fn turns_are_taken_in_frame_order(a: Seq<ChunkView>, b: Seq<ChunkView>)
    requires
        by_frame(a),
        by_frame(b),
    ensures
        by_frame(interleaved(a, b)),
        interleaved(a, b).len() == a.len() + b.len(),
        forall|i: int|
            0 <= i < interleaved(a, b).len() ==> (a.len() > 0 && a[0].frame <= (
            #[trigger] interleaved(a, b)[i]).frame) || (b.len() > 0 && b[0].frame <= interleaved(
                a,
                b,
            )[i].frame),
    decreases a.len() + b.len(),
{
    let all = interleaved(a, b);
    if a.len() > 0 && b.len() > 0 {
        let (x, rest) = if a[0].frame <= b[0].frame {
            (a[0], interleaved(a.drop_first(), b))
        } else {
            (b[0], interleaved(a, b.drop_first()))
        };
        if a[0].frame <= b[0].frame {
            assert(by_frame(a.drop_first()));
            turns_are_taken_in_frame_order(a.drop_first(), b);
            if a.drop_first().len() > 0 {
                assert(a.drop_first()[0] == a[1]);
            }
        } else {
            assert(by_frame(b.drop_first()));
            turns_are_taken_in_frame_order(a, b.drop_first());
            if b.drop_first().len() > 0 {
                assert(b.drop_first()[0] == b[1]);
            }
        }
        assert(all == seq![x] + rest);
        assert forall|i: int, j: int| 0 <= i < j < all.len() implies all[i].frame
            <= all[j].frame by {
            assert(all[j] == rest[j - 1]);
            if i > 0 {
                assert(all[i] == rest[i - 1]);
            }
        }
        assert forall|i: int| 0 <= i < all.len() implies a[0].frame <= (#[trigger] all[i]).frame
            || b[0].frame <= all[i].frame by {
            if i > 0 {
                assert(all[i] == rest[i - 1]);
            }
        }
    }
}

} // verus!

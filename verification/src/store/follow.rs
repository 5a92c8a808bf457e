//! Follow Stream: the bytes of one conversation, in order, rebuilt from the
//! frames the store already holds.
//!
//! Nothing is kept per stream while capturing. Following walks the snapshot
//! once, gathers the frames carrying the stream id, orders each direction by
//! sequence number and joins them. Memory therefore does not grow with
//! traffic, which matters for a ring measured in gigabytes; the cost is one
//! pass over the store each time, which is milliseconds for the stream
//! lengths anyone actually reads.
//!
//! What it reconstructs is *what was captured*, which is not always what was
//! sent. Retransmissions are dropped, overlaps keep the bytes seen first, and
//! a range nothing covered is reported as a gap rather than silently closed
//! up - a stream with a hole in it must not look like a stream without one.

use vstd::prelude::View as _;
use vstd::prelude::*;

use super::conversations::{number_at, plus, same_addr};
use super::order::{arranged, is_order, order_by, order_exists, precedes, stable_order};
use super::Snapshot;
use crate::bytes;
use crate::dissect::node::{first_named, Row as TreeRow, ValueView};
use crate::dissect::stream::tcp::{seq_add, seq_before, seq_lt, seq_past, seq_plus, seq_sub};
use crate::dissect::stream::Direction;
use crate::dissect::{source_of, Addr, AddrView, Frame, FrameView};
use crate::text;

verus! {

/// One run of bytes from one end of the conversation.
#[derive(Debug, Clone, PartialEq, Eq)]
pub struct Chunk {
    pub direction: Direction,
    /// Frame the run started in.
    pub frame: u32,
    pub bytes: Vec<u8>,
    /// Bytes missing immediately before this run, from segments the capture
    /// never saw.
    pub gap_before: u64,
}

/// What a run holds.
#[verifier::ext_equal]
pub struct ChunkView {
    pub direction: Direction,
    pub frame: u32,
    pub bytes: Seq<u8>,
    pub gap_before: u64,
}

impl vstd::prelude::View for Chunk {
    type V = ChunkView;

    open spec fn view(&self) -> ChunkView {
        ChunkView {
            direction: self.direction,
            frame: self.frame,
            bytes: self.bytes@,
            gap_before: self.gap_before,
        }
    }
}

/// Runs by what they hold.
pub open spec fn chunk_views(v: Seq<Chunk>) -> Seq<ChunkView> {
    v.map_values(|c: Chunk| c@)
}

/// Everything gathered for one stream.
#[derive(Debug, Clone, Default)]
pub struct Stream {
    pub id: u32,
    pub chunks: Vec<Chunk>,
    /// Frames that carried payload, per direction.
    pub frames: [u32; 2],
    pub bytes: [u64; 2],
    /// Total bytes the capture is missing.
    pub missing: u64,
    /// Frame numbers involved, in capture order.
    pub frame_numbers: Vec<u32>,
}

/// The bytes of the runs in one direction, joined.
pub open spec fn joined_bytes(chunks: Seq<ChunkView>, direction: Direction) -> Seq<u8>
    decreases chunks.len(),
{
    if chunks.len() == 0 {
        Seq::empty()
    } else if chunks.last().direction == direction {
        joined_bytes(chunks.drop_last(), direction) + chunks.last().bytes
    } else {
        joined_bytes(chunks.drop_last(), direction)
    }
}

impl Stream {
    pub fn is_empty(&self) -> (r: bool)
        ensures
            r == (self.chunks@.len() == 0),
    {
        self.chunks.len() == 0
    }

    /// The conversation as one run of bytes per direction.
    pub fn joined(&self, direction: Direction) -> (r: Vec<u8>)
        ensures
            r@ == joined_bytes(chunk_views(self.chunks@), direction),
            r@ == joined_bytes(runs_of(chunk_views(self.chunks@), direction), direction),
    {
        let ghost all = chunk_views(self.chunks@);
        let mut out: Vec<u8> = Vec::new();
        let mut i: usize = 0;
        assert(all.take(0) =~= Seq::empty());
        while i < self.chunks.len()
            invariant
                i <= self.chunks@.len(),
                all == chunk_views(self.chunks@),
                out@ == joined_bytes(all.take(i as int), direction),
            decreases self.chunks.len() - i,
        {
            assert(all.take(i + 1).drop_last() =~= all.take(i as int));
            assert(all.take(i + 1).last() == self.chunks@[i as int]@);
            if self.chunks[i].direction == direction {
                bytes::put_all(&mut out, &self.chunks[i].bytes);
            }
            i += 1;
        }
        assert(all.take(i as int) =~= all);
        proof {
            lemma_joined_runs(all, direction);
        }
        out
    }
}

proof fn lemma_joined_runs(chunks: Seq<ChunkView>, direction: Direction)
    ensures
        joined_bytes(chunks, direction) == joined_bytes(runs_of(chunks, direction), direction),
    decreases chunks.len(),
{
    if chunks.len() > 0 {
        lemma_joined_runs(chunks.drop_last(), direction);
        let less = runs_of(chunks.drop_last(), direction);
        if chunks.last().direction == direction {
            assert(less.push(chunks.last()).drop_last() =~= less);
        }
    }
}

/// One segment's contribution, before ordering.
#[derive(Debug)]
pub struct Piece {
    pub direction: Direction,
    pub frame: u32,
    pub seq: u32,
    pub bytes: Vec<u8>,
}

/// What a piece holds.
#[verifier::ext_equal]
pub struct PieceView {
    pub direction: Direction,
    pub frame: u32,
    pub seq: u32,
    pub bytes: Seq<u8>,
}

impl vstd::prelude::View for Piece {
    type V = PieceView;

    open spec fn view(&self) -> PieceView {
        PieceView {
            direction: self.direction,
            frame: self.frame,
            seq: self.seq,
            bytes: self.bytes@,
        }
    }
}

/// Pieces by what they hold.
pub open spec fn piece_views(v: Seq<Piece>) -> Seq<PieceView> {
    v.map_values(|p: Piece| p@)
}

// ---- the payload of one frame ---------------------------------------------------

/// The first number among the rows called `name`, from `i` on.
pub open spec fn first_number(rows: Seq<TreeRow>, name: Seq<char>, i: int) -> Option<u64>
    decreases rows.len() - i,
{
    if i < 0 || i >= rows.len() {
        None
    } else if rows[i].abbrev == name && rows[i].value is Unsigned {
        match rows[i].value {
            ValueView::Unsigned(v) => Some(v),
            _ => None,
        }
    } else {
        first_number(rows, name, i + 1)
    }
}

/// The stream a frame belongs to.
pub open spec fn stream_of(rows: Seq<TreeRow>) -> Option<u64> {
    match first_number(rows, "tcp.stream"@, 0) {
        Some(v) => Some(v),
        None => first_number(rows, "udp.stream"@, 0),
    }
}

/// What data source `id` holds from `start` on.
pub open spec fn rest_of(f: FrameView, id: u8, start: int) -> Option<Seq<u8>> {
    match source_of(f.bytes, f.extra, id) {
        Some(d) => if 0 <= start <= d.len() {
            Some(d.skip(start))
        } else {
            None
        },
        None => None,
    }
}

/// A frame's transport payload and its sequence number. The payload runs from
/// the end of the TCP header, or from the start of the segment data where
/// the layer shows it as a field of its own, to the end of the layer's data
/// source. UDP has no sequence space; capture order is the only order.
pub open spec fn payload_in(f: FrameView) -> Option<(u32, Seq<u8>)> {
    match first_named(f.rows, "tcp"@, 0) {
        Some(k) => {
            let seq = match number_at(f.rows, "tcp.seq"@) {
                Some(v) => v as u32,
                None => 0u32,
            };
            let rest = match first_named(f.rows, "tcp.payload"@, 0) {
                Some(p) => rest_of(f, f.rows[p].source, f.rows[p].start),
                None => rest_of(f, f.rows[k].source, f.rows[k].end),
            };
            match rest {
                Some(b) => Some((seq, b)),
                None => None,
            }
        },
        None => match first_named(f.rows, "udp"@, 0) {
            Some(k) => match rest_of(f, f.rows[k].source, f.rows[k].end) {
                Some(b) => Some((f.number, b)),
                None => None,
            },
            None => None,
        },
    }
}

/// The payload a frame contributed to stream `id`, if any.
pub open spec fn piece_in(f: FrameView, id: u32) -> Option<(u32, Seq<u8>)> {
    match (stream_of(f.rows), payload_in(f)) {
        (Some(stream), Some((seq, b))) => if stream == id && b.len() > 0 {
            Some((seq, b))
        } else {
            None
        },
        _ => None,
    }
}

fn find_number(frame: &Frame, name: &str) -> (r: Option<u64>)
    ensures
        r == first_number(frame@.rows, name@, 0),
{
    let n: usize = frame.tree.len();
    let mut i: usize = 0;
    while i < n
        invariant
            i <= n == frame@.rows.len(),
            first_number(frame@.rows, name@, 0) == first_number(frame@.rows, name@, i as int),
        decreases n - i,
    {
        if let Some(node) = frame.tree.get(i) {
            if text::same(node.abbrev(), name) {
                if let Some(v) = node.unsigned() {
                    return Some(v);
                }
            }
        }
        i += 1;
    }
    None
}

fn rest<'a>(frame: &'a Frame, id: u8, start: usize) -> (r: Option<&'a [u8]>)
    ensures
        match r {
            Some(b) => rest_of(frame@, id, start as int) == Some(b@),
            None => rest_of(frame@, id, start as int) is None,
        },
{
    match frame.source(id) {
        Some(d) => {
            let n: usize = d.len();
            if start <= n {
                assert(d@.skip(start as int) =~= d@.subrange(start as int, n as int));
                Some(bytes::part(d, start, n))
            } else {
                None
            }
        },
        None => None,
    }
}

fn payload_of<'a>(frame: &'a Frame) -> (r: Option<(u32, &'a [u8])>)
    ensures
        match r {
            Some((seq, b)) => payload_in(frame@) == Some((seq, b@)),
            None => payload_in(frame@) is None,
        },
{
    if let Some(tcp) = frame.tree.first("tcp") {
        let seq: u32 = match frame.tree.first("tcp.seq") {
            Some(n) => match n.unsigned() {
                Some(v) => v as u32,
                None => 0,
            },
            None => 0,
        };
        let rest = match frame.tree.first("tcp.payload") {
            Some(p) => rest(frame, p.source(), p.range().start),
            None => rest(frame, tcp.source(), tcp.range().end),
        };
        return match rest {
            Some(b) => Some((seq, b)),
            None => None,
        };
    }
    match frame.tree.first("udp") {
        Some(udp) => match rest(frame, udp.source(), udp.range().end) {
            Some(b) => Some((frame.number, b)),
            None => None,
        },
        None => None,
    }
}

fn belongs_to(frame: &Frame, id: u32) -> (r: bool)
    ensures
        r == (stream_of(frame@.rows) == Some(id as u64)),
{
    let stream: Option<u64> = match find_number(frame, "tcp.stream") {
        Some(v) => Some(v),
        None => find_number(frame, "udp.stream"),
    };
    match stream {
        Some(v) => v == id as u64,
        None => false,
    }
}

fn piece_of(frame: &Frame, id: u32) -> (r: Option<Piece>)
    ensures
        match r {
            Some(p) => piece_in(frame@, id) == Some((p.seq, p@.bytes)) && p.direction
                == Direction::Forward && p.frame == frame@.number,
            None => piece_in(frame@, id) is None,
        },
{
    if !belongs_to(frame, id) {
        return None;
    }
    match payload_of(frame) {
        Some((seq, b)) => if b.len() == 0 {
            None
        } else {
            Some(
                Piece {
                    direction: Direction::Forward,
                    frame: frame.number,
                    seq,
                    bytes: bytes::copy_of(b),
                },
            )
        },
        None => None,
    }
}

// ---- gathering ----------------------------------------------------------------------

/// What was gathered of a stream before its bytes are ordered.
#[verifier::ext_equal]
pub struct Gathered {
    /// Source of the first frame, which defines "forward".
    pub origin: Option<AddrView>,
    pub pieces: Seq<PieceView>,
    pub datagrams: bool,
    pub numbers: Seq<u32>,
    pub frames: (u32, u32),
    pub bytes: (u64, u64),
}

/// A count that stops at the largest number.
pub open spec fn one_more(n: u32) -> u32 {
    if n == u32::MAX {
        n
    } else {
        (n + 1) as u32
    }
}

fn count(n: u32) -> (r: u32)
    ensures
        r == one_more(n),
{
    if n == u32::MAX {
        n
    } else {
        n + 1
    }
}

/// The direction of a frame from `source`, in a stream whose first frame came
/// from `origin`.
pub open spec fn direction_from(origin: Option<AddrView>, source: AddrView) -> Direction {
    match origin {
        Some(o) => if source == o {
            Direction::Forward
        } else {
            Direction::Reverse
        },
        None => Direction::Forward,
    }
}

impl Gathered {
    /// Nothing gathered yet.
    pub open spec fn nothing() -> Gathered {
        Gathered {
            origin: None,
            pieces: Seq::empty(),
            datagrams: false,
            numbers: Seq::empty(),
            frames: (0, 0),
            bytes: (0, 0),
        }
    }

    /// Where the stream began, once `f` is known of: its first frame defines
    /// "forward", whether or not that frame carries payload.
    pub open spec fn begun(self, f: FrameView, id: u32) -> Option<AddrView> {
        if self.origin is None && stream_of(f.rows) == Some(id as u64) {
            Some(f.summary.source)
        } else {
            self.origin
        }
    }

    /// What is gathered after one more frame.
    pub open spec fn with(self, f: FrameView, id: u32) -> Gathered {
        let origin = self.begun(f, id);
        match piece_in(f, id) {
            None => Gathered { origin, ..self },
            Some((seq, b)) => {
                let direction = direction_from(origin, f.summary.source);
                let len = b.len() as u64;
                Gathered {
                    origin,
                    pieces: self.pieces.push(
                        PieceView { direction, frame: f.number, seq, bytes: b },
                    ),
                    datagrams: self.datagrams || first_named(f.rows, "udp.stream"@, 0) is Some,
                    numbers: self.numbers.push(f.number),
                    frames: match direction {
                        Direction::Forward => (one_more(self.frames.0), self.frames.1),
                        Direction::Reverse => (self.frames.0, one_more(self.frames.1)),
                    },
                    bytes: match direction {
                        Direction::Forward => (plus(self.bytes.0, len), self.bytes.1),
                        Direction::Reverse => (self.bytes.0, plus(self.bytes.1, len)),
                    },
                }
            },
        }
    }
}

/// What the first `n` frames hold of stream `id`.
pub open spec fn gathered(frames: Seq<FrameView>, id: u32, n: int) -> Gathered
    decreases n,
{
    if n <= 0 {
        Gathered::nothing()
    } else {
        gathered(frames, id, n - 1).with(frames[n - 1], id)
    }
}

/// A stream while it is gathered.
struct Gathering {
    origin: Option<Addr>,
    pieces: Vec<Piece>,
    datagrams: bool,
    numbers: Vec<u32>,
    frames: [u32; 2],
    bytes: [u64; 2],
}

impl vstd::prelude::View for Gathering {
    type V = Gathered;

    closed spec fn view(&self) -> Gathered {
        Gathered {
            origin: match self.origin {
                Some(a) => Some(a@),
                None => None,
            },
            pieces: piece_views(self.pieces@),
            datagrams: self.datagrams,
            numbers: self.numbers@,
            frames: (self.frames@[0], self.frames@[1]),
            bytes: (self.bytes@[0], self.bytes@[1]),
        }
    }
}

impl Gathering {
    fn take(&mut self, frame: &Frame, id: u32)
        ensures
            final(self)@ == old(self)@.with(frame@, id),
    {
        let ghost before = self@;
        let from: Addr = frame.summary.source;
        if self.origin.is_none() && belongs_to(frame, id) {
            self.origin = Some(from);
        }
        if let Some(piece) = piece_of(frame, id) {
            let direction: Direction = match &self.origin {
                Some(o) => if same_addr(&from, o) {
                    Direction::Forward
                } else {
                    Direction::Reverse
                },
                None => Direction::Forward,
            };
            if frame.tree.first("udp.stream").is_some() {
                self.datagrams = true;
            }
            self.numbers.push(frame.number);
            let len: u64 = piece.bytes.len() as u64;
            let (f, b) = (self.frames, self.bytes);
            match direction {
                Direction::Forward => {
                    self.frames = [count(f[0]), f[1]];
                    self.bytes = [b[0].saturating_add(len), b[1]];
                },
                Direction::Reverse => {
                    self.frames = [f[0], count(f[1])];
                    self.bytes = [b[0], b[1].saturating_add(len)];
                },
            }
            let piece = Piece { direction, ..piece };
            let ghost added = piece@;
            self.pieces.push(piece);
            assert(self@.pieces =~= before.pieces.push(added));
        }
    }
}

// ---- ordering -----------------------------------------------------------------------

/// The pieces of one direction among the first `n`, in order.
pub open spec fn side(pieces: Seq<PieceView>, direction: Direction, n: int) -> Seq<PieceView>
    decreases n,
{
    if n <= 0 {
        Seq::empty()
    } else if pieces[n - 1].direction == direction {
        side(pieces, direction, n - 1).push(pieces[n - 1])
    } else {
        side(pieces, direction, n - 1)
    }
}

/// Where a piece comes in the order of its direction: by its distance from
/// the first piece in sequence space, and by frame within equal sequence
/// numbers, so that a retransmission follows the segment it repeats.
pub open spec fn place(base: u32, p: PieceView) -> u64 {
    ((seq_past(seq_plus(p.seq, 0x8000_0000), base) as u32) as u64 * 0x1_0000_0000
        + p.frame) as u64
}

/// The places of all pieces of a direction.
pub open spec fn places(pieces: Seq<PieceView>) -> Seq<u64> {
    pieces.map_values(|p: PieceView| place(pieces[0].seq, p))
}

/// The pieces of a direction in sequence order.
pub open spec fn in_sequence(pieces: Seq<PieceView>) -> Seq<PieceView> {
    arranged(pieces, stable_order(places(pieces)))
}

/// One direction while its pieces are joined: the next sequence number
/// wanted, the bytes found missing, and the runs so far.
#[verifier::ext_equal]
pub struct Joining {
    pub next: u32,
    pub missing: u64,
    pub chunks: Seq<ChunkView>,
}

impl Joining {
    /// The same, after the next piece in sequence order.
    pub open spec fn with(self, p: PieceView) -> Joining {
        let end = seq_plus(p.seq, p.bytes.len() as int);
        if !seq_before(self.next, end) {
            // Every byte already taken: a retransmission.
            self
        } else if seq_before(self.next, p.seq) {
            // A hole: nothing covered the bytes in between.
            let gap = seq_past(p.seq, self.next) as u64;
            let missing = plus(self.missing, gap);
            if p.bytes.len() == 0 {
                Joining { missing, ..self }
            } else {
                Joining {
                    next: end,
                    missing,
                    chunks: self.chunks.push(
                        ChunkView {
                            direction: p.direction,
                            frame: p.frame,
                            bytes: p.bytes,
                            gap_before: gap,
                        },
                    ),
                }
            }
        } else {
            // Overlap: keep the bytes already taken, add only what is new.
            let skip = seq_past(self.next, p.seq);
            if skip >= p.bytes.len() {
                self
            } else {
                Joining {
                    next: end,
                    missing: self.missing,
                    chunks: self.chunks.push(
                        ChunkView {
                            direction: p.direction,
                            frame: p.frame,
                            bytes: p.bytes.skip(skip),
                            gap_before: 0,
                        },
                    ),
                }
            }
        }
    }
}

/// The first `n` pieces joined, starting from `start`.
pub open spec fn joining(pieces: Seq<PieceView>, start: Joining, n: int) -> Joining
    decreases n,
{
    if n <= 0 {
        start
    } else {
        joining(pieces, start, n - 1).with(pieces[n - 1])
    }
}

/// One direction of a stream joined, after the runs and the missing bytes
/// found before it.
pub open spec fn side_joined(
    pieces: Seq<PieceView>,
    direction: Direction,
    before: Joining,
) -> Joining {
    let all = side(pieces, direction, pieces.len() as int);
    if all.len() == 0 {
        before
    } else {
        let sorted = in_sequence(all);
        joining(sorted, Joining { next: sorted[0].seq, ..before }, sorted.len() as int)
    }
}

/// One direction joined by itself, after `missing` bytes found missing before.
pub open spec fn alone(pieces: Seq<PieceView>, direction: Direction, missing: u64) -> Joining {
    side_joined(pieces, direction, Joining { next: 0, missing, chunks: Seq::empty() })
}

/// The bytes found missing in both directions, on top of `missing`.
pub open spec fn missing_in(pieces: Seq<PieceView>, missing: u64) -> u64 {
    alone(
        pieces,
        Direction::Reverse,
        alone(pieces, Direction::Forward, missing).missing,
    ).missing
}

/// The runs of two directions, of which each keeps its order; where both have
/// one to give, the one that began in the earlier frame comes first.
pub open spec fn interleaved(a: Seq<ChunkView>, b: Seq<ChunkView>) -> Seq<ChunkView>
    decreases a.len() + b.len(),
{
    if a.len() == 0 {
        b
    } else if b.len() == 0 {
        a
    } else if a[0].frame <= b[0].frame {
        seq![a[0]] + interleaved(a.drop_first(), b)
    } else {
        seq![b[0]] + interleaved(a, b.drop_first())
    }
}

/// Both directions joined and interleaved, so that the transcript reads in the
/// order the conversation happened.
pub open spec fn conversation(pieces: Seq<PieceView>, missing: u64) -> Seq<ChunkView> {
    let forward = alone(pieces, Direction::Forward, missing);
    let reverse = alone(pieces, Direction::Reverse, forward.missing);
    interleaved(forward.chunks, reverse.chunks)
}

/// The runs in one direction.
pub open spec fn runs_of(chunks: Seq<ChunkView>, direction: Direction) -> Seq<ChunkView>
    decreases chunks.len(),
{
    if chunks.len() == 0 {
        Seq::empty()
    } else if chunks.last().direction == direction {
        runs_of(chunks.drop_last(), direction).push(chunks.last())
    } else {
        runs_of(chunks.drop_last(), direction)
    }
}

/// All runs go one way.
pub open spec fn one_way(chunks: Seq<ChunkView>, direction: Direction) -> bool {
    forall|i: int| 0 <= i < chunks.len() ==> (#[trigger] chunks[i]).direction == direction
}

proof fn lemma_runs_of_first(x: ChunkView, rest: Seq<ChunkView>, direction: Direction)
    ensures
        runs_of(seq![x] + rest, direction) == (if x.direction == direction {
            seq![x] + runs_of(rest, direction)
        } else {
            runs_of(rest, direction)
        }),
    decreases rest.len(),
{
    let all = seq![x] + rest;
    if rest.len() == 0 {
        assert(rest =~= Seq::empty() && all.drop_last() =~= rest);
        assert(runs_of(rest, direction) =~= Seq::empty());
        assert(all.last() == x);
        assert(seq![x] + Seq::<ChunkView>::empty() =~= Seq::<ChunkView>::empty().push(x));
    } else {
        lemma_runs_of_first(x, rest.drop_last(), direction);
        assert(all.drop_last() =~= seq![x] + rest.drop_last());
        assert(all.last() == rest.last());
        let less = runs_of(rest.drop_last(), direction);
        assert((seq![x] + less).push(rest.last()) =~= seq![x] + less.push(rest.last()));
    }
}

proof fn lemma_runs_one_way(chunks: Seq<ChunkView>, way: Direction, direction: Direction)
    requires
        one_way(chunks, way),
    ensures
        runs_of(chunks, direction) == (if way == direction {
            chunks
        } else {
            Seq::empty()
        }),
    decreases chunks.len(),
{
    if chunks.len() > 0 {
        assert(chunks.last() == chunks[chunks.len() - 1]);
        assert forall|i: int| 0 <= i < chunks.drop_last().len() implies (
        #[trigger] chunks.drop_last()[i]).direction == way by {
            assert(chunks[i].direction == way);
        }
        lemma_runs_one_way(chunks.drop_last(), way, direction);
        assert(chunks.drop_last().push(chunks.last()) =~= chunks);
    }
}

proof fn lemma_interleaved(a: Seq<ChunkView>, b: Seq<ChunkView>)
    requires
        one_way(a, Direction::Forward),
        one_way(b, Direction::Reverse),
    ensures
        runs_of(interleaved(a, b), Direction::Forward) == a,
        runs_of(interleaved(a, b), Direction::Reverse) == b,
    decreases a.len() + b.len(),
{
    if a.len() == 0 || b.len() == 0 {
        lemma_runs_one_way(a, Direction::Forward, Direction::Forward);
        lemma_runs_one_way(a, Direction::Forward, Direction::Reverse);
        lemma_runs_one_way(b, Direction::Reverse, Direction::Forward);
        lemma_runs_one_way(b, Direction::Reverse, Direction::Reverse);
        if a.len() == 0 {
            assert(a =~= Seq::empty());
        } else {
            assert(b =~= Seq::empty());
        }
    } else if a[0].frame <= b[0].frame {
        let rest = a.drop_first();
        assert(one_way(rest, Direction::Forward)) by {
            assert forall|i: int| 0 <= i < rest.len() implies (#[trigger] rest[i]).direction
                == Direction::Forward by {
                assert(a[i + 1].direction == Direction::Forward);
            }
        }
        lemma_interleaved(rest, b);
        lemma_runs_of_first(a[0], interleaved(rest, b), Direction::Forward);
        lemma_runs_of_first(a[0], interleaved(rest, b), Direction::Reverse);
        assert(seq![a[0]] + rest =~= a);
    } else {
        let rest = b.drop_first();
        assert(one_way(rest, Direction::Reverse)) by {
            assert forall|i: int| 0 <= i < rest.len() implies (#[trigger] rest[i]).direction
                == Direction::Reverse by {
                assert(b[i + 1].direction == Direction::Reverse);
            }
        }
        lemma_interleaved(a, rest);
        lemma_runs_of_first(b[0], interleaved(a, rest), Direction::Forward);
        lemma_runs_of_first(b[0], interleaved(a, rest), Direction::Reverse);
        assert(seq![b[0]] + rest =~= b);
    }
}

proof fn lemma_side(pieces: Seq<PieceView>, direction: Direction, n: int)
    requires
        0 <= n <= pieces.len(),
    ensures
        side(pieces, direction, n).len() <= n,
        forall|i: int|
            0 <= i < side(pieces, direction, n).len() ==> (#[trigger] side(
                pieces,
                direction,
                n,
            )[i]).direction == direction,
    decreases n,
{
    if n > 0 {
        lemma_side(pieces, direction, n - 1);
    }
}

proof fn lemma_joining_one_way(pieces: Seq<PieceView>, start: Joining, n: int, direction: Direction)
    requires
        0 <= n <= pieces.len(),
        one_way(start.chunks, direction),
        forall|i: int| 0 <= i < pieces.len() ==> (#[trigger] pieces[i]).direction == direction,
    ensures
        one_way(joining(pieces, start, n).chunks, direction),
    decreases n,
{
    if n > 0 {
        lemma_joining_one_way(pieces, start, n - 1, direction);
        assert(pieces[n - 1].direction == direction);
    }
}

proof fn lemma_alone_one_way(pieces: Seq<PieceView>, direction: Direction, missing: u64)
    requires
        pieces.len() <= usize::MAX,
    ensures
        one_way(alone(pieces, direction, missing).chunks, direction),
{
    let all = side(pieces, direction, pieces.len() as int);
    lemma_side(pieces, direction, pieces.len() as int);
    if all.len() > 0 {
        let sorted = in_sequence(all);
        let order = stable_order(places(all));
        order_exists(places(all));
        assert forall|i: int| 0 <= i < sorted.len() implies (#[trigger] sorted[i]).direction
            == direction by {
            assert(sorted[i] == all[order[i] as int]);
        }
        lemma_joining_one_way(
            sorted,
            Joining { next: sorted[0].seq, missing, chunks: Seq::empty() },
            sorted.len() as int,
            direction,
        );
    }
}

/// Where a piece comes in the order of its direction.
fn place_of(base: u32, p: &Piece) -> (r: u64)
    ensures
        r == place(base, p@),
{
    let d: u32 = seq_sub(seq_add(p.seq, 0x8000_0000), base);
    d as u64 * 0x1_0000_0000 + p.frame as u64
}

/// A copy of a piece.
fn copied(p: &Piece) -> (r: Piece)
    ensures
        r@ == p@,
{
    Piece {
        direction: p.direction,
        frame: p.frame,
        seq: p.seq,
        bytes: bytes::copy_of(&p.bytes),
    }
}

fn pieces_of(pieces: &Vec<Piece>, direction: Direction) -> (r: Vec<Piece>)
    ensures
        piece_views(r@) == side(piece_views(pieces@), direction, pieces@.len() as int),
{
    let ghost all = piece_views(pieces@);
    let mut out: Vec<Piece> = Vec::new();
    let mut i: usize = 0;
    assert(piece_views(out@) =~= Seq::empty());
    while i < pieces.len()
        invariant
            i <= pieces@.len(),
            all == piece_views(pieces@),
            piece_views(out@) == side(all, direction, i as int),
        decreases pieces.len() - i,
    {
        assert(all[i as int] == pieces@[i as int]@);
        if pieces[i].direction == direction {
            let ghost before = out@;
            let p: Piece = copied(&pieces[i]);
            let ghost added = p@;
            out.push(p);
            assert(piece_views(out@) =~= piece_views(before).push(added));
        }
        i += 1;
    }
    out
}

/// The order in which the pieces of one direction are joined.
fn sequence_order(pieces: &Vec<Piece>) -> (r: Vec<usize>)
    requires
        pieces@.len() > 0,
    ensures
        is_order(places(piece_views(pieces@)), r@),
        r@ == stable_order(places(piece_views(pieces@))),
{
    let ghost all = piece_views(pieces@);
    let base: u32 = pieces[0].seq;
    let mut keys: Vec<u64> = Vec::new();
    let mut i: usize = 0;
    while i < pieces.len()
        invariant
            i <= pieces@.len(),
            pieces@.len() > 0,
            all == piece_views(pieces@),
            base == all[0].seq,
            keys@ == places(all).take(i as int),
        decreases pieces.len() - i,
    {
        keys.push(place_of(base, &pieces[i]));
        assert(keys@ =~= places(all).take(i + 1));
        i += 1;
    }
    assert(keys@ =~= places(all));
    order_by(&keys)
}

/// Join one more piece.
fn join_piece(p: &Piece, next: &mut u32, missing: &mut u64, out: &mut Vec<Chunk>)
    ensures
        (Joining {
            next: *final(next),
            missing: *final(missing),
            chunks: chunk_views(final(out)@),
        }) == (Joining {
            next: *old(next),
            missing: *old(missing),
            chunks: chunk_views(old(out)@),
        }).with(p@),
{
    let ghost before = chunk_views(out@);
    let len: usize = p.bytes.len();
    proof {
        lemma_whole(p.seq, len as int);
    }
    let end: u32 = seq_add(p.seq, (len as u64 % 0x1_0000_0000) as u32);
    if !seq_lt(*next, end) {
        return;
    }
    if seq_lt(*next, p.seq) {
        let gap: u64 = seq_sub(p.seq, *next) as u64;
        proof {
            lemma_past(p.seq, *next);
        }
        *missing = missing.saturating_add(gap);
        if len > 0 {
            *next = end;
            let c = Chunk {
                direction: p.direction,
                frame: p.frame,
                bytes: bytes::copy_of(&p.bytes),
                gap_before: gap,
            };
            let ghost added = c@;
            out.push(c);
            assert(chunk_views(out@) =~= before.push(added));
        }
        return;
    }
    let skip: u32 = seq_sub(*next, p.seq);
    proof {
        lemma_past(*next, p.seq);
    }
    if (skip as u64) < len as u64 {
        let from: usize = skip as usize;
        *next = end;
        assert(p.bytes@.skip(from as int) =~= p.bytes@.subrange(from as int, len as int));
        let c = Chunk {
            direction: p.direction,
            frame: p.frame,
            bytes: bytes::copy_of(bytes::part(&p.bytes, from, len)),
            gap_before: 0,
        };
        let ghost added = c@;
        out.push(c);
        assert(chunk_views(out@) =~= before.push(added));
    }
}

proof fn lemma_past(a: u32, b: u32)
    ensures
        0 <= seq_past(a, b) < 0x1_0000_0000,
{
    reveal(seq_past);
}

proof fn lemma_whole(a: u32, n: int)
    requires
        0 <= n,
    ensures
        seq_plus(a, n) == seq_plus(a, n % 0x1_0000_0000),
{
    reveal(seq_plus);
    assert((a + n) % 0x1_0000_0000 == (a + n % 0x1_0000_0000) % 0x1_0000_0000);
}

fn join_side(pieces: &Vec<Piece>, direction: Direction, missing: &mut u64, out: &mut Vec<Chunk>)
    ensures
        forall|next: u32|
            ({
                let j = #[trigger] side_joined(
                    piece_views(pieces@),
                    direction,
                    Joining { next, missing: *old(missing), chunks: chunk_views(old(out)@) },
                );
                j.missing == *final(missing) && j.chunks == chunk_views(final(out)@)
            }),
{
    let part: Vec<Piece> = pieces_of(pieces, direction);
    if part.len() == 0 {
        return;
    }
    let ghost all = piece_views(part@);
    let order: Vec<usize> = sequence_order(&part);
    let ghost sorted = in_sequence(all);
    let mut next: u32 = part[order[0]].seq;
    let ghost start = Joining { next, missing: *missing, chunks: chunk_views(out@) };
    let mut i: usize = 0;
    while i < order.len()
        invariant
            i <= order@.len() == sorted.len(),
            all == piece_views(part@),
            sorted == in_sequence(all),
            is_order(places(all), order@),
            order@ == stable_order(places(all)),
            joining(sorted, start, i as int) == (Joining {
                next,
                missing: *missing,
                chunks: chunk_views(out@),
            }),
        decreases order.len() - i,
    {
        assert(sorted[i as int] == part@[order@[i as int] as int]@);
        join_piece(&part[order[i]], &mut next, missing, out);
        i += 1;
    }
}

/// A copy of a run.
fn copied_run(c: &Chunk) -> (r: Chunk)
    ensures
        r@ == c@,
{
    Chunk {
        direction: c.direction,
        frame: c.frame,
        bytes: bytes::copy_of(&c.bytes),
        gap_before: c.gap_before,
    }
}

/// Both directions in one transcript.
fn interleave(a: &Vec<Chunk>, b: &Vec<Chunk>) -> (r: Vec<Chunk>)
    ensures
        chunk_views(r@) == interleaved(chunk_views(a@), chunk_views(b@)),
{
    let ghost (x, y) = (chunk_views(a@), chunk_views(b@));
    let mut out: Vec<Chunk> = Vec::new();
    let mut i: usize = 0;
    let mut j: usize = 0;
    assert(x.skip(0) =~= x && y.skip(0) =~= y);
    assert(chunk_views(out@) + interleaved(x, y) =~= interleaved(x, y));
    while i < a.len() || j < b.len()
        invariant
            i <= a@.len(),
            j <= b@.len(),
            x == chunk_views(a@),
            y == chunk_views(b@),
            chunk_views(out@) + interleaved(x.skip(i as int), y.skip(j as int)) == interleaved(
                x,
                y,
            ),
        decreases a.len() - i + (b.len() - j),
    {
        let ghost before = chunk_views(out@);
        let ghost (p, q) = (x.skip(i as int), y.skip(j as int));
        let first: bool = j >= b.len() || (i < a.len() && a[i].frame <= b[j].frame);
        let c: Chunk = if first {
            copied_run(&a[i])
        } else {
            copied_run(&b[j])
        };
        let ghost added = c@;
        out.push(c);
        assert(chunk_views(out@) =~= before.push(added));
        proof {
            if first {
                assert(p.drop_first() =~= x.skip(i + 1));
                assert(p[0] == added);
                if q.len() == 0 {
                    assert(p =~= seq![added] + p.drop_first());
                    assert(interleaved(p.drop_first(), q) =~= p.drop_first());
                }
                assert(interleaved(p, q) =~= seq![added] + interleaved(x.skip(i + 1), q));
                assert(before.push(added) + interleaved(x.skip(i + 1), q) =~= before
                    + interleaved(p, q));
            } else {
                assert(q.drop_first() =~= y.skip(j + 1));
                assert(q[0] == added);
                if p.len() == 0 {
                    assert(q =~= seq![added] + q.drop_first());
                }
                assert(interleaved(p, q) =~= seq![added] + interleaved(p, y.skip(j + 1)));
                assert(before.push(added) + interleaved(p, y.skip(j + 1)) =~= before
                    + interleaved(p, q));
            }
        }
        if first {
            i += 1;
        } else {
            j += 1;
        }
    }
    assert(x.skip(i as int) =~= Seq::empty() && y.skip(j as int) =~= Seq::empty());
    assert(chunk_views(out@) =~= chunk_views(out@) + Seq::<ChunkView>::empty());
    out
}

/// Order each direction by sequence number, drop what was already seen, and
/// record gaps. Directions are then interleaved by the frame each run began
/// in, so the result reads as a conversation; each direction stays in
/// sequence order.
pub fn assemble(pieces: Vec<Piece>, missing: &mut u64) -> (r: Vec<Chunk>)
    ensures
        chunk_views(r@) == conversation(piece_views(pieces@), *old(missing)),
        *final(missing) == missing_in(piece_views(pieces@), *old(missing)),
        ({
            let forward = alone(piece_views(pieces@), Direction::Forward, *old(missing));
            let reverse = alone(piece_views(pieces@), Direction::Reverse, forward.missing);
            &&& runs_of(chunk_views(r@), Direction::Forward) == forward.chunks
            &&& runs_of(chunk_views(r@), Direction::Reverse) == reverse.chunks
        }),
{
    let ghost all = piece_views(pieces@);
    assert(pieces.len() == all.len());
    let ghost before = *missing;
    let mut forward: Vec<Chunk> = Vec::new();
    assert(chunk_views(forward@) =~= Seq::empty());
    join_side(&pieces, Direction::Forward, missing, &mut forward);
    assert(alone(all, Direction::Forward, before).missing == *missing);
    let ghost between = *missing;
    let mut reverse: Vec<Chunk> = Vec::new();
    assert(chunk_views(reverse@) =~= Seq::empty());
    join_side(&pieces, Direction::Reverse, missing, &mut reverse);
    assert(alone(all, Direction::Reverse, between).missing == *missing);
    proof {
        lemma_alone_one_way(all, Direction::Forward, before);
        lemma_alone_one_way(all, Direction::Reverse, between);
        lemma_interleaved(chunk_views(forward@), chunk_views(reverse@));
    }
    interleave(&forward, &reverse)
}

/// Pieces as runs, in the order they were captured.
pub open spec fn as_captured(pieces: Seq<PieceView>) -> Seq<ChunkView> {
    pieces.map_values(
        |p: PieceView|
            ChunkView { direction: p.direction, frame: p.frame, bytes: p.bytes, gap_before: 0 },
    )
}

fn datagrams(pieces: Vec<Piece>) -> (r: Vec<Chunk>)
    ensures
        chunk_views(r@) == as_captured(piece_views(pieces@)),
{
    let ghost all = piece_views(pieces@);
    let mut out: Vec<Chunk> = Vec::new();
    let mut i: usize = 0;
    assert(chunk_views(out@) =~= as_captured(all).take(0));
    while i < pieces.len()
        invariant
            i <= pieces@.len(),
            all == piece_views(pieces@),
            chunk_views(out@) == as_captured(all).take(i as int),
        decreases pieces.len() - i,
    {
        let ghost before = chunk_views(out@);
        let p: &Piece = &pieces[i];
        let c = Chunk {
            direction: p.direction,
            frame: p.frame,
            bytes: bytes::copy_of(&p.bytes),
            gap_before: 0,
        };
        let ghost added = c@;
        out.push(c);
        assert(chunk_views(out@) =~= before.push(added));
        assert(chunk_views(out@) =~= as_captured(all).take(i + 1));
        i += 1;
    }
    assert(chunk_views(out@) =~= as_captured(all));
    out
}

/// Gather stream `id` from `snapshot`. Datagrams have no sequence space:
/// capture order is their order.
pub fn follow(snapshot: &Snapshot, id: u32) -> (r: Stream)
    ensures
        r.id == id,
        ({
            let g = gathered(snapshot@.frames, id, snapshot@.frames.len() as int);
            &&& r.frame_numbers@ == g.numbers
            &&& (r.frames@[0], r.frames@[1]) == g.frames
            &&& (r.bytes@[0], r.bytes@[1]) == g.bytes
            &&& g.datagrams ==> r.missing == 0 && chunk_views(r.chunks@) == as_captured(g.pieces)
            &&& !g.datagrams ==> r.missing == missing_in(g.pieces, 0) && chunk_views(r.chunks@)
                == conversation(g.pieces, 0)
        }),
{
    let n: usize = snapshot.len();
    let ghost frames = snapshot@.frames;
    let mut g = Gathering {
        origin: None,
        pieces: Vec::new(),
        datagrams: false,
        numbers: Vec::new(),
        frames: [0, 0],
        bytes: [0, 0],
    };
    assert(g@ =~= Gathered::nothing());
    let mut at: usize = 0;
    while at < n
        invariant
            at <= n == frames.len(),
            frames == snapshot@.frames,
            g@ == gathered(frames, id, at as int),
        decreases n - at,
    {
        if let Some(frame) = snapshot.get(at) {
            g.take(frame, id);
        }
        at += 1;
    }
    let mut missing: u64 = 0;
    let chunks: Vec<Chunk> = if g.datagrams {
        datagrams(g.pieces)
    } else {
        assemble(g.pieces, &mut missing)
    };
    Stream { id, chunks, frames: g.frames, bytes: g.bytes, missing, frame_numbers: g.numbers }
}

// ---- what joining promises --------------------------------------------------------------

/// Bytes of the stream that runs account for, those they are missing
/// included.
pub open spec fn covered(chunks: Seq<ChunkView>) -> int
    decreases chunks.len(),
{
    if chunks.len() == 0 {
        0
    } else {
        covered(chunks.drop_last()) + chunks.last().gap_before + chunks.last().bytes.len()
    }
}

/// Bytes that runs are missing.
pub open spec fn gaps(chunks: Seq<ChunkView>) -> int
    decreases chunks.len(),
{
    if chunks.len() == 0 {
        0
    } else {
        gaps(chunks.drop_last()) + chunks.last().gap_before
    }
}

/// Nothing appears twice and no hole is closed up: from the first byte on,
/// the runs and the gaps before them cover the sequence space exactly.
pub proof fn runs_and_gaps_cover_the_stream(
    pieces: Seq<PieceView>,
    first: u32,
    missing: u64,
    n: int,
)
    ensures
        ({
            let start = Joining { next: first, missing, chunks: Seq::empty() };
            let j = joining(pieces, start, n);
            j.next == seq_plus(first, covered(j.chunks)) && covered(j.chunks) >= 0
        }),
    decreases n,
{
    let start = Joining { next: first, missing, chunks: Seq::empty() };
    if n > 0 {
        runs_and_gaps_cover_the_stream(pieces, first, missing, n - 1);
        let j = joining(pieces, start, n - 1);
        let p = pieces[n - 1];
        let k = j.with(p);
        lemma_past(p.seq, j.next);
        lemma_past(j.next, p.seq);
        if k.chunks.len() > j.chunks.len() {
            assert(k.chunks.drop_last() =~= j.chunks);
            let c = k.chunks.last();
            if seq_before(j.next, p.seq) {
                lemma_hole(first, covered(j.chunks), p.seq, p.bytes.len() as int);
            } else {
                lemma_overlap(first, covered(j.chunks), p.seq, p.bytes.len() as int);
            }
        }
    } else {
        reveal(seq_plus);
    }
}

proof fn lemma_hole(first: u32, before: int, seq: u32, len: int)
    requires
        0 <= before,
        0 <= len,
    ensures
        seq_plus(seq, len) == seq_plus(
            first,
            before + seq_past(seq, seq_plus(first, before)) + len,
        ),
{
    reveal(seq_plus);
    reveal(seq_past);
    let m: int = 0x1_0000_0000;
    let next = (first + before) % m;
    let gap = (seq - next) % m;
    let a = (first + before) / m;
    let b = (seq - next) / m;
    assert(first + before == m * a + next);
    assert(seq - next == m * b + gap);
    assert((seq + len) % m == (first + before + gap + len) % m);
}

proof fn lemma_overlap(first: u32, before: int, seq: u32, len: int)
    requires
        0 <= before,
        seq_past(seq_plus(first, before), seq) <= len,
    ensures
        seq_plus(seq, len) == seq_plus(
            first,
            before + len - seq_past(seq_plus(first, before), seq),
        ),
{
    reveal(seq_plus);
    reveal(seq_past);
    let m: int = 0x1_0000_0000;
    let next = (first + before) % m;
    let skip = (next - seq) % m;
    let a = (first + before) / m;
    let b = (next - seq) / m;
    assert(first + before == m * a + next);
    assert(next - seq == m * b + skip);
    assert((seq + len) % m == (first + before + len - skip) % m);
}

/// Run `k` holds the end of some piece, and stands where that piece ends:
/// `first` is where the stream begins.
pub open spec fn stands_in_place(
    pieces: Seq<PieceView>,
    first: u32,
    chunks: Seq<ChunkView>,
    k: int,
) -> bool {
    exists|i: int|
        0 <= i < pieces.len() && #[trigger] ends_with(pieces[i], chunks[k]) && seq_plus(
            pieces[i].seq,
            pieces[i].bytes.len() as int,
        ) == seq_plus(first, covered(chunks.take(k + 1)))
}

/// The run holds the last bytes of the piece.
pub open spec fn ends_with(p: PieceView, c: ChunkView) -> bool {
    c.bytes.len() <= p.bytes.len() && c.bytes == p.bytes.skip(p.bytes.len() - c.bytes.len())
}

proof fn lemma_in_place(pieces: Seq<PieceView>, first: u32, missing: u64, n: int)
    requires
        0 <= n <= pieces.len(),
    ensures
        ({
            let start = Joining { next: first, missing, chunks: Seq::empty() };
            let j = joining(pieces, start, n);
            forall|k: int|
                0 <= k < j.chunks.len() ==> #[trigger] stands_in_place(pieces, first, j.chunks, k)
        }),
    decreases n,
{
    let start = Joining { next: first, missing, chunks: Seq::empty() };
    if n > 0 {
        lemma_in_place(pieces, first, missing, n - 1);
        runs_and_gaps_cover_the_stream(pieces, first, missing, n);
        let j = joining(pieces, start, n - 1);
        let x = joining(pieces, start, n);
        let p = pieces[n - 1];
        lemma_past(j.next, p.seq);
        assert forall|k: int| 0 <= k < x.chunks.len() implies #[trigger] stands_in_place(
            pieces,
            first,
            x.chunks,
            k,
        ) by {
            if k < j.chunks.len() {
                assert(stands_in_place(pieces, first, j.chunks, k));
                let i = choose|i: int|
                    0 <= i < pieces.len() && #[trigger] ends_with(pieces[i], j.chunks[k])
                        && seq_plus(pieces[i].seq, pieces[i].bytes.len() as int) == seq_plus(
                        first,
                        covered(j.chunks.take(k + 1)),
                    );
                assert(x.chunks.take(k + 1) =~= j.chunks.take(k + 1));
                assert(ends_with(pieces[i], x.chunks[k]));
            } else {
                assert(x.chunks.take(k + 1) =~= x.chunks);
                assert(p.bytes.skip(0) =~= p.bytes);
                assert(ends_with(pieces[n - 1], x.chunks[k]));
            }
        }
    }
}

/// What comes out reads each direction in sequence order, even where earlier
/// bytes were captured later: one run after the other, each stands behind all
/// that came before it and where its own bytes belong.
pub proof fn directions_read_in_sequence_order(
    pieces: Seq<PieceView>,
    missing: u64,
    direction: Direction,
)
    requires
        pieces.len() <= usize::MAX,
    ensures
        ({
            let sorted = in_sequence(side(pieces, direction, pieces.len() as int));
            let runs = runs_of(conversation(pieces, missing), direction);
            forall|k: int|
                0 <= k < runs.len() ==> #[trigger] stands_in_place(
                    sorted,
                    sorted[0].seq,
                    runs,
                    k,
                )
        }),
{
    let forward = alone(pieces, Direction::Forward, missing);
    let reverse = alone(pieces, Direction::Reverse, forward.missing);
    lemma_alone_one_way(pieces, Direction::Forward, missing);
    lemma_alone_one_way(pieces, Direction::Reverse, forward.missing);
    lemma_interleaved(forward.chunks, reverse.chunks);
    let all = side(pieces, direction, pieces.len() as int);
    lemma_side(pieces, direction, pieces.len() as int);
    if all.len() > 0 {
        let sorted = in_sequence(all);
        order_exists(places(all));
        let found = if direction == Direction::Forward {
            missing
        } else {
            forward.missing
        };
        lemma_in_place(sorted, sorted[0].seq, found, sorted.len() as int);
    }
}

/// The bytes reported as missing are the gaps of the runs.
pub proof fn missing_is_the_sum_of_gaps(
    pieces: Seq<PieceView>,
    start: Joining,
    n: int,
)
    requires
        0 <= n <= pieces.len(),
        forall|i: int| 0 <= i < pieces.len() ==> (#[trigger] pieces[i]).bytes.len() > 0,
        gaps(start.chunks) == start.missing,
        gaps(joining(pieces, start, n).chunks) <= u64::MAX,
    ensures
        joining(pieces, start, n).missing == gaps(joining(pieces, start, n).chunks),
    decreases n,
{
    if n > 0 {
        let j = joining(pieces, start, n - 1);
        let p = pieces[n - 1];
        let k = j.with(p);
        lemma_past(p.seq, j.next);
        if k.chunks.len() > j.chunks.len() {
            assert(k.chunks.drop_last() =~= j.chunks);
        }
        missing_is_the_sum_of_gaps(pieces, start, n - 1);
    }
}

/// Pieces that lie within half the sequence space are joined in sequence
/// order, wherever in the 32-bit space the stream stands, and pieces at one
/// sequence number in the order of their frames.
pub proof fn pieces_are_taken_in_sequence_order(pieces: Seq<PieceView>, low: u32, i: int, j: int)
    requires
        pieces.len() <= usize::MAX,
        forall|k: int|
            0 <= k < pieces.len() ==> seq_past((#[trigger] pieces[k]).seq, low) < 0x8000_0000,
        0 <= i < j < pieces.len(),
    ensures
        ({
            let p = in_sequence(pieces)[i];
            let q = in_sequence(pieces)[j];
            seq_before(p.seq, q.seq) || (p.seq == q.seq && p.frame <= q.frame)
        }),
{
    let keys = places(pieces);
    let order = stable_order(keys);
    order_exists(keys);
    let a = order[i] as int;
    let b = order[j] as int;
    assert(precedes(keys, a, b));
    let p = pieces[a];
    let q = pieces[b];
    let base = pieces[0].seq;
    lemma_offset(p.seq, base, low);
    lemma_offset(q.seq, base, low);
    assert(keys[a] == place(base, p));
    assert(keys[b] == place(base, q));
    lemma_near(p.seq, q.seq, low);
    assert(in_sequence(pieces)[i] == p);
    assert(in_sequence(pieces)[j] == q);
}

proof fn lemma_near(a: u32, b: u32, low: u32)
    requires
        seq_past(a, low) < 0x8000_0000,
        seq_past(b, low) < 0x8000_0000,
    ensures
        seq_past(a, low) < seq_past(b, low) ==> seq_before(a, b),
        seq_past(a, low) == seq_past(b, low) ==> a == b,
{
    reveal(seq_past);
    reveal(seq_before);
}

proof fn lemma_offset(seq: u32, base: u32, low: u32)
    requires
        seq_past(seq, low) < 0x8000_0000,
        seq_past(base, low) < 0x8000_0000,
    ensures
        seq_past(seq_plus(seq, 0x8000_0000), base) == seq_past(seq, low) - seq_past(base, low)
            + 0x8000_0000,
        0 <= seq_past(seq_plus(seq, 0x8000_0000), base) < 0x1_0000_0000,
{
    reveal(seq_past);
    reveal(seq_plus);
}

// ---- showing bytes ------------------------------------------------------------------------

/// How a chunk's bytes are rendered.
#[derive(Debug, Clone, Copy, PartialEq, Eq, Default)]
pub enum View {
    /// Printable ASCII as itself, everything else as a dot.
    #[default]
    Ascii,
    /// Offset, hex, ASCII.
    Hex,
    /// UTF-8, with invalid sequences replaced.
    Utf8,
}

/// A byte as itself where it is printable ASCII, and as a dot elsewhere.
pub open spec fn printable(b: u8) -> char {
    if 0x20 <= b <= 0x7e {
        b as char
    } else {
        '.'
    }
}

/// The same, with line ends and tabs kept.
pub open spec fn readable(b: u8) -> char {
    if b == 10 || b == 9 || b == 13 {
        b as char
    } else {
        printable(b)
    }
}

/// The cells of a row of up to sixteen bytes, the first `n` of them: two
/// digits and a space each, blank past the end, with one more space in the
/// middle.
pub open spec fn cells(row: Seq<u8>, n: int) -> Seq<char>
    decreases n,
{
    if n <= 0 {
        Seq::empty()
    } else {
        let cell = if n - 1 < row.len() {
            text::hex_pad(row[n - 1] as int, 2) + " "@
        } else {
            "   "@
        };
        cells(row, n - 1) + cell + if n == 8 {
            " "@
        } else {
            ""@
        }
    }
}

/// One line: the offset, the bytes in hexadecimal, and what they spell.
pub open spec fn hex_line(offset: int, row: Seq<u8>) -> Seq<char> {
    text::hex_pad(offset, 8) + "  "@ + cells(row, 16) + " "@ + row.map_values(
        |b: u8| printable(b),
    ) + "\n"@
}

/// The lines of `bytes` from `at` on, sixteen bytes to a line.
pub open spec fn hex_lines(bytes: Seq<u8>, at: int) -> Seq<char>
    decreases bytes.len() - at,
{
    if at < 0 || at >= bytes.len() {
        Seq::empty()
    } else {
        let end = if at + 16 < bytes.len() {
            at + 16
        } else {
            bytes.len() as int
        };
        hex_line(at, bytes.subrange(at, end)) + hex_lines(bytes, end)
    }
}

/// `bytes` as shown.
pub open spec fn rendered(bytes: Seq<u8>, view: View) -> Seq<char> {
    match view {
        View::Ascii => bytes.map_values(|b: u8| readable(b)),
        View::Utf8 => text::utf8_lossy(bytes),
        View::Hex => hex_lines(bytes, 0),
    }
}

fn printable_char(b: u8) -> (r: char)
    ensures
        r == printable(b),
{
    if 0x20 <= b && b <= 0x7e {
        b as char
    } else {
        '.'
    }
}

fn readable_char(b: u8) -> (r: char)
    ensures
        r == readable(b),
{
    if b == 10 || b == 9 || b == 13 {
        b as char
    } else {
        printable_char(b)
    }
}

fn write_cells(out: &mut String, row: &[u8])
    ensures
        final(out)@ == old(out)@ + cells(row@, 16),
{
    let ghost start = out@;
    let n: usize = row.len();
    let mut j: usize = 0;
    assert(start + cells(row@, 0) =~= start);
    while j < 16
        invariant
            j <= 16,
            n == row@.len(),
            out@ == start + cells(row@, j as int),
        decreases 16 - j,
    {
        let ghost before = cells(row@, j as int);
        if j < n {
            text::push_hex(out, row[j] as u64, 2);
            out.push_str(" ");
        } else {
            out.push_str("   ");
        }
        if j == 7 {
            out.push_str(" ");
        }
        proof {
            reveal_strlit("");
        }
        assert(out@ =~= start + cells(row@, j + 1));
        j += 1;
    }
}

fn write_line(out: &mut String, offset: usize, row: &[u8])
    ensures
        final(out)@ == old(out)@ + hex_line(offset as int, row@),
{
    let ghost start = out@;
    text::push_hex(out, offset as u64, 8);
    out.push_str("  ");
    write_cells(out, row);
    out.push_str(" ");
    let ghost head = out@;
    let ghost spelled = row@.map_values(|b: u8| printable(b));
    let mut j: usize = 0;
    assert(head + spelled.take(0) =~= head);
    while j < row.len()
        invariant
            j <= row@.len(),
            spelled == row@.map_values(|b: u8| printable(b)),
            out@ == head + spelled.take(j as int),
        decreases row.len() - j,
    {
        out.push(printable_char(row[j]));
        assert(out@ =~= head + spelled.take(j + 1));
        j += 1;
    }
    assert(spelled.take(j as int) =~= spelled);
    out.push_str("\n");
    assert(out@ =~= start + hex_line(offset as int, row@));
}

/// Render `bytes` for display.
pub fn render(bytes: &[u8], view: View) -> (r: String)
    ensures
        r@ == rendered(bytes@, view),
{
    let n: usize = bytes.len();
    match view {
        View::Ascii => {
            let mut out = String::new();
            let ghost all = bytes@.map_values(|b: u8| readable(b));
            let mut i: usize = 0;
            assert(out@ =~= all.take(0));
            while i < n
                invariant
                    i <= n == bytes@.len(),
                    all == bytes@.map_values(|b: u8| readable(b)),
                    out@ == all.take(i as int),
                decreases n - i,
            {
                out.push(readable_char(bytes[i]));
                assert(out@ =~= all.take(i + 1));
                i += 1;
            }
            assert(all.take(i as int) =~= all);
            out
        },
        View::Utf8 => text::from_utf8_lossy(bytes),
        View::Hex => {
            let mut out = String::new();
            let mut at: usize = 0;
            assert(out@ + hex_lines(bytes@, 0) =~= hex_lines(bytes@, 0));
            while at < n
                invariant
                    at <= n == bytes@.len(),
                    n <= usize::MAX,
                    out@ + hex_lines(bytes@, at as int) == hex_lines(bytes@, 0),
                decreases n - at,
            {
                let ghost before = out@;
                let end: usize = if n - at > 16 {
                    at + 16
                } else {
                    n
                };
                write_line(&mut out, at, bytes::part(bytes, at, end));
                assert(out@ + hex_lines(bytes@, end as int) =~= before + hex_lines(
                    bytes@,
                    at as int,
                ));
                at = end;
            }
            assert(hex_lines(bytes@, at as int) =~= Seq::empty());
            assert(out@ =~= hex_lines(bytes@, 0));
            out
        },
    }
}

} // verus!

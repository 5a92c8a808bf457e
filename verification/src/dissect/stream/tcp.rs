//! TCP sequence analysis.
//!
//! One `Analysis` per conversation, holding a little state for each
//! direction, classifies every segment as it arrives: retransmission,
//! out-of-order, a gap where a segment was never captured, a duplicate ACK,
//! a zero window, and so on.
//!
//! Everything here is a *heuristic over what was captured*, not a claim about
//! what the endpoints did: a lost segment means "the capture has a hole here".
//!
//! Sequence numbers are 32-bit and wrap. Every comparison goes by the signed
//! difference, so a connection that wraps past 2^32 is analysed correctly.

use vstd::prelude::*;

use crate::capture::Timestamp;
use crate::dissect::expert::Severity;

use super::table::Direction;

verus! {

/// Reordering that arrives within this window is treated as the network
/// delivering out of order rather than as a retransmission.
pub const OUT_OF_ORDER_NANOS: i128 = 3_000_000;

/// A retransmission this soon after the third duplicate ACK is the sender
/// reacting to those ACKs rather than to a timeout.
pub const FAST_RETRANSMIT_NANOS: i128 = 20_000_000;

/// One explanation of a segment's place in the sequence.
#[derive(Debug, Clone, Copy, PartialEq, Eq, Structural)]
pub enum SeqFinding {
    /// Bytes already seen, sent again after a timeout.
    Retransmission,
    /// Sent again in response to duplicate ACKs rather than a timeout.
    FastRetransmission,
    /// Sent again although the peer had already acknowledged it.
    SpuriousRetransmission,
    /// Arrived after a later segment, within the reordering window.
    OutOfOrder,
    /// Partly old bytes and partly new.
    Overlap,
    /// The sequence jumped forward: something between was never captured.
    LostSegment,
}

#[derive(Debug, Clone, Copy, PartialEq, Eq, Structural)]
pub struct DupAck {
    /// 1 for the first repeat, 2 for the second, and so on.
    pub number: u32,
    /// The frame carrying the ACK this one repeats.
    pub frame: u32,
}

/// What the analyser concluded about one segment. At most one *sequence*
/// finding applies, because they are alternative explanations of the same
/// observation; the window and ACK findings are independent.
#[derive(Debug, Clone, Copy, PartialEq, Eq, Structural)]
pub struct Findings {
    pub sequence: Option<SeqFinding>,
    /// This ACK repeats the highest one and acknowledges nothing new.
    pub duplicate_ack: Option<DupAck>,
    /// The sender advertised a window of zero: it cannot accept data.
    pub zero_window: bool,
    /// This segment fills the peer's advertised window exactly.
    pub window_full: bool,
    /// A probe to keep the connection alive, not real data.
    pub keep_alive: bool,
    /// An ACK for data this capture never saw.
    pub ack_lost_segment: bool,
    /// Bytes sent but not yet acknowledged, after this segment.
    pub bytes_in_flight: u32,
}

/// Nothing found.
pub open spec fn no_findings() -> Findings {
    Findings {
        sequence: None,
        duplicate_ack: None,
        zero_window: false,
        window_full: false,
        keep_alive: false,
        ack_lost_segment: false,
        bytes_in_flight: 0,
    }
}

impl Default for Findings {
    fn default() -> (r: Findings)
        ensures
            r == no_findings(),
    {
        Findings {
            sequence: None,
            duplicate_ack: None,
            zero_window: false,
            window_full: false,
            keep_alive: false,
            ack_lost_segment: false,
            bytes_in_flight: 0,
        }
    }
}

impl Findings {
    /// True when nothing worth reporting was found. Bytes in flight are a
    /// measurement rather than a finding and do not count.
    pub fn is_empty(&self) -> (r: bool)
        ensures
            r == ((Findings { bytes_in_flight: 0, ..*self }) == no_findings()),
    {
        self.sequence.is_none() && self.duplicate_ack.is_none() && !self.zero_window
            && !self.window_full && !self.keep_alive && !self.ack_lost_segment
    }
}

impl SeqFinding {
    /// The field naming this finding.
    pub open spec fn field(self) -> Seq<char> {
        match self {
            SeqFinding::Retransmission => "tcp.analysis.retransmission"@,
            SeqFinding::FastRetransmission => "tcp.analysis.fast_retransmission"@,
            SeqFinding::SpuriousRetransmission => "tcp.analysis.spurious_retransmission"@,
            SeqFinding::OutOfOrder => "tcp.analysis.out_of_order"@,
            SeqFinding::Overlap => "tcp.analysis.overlap"@,
            SeqFinding::LostSegment => "tcp.analysis.lost_segment"@,
        }
    }

    pub fn abbrev(self) -> (r: &'static str)
        ensures
            r@ == self.field(),
    {
        match self {
            SeqFinding::Retransmission => "tcp.analysis.retransmission",
            SeqFinding::FastRetransmission => "tcp.analysis.fast_retransmission",
            SeqFinding::SpuriousRetransmission => "tcp.analysis.spurious_retransmission",
            SeqFinding::OutOfOrder => "tcp.analysis.out_of_order",
            SeqFinding::Overlap => "tcp.analysis.overlap",
            SeqFinding::LostSegment => "tcp.analysis.lost_segment",
        }
    }

    /// A resend is normal on any real network; a gap or an overlap means the
    /// capture or the sender will mislead anyone reading the stream.
    pub open spec fn weight(self) -> Severity {
        match self {
            SeqFinding::Overlap | SeqFinding::LostSegment => Severity::Warn,
            _ => Severity::Note,
        }
    }

    /// How much attention this deserves.
    pub fn severity(self) -> (r: Severity)
        ensures
            r == self.weight(),
    {
        match self {
            SeqFinding::Retransmission
            | SeqFinding::FastRetransmission
            | SeqFinding::SpuriousRetransmission
            | SeqFinding::OutOfOrder => Severity::Note,
            SeqFinding::Overlap | SeqFinding::LostSegment => Severity::Warn,
        }
    }

    /// The sentence describing this finding.
    pub open spec fn sentence(self) -> Seq<char> {
        match self {
            SeqFinding::Retransmission => "This frame is a (suspected) retransmission"@,
            SeqFinding::FastRetransmission => "This frame is a (suspected) fast retransmission"@,
            SeqFinding::SpuriousRetransmission =>
                "This frame is a (suspected) spurious retransmission"@,
            SeqFinding::OutOfOrder => "This frame is a (suspected) out-of-order segment"@,
            SeqFinding::Overlap => "This frame overlaps bytes already seen"@,
            SeqFinding::LostSegment =>
                "Previous segment(s) not captured (common at capture start)"@,
        }
    }

    pub fn summary(self) -> (r: &'static str)
        ensures
            r@ == self.sentence(),
    {
        match self {
            SeqFinding::Retransmission => "This frame is a (suspected) retransmission",
            SeqFinding::FastRetransmission => "This frame is a (suspected) fast retransmission",
            SeqFinding::SpuriousRetransmission =>
                "This frame is a (suspected) spurious retransmission",
            SeqFinding::OutOfOrder => "This frame is a (suspected) out-of-order segment",
            SeqFinding::Overlap => "This frame overlaps bytes already seen",
            SeqFinding::LostSegment =>
                "Previous segment(s) not captured (common at capture start)",
        }
    }
}

/// One segment as the dissector read it, before analysis.
#[derive(Debug, Clone, Copy)]
pub struct Segment {
    pub frame: u32,
    pub ts: Timestamp,
    pub seq: u32,
    pub ack: u32,
    pub payload_len: u32,
    pub window: u32,
    pub syn: bool,
    pub fin: bool,
    pub rst: bool,
    pub ack_flag: bool,
    /// Window scale from this direction's SYN, if it carried one.
    pub window_scale: Option<u8>,
}

/// `a + n` in sequence space.
#[verifier::opaque]
pub open spec fn seq_plus(a: u32, n: int) -> u32 {
    ((a + n) % 0x1_0000_0000) as u32
}

/// How far `a` is past `b`, going forward in sequence space.
#[verifier::opaque]
pub open spec fn seq_past(a: u32, b: u32) -> int {
    (a - b) % 0x1_0000_0000
}

/// `a` comes before `b` in sequence space.
#[verifier::opaque]
pub open spec fn seq_before(a: u32, b: u32) -> bool {
    seq_past(a, b) >= 0x8000_0000
}

/// `a` comes after `b` in sequence space.
#[verifier::opaque]
pub open spec fn seq_after(a: u32, b: u32) -> bool {
    0 < seq_past(a, b) < 0x8000_0000
}

/// Whether `a` comes before `b`, comparing the signed difference so that a
/// stream that wraps past 2^32 still orders correctly.
pub fn seq_lt(a: u32, b: u32) -> (r: bool)
    ensures
        r == seq_before(a, b),
{
    proof {
        reveal(seq_plus);
        reveal(seq_past);
        reveal(seq_before);
        reveal(seq_after);
    }
    a.wrapping_sub(b) >= 0x8000_0000
}

fn seq_gt(a: u32, b: u32) -> (r: bool)
    ensures
        r == seq_after(a, b),
{
    proof {
        reveal(seq_plus);
        reveal(seq_past);
        reveal(seq_before);
        reveal(seq_after);
    }
    let d: u32 = a.wrapping_sub(b);
    0 < d && d < 0x8000_0000
}

fn seq_le(a: u32, b: u32) -> (r: bool)
    ensures
        r == !seq_after(a, b),
{
    !seq_gt(a, b)
}

/// How far `a` is past `b`.
pub fn seq_sub(a: u32, b: u32) -> (r: u32)
    ensures
        r == seq_past(a, b) as u32,
{
    proof {
        reveal(seq_past);
    }
    a.wrapping_sub(b)
}

fn seq_prev(a: u32) -> (r: u32)
    ensures
        r == seq_plus(a, 0xffff_ffff),
{
    proof {
        reveal(seq_plus);
    }
    a.wrapping_sub(1)
}

/// `a + n`, wrapping.
pub fn seq_add(a: u32, n: u32) -> (r: u32)
    ensures
        r == seq_plus(a, n as int),
{
    proof {
        reveal(seq_plus);
        reveal(seq_past);
        reveal(seq_before);
        reveal(seq_after);
    }
    a.wrapping_add(n)
}

/// Shifting both numbers by the same distance changes no comparison, so
/// nothing depends on where in the 32-bit space a connection starts.
pub proof fn order_survives_wrapping(a: u32, b: u32, k: int)
    requires
        0 <= k,
    ensures
        seq_before(seq_plus(a, k), seq_plus(b, k)) == seq_before(a, b),
        seq_after(seq_plus(a, k), seq_plus(b, k)) == seq_after(a, b),
{
    reveal(seq_plus);
    reveal(seq_past);
    reveal(seq_before);
    reveal(seq_after);
    assert((((a + k) % 0x1_0000_0000) - ((b + k) % 0x1_0000_0000)) % 0x1_0000_0000 == (a - b)
        % 0x1_0000_0000);
}

/// A number is before another exactly when that one is after it, unless the
/// two are half the space apart.
pub proof fn before_and_after_mirror(a: u32, b: u32)
    requires
        seq_past(a, b) != 0x8000_0000,
    ensures
        seq_before(a, b) == seq_after(b, a),
{
    reveal(seq_plus);
    reveal(seq_past);
    reveal(seq_before);
    reveal(seq_after);
}

/// Nanoseconds from `a` to `b`.
pub open spec fn nanos_from(a: Timestamp, b: Timestamp) -> int {
    (b.secs - a.secs) * 1_000_000_000 + b.nanos - a.nanos
}

/// Nanoseconds from `a` to `b`.
pub fn nanos_between(a: Timestamp, b: Timestamp) -> (r: i128)
    ensures
        r == nanos_from(a, b),
{
    (b.secs as i128 - a.secs as i128) * 1_000_000_000 + b.nanos as i128 - a.nanos as i128
}

impl Segment {
    /// Bytes this segment consumes of the sequence space. SYN and FIN each
    /// take one, which is why a bare SYN advances the sequence number.
    pub open spec fn length(self) -> u32 {
        seq_plus(
            self.payload_len,
            if self.syn {
                1int
            } else {
                0
            } + if self.fin {
                1int
            } else {
                0
            },
        )
    }

    fn seq_len(&self) -> (r: u32)
        ensures
            r == self.length(),
    {
        let mut n: u32 = 0;
        if self.syn {
            n = n + 1;
        }
        if self.fin {
            n = n + 1;
        }
        seq_add(self.payload_len, n)
    }

    /// The sequence number just past this segment.
    pub open spec fn end(self) -> u32 {
        seq_plus(self.seq, self.length() as int)
    }
}

/// What is known of one direction.
#[derive(Debug, Clone, Copy)]
pub struct DirState {
    seen: bool,
    /// The sequence number expected next: the highest end seen.
    next_seq: u32,
    /// Initial sequence number, for relative numbering.
    isn: u32,
    /// Highest ACK this direction has sent.
    last_ack: u32,
    /// Whether `last_ack` has been set.
    acked: bool,
    /// Window this direction last advertised, already scaled.
    last_window: u32,
    /// Scale factor from this direction's SYN; `None` until seen.
    window_scale: Option<u8>,
    /// Consecutive repeats of `last_ack`.
    dup_ack_count: u32,
    /// Frame of the ACK the repeats are repeating.
    dup_ack_frame: u32,
    /// When `next_seq` was last advanced, for the reordering window.
    last_advance: Option<Timestamp>,
    /// When this direction last sent its third duplicate ACK.
    third_dup_ack: Option<Timestamp>,
    frames: u64,
    bytes: u64,
}

/// What is known of one direction.
pub struct DirView {
    pub seen: bool,
    pub next_seq: u32,
    pub isn: u32,
    pub last_ack: u32,
    pub acked: bool,
    pub last_window: u32,
    pub window_scale: Option<u8>,
    pub dup_ack_count: u32,
    pub dup_ack_frame: u32,
    pub last_advance: Option<Timestamp>,
    pub third_dup_ack: Option<Timestamp>,
    pub frames: u64,
    pub bytes: u64,
}

impl View for DirState {
    type V = DirView;

    closed spec fn view(&self) -> DirView {
        DirView {
            seen: self.seen,
            next_seq: self.next_seq,
            isn: self.isn,
            last_ack: self.last_ack,
            acked: self.acked,
            last_window: self.last_window,
            window_scale: self.window_scale,
            dup_ack_count: self.dup_ack_count,
            dup_ack_frame: self.dup_ack_frame,
            last_advance: self.last_advance,
            third_dup_ack: self.third_dup_ack,
            frames: self.frames,
            bytes: self.bytes,
        }
    }
}

/// A direction nothing has been seen of.
pub open spec fn unseen() -> DirView {
    DirView {
        seen: false,
        next_seq: 0,
        isn: 0,
        last_ack: 0,
        acked: false,
        last_window: 0,
        window_scale: None,
        dup_ack_count: 0,
        dup_ack_frame: 0,
        last_advance: None,
        third_dup_ack: None,
        frames: 0,
        bytes: 0,
    }
}

fn fresh_direction() -> (r: DirState)
    ensures
        r@ == unseen(),
{
    DirState {
        seen: false,
        next_seq: 0,
        isn: 0,
        last_ack: 0,
        acked: false,
        last_window: 0,
        window_scale: None,
        dup_ack_count: 0,
        dup_ack_frame: 0,
        last_advance: None,
        third_dup_ack: None,
        frames: 0,
        bytes: 0,
    }
}

/// Per-conversation TCP state.
#[derive(Debug, Clone, Copy)]
pub struct Analysis {
    pub forward: DirState,
    pub reverse: DirState,
    /// True once a SYN has been seen, meaning sequence numbers are anchored
    /// to a real connection start rather than to wherever the capture began.
    pub saw_syn: bool,
}

/// What is known of a conversation: each direction, and whether a SYN was seen.
pub struct AnalysisView {
    pub forward: DirView,
    pub reverse: DirView,
    pub saw_syn: bool,
}

impl AnalysisView {
    /// One direction.
    pub open spec fn dir(self, d: Direction) -> DirView {
        match d {
            Direction::Forward => self.forward,
            Direction::Reverse => self.reverse,
        }
    }

    /// The direction facing `d`.
    pub open spec fn facing(self, d: Direction) -> DirView {
        match d {
            Direction::Forward => self.reverse,
            Direction::Reverse => self.forward,
        }
    }
}

impl View for Analysis {
    type V = AnalysisView;

    open spec fn view(&self) -> AnalysisView {
        AnalysisView {
            forward: self.forward@,
            reverse: self.reverse@,
            saw_syn: self.saw_syn,
        }
    }
}

/// A conversation nothing has been seen of.
pub open spec fn no_history() -> AnalysisView {
    AnalysisView { forward: unseen(), reverse: unseen(), saw_syn: false }
}

impl Default for Analysis {
    fn default() -> (r: Analysis)
        ensures
            r@ == no_history(),
    {
        Analysis { forward: fresh_direction(), reverse: fresh_direction(), saw_syn: false }
    }
}

/// `b`, counted up by `n` and no further than the type goes.
pub open spec fn counted(b: u64, n: int) -> u64 {
    if b + n <= u64::MAX {
        (b + n) as u64
    } else {
        u64::MAX
    }
}

/// The window a segment advertises, after the scale its direction announced.
/// The scale does not apply to the SYN's own window.
pub open spec fn scaled_window(me: DirView, seg: Segment) -> u32 {
    let scale = if seg.window_scale is Some {
        seg.window_scale
    } else {
        me.window_scale
    };
    if seg.syn {
        seg.window
    } else {
        match scale {
            Some(s) => seg.window << (if s < 14 {
                s
            } else {
                14
            }),
            None => seg.window,
        }
    }
}

/// Which explanation fits a segment, given what its direction (`me`) and the
/// other one (`peer`) showed before.
pub open spec fn explain(me: DirView, peer: DirView, seg: Segment) -> Option<SeqFinding> {
    if seq_after(seg.seq, me.next_seq) {
        Some(SeqFinding::LostSegment)
    } else if seg.length() == 0 {
        None
    } else if seq_after(seg.end(), me.next_seq) {
        if seq_before(seg.seq, me.next_seq) {
            Some(SeqFinding::Overlap)
        } else {
            None
        }
    } else if peer.acked && !seq_after(seg.end(), peer.last_ack) {
        Some(SeqFinding::SpuriousRetransmission)
    } else if peer.third_dup_ack is Some && nanos_from(peer.third_dup_ack->Some_0, seg.ts)
        <= FAST_RETRANSMIT_NANOS {
        Some(SeqFinding::FastRetransmission)
    } else if me.last_advance is Some && nanos_from(me.last_advance->Some_0, seg.ts)
        <= OUT_OF_ORDER_NANOS {
        Some(SeqFinding::OutOfOrder)
    } else {
        Some(SeqFinding::Retransmission)
    }
}

/// A keep-alive sits one byte before what the peer expects, carrying nothing
/// or one garbage byte.
pub open spec fn is_keep_alive(me: DirView, seg: Segment) -> bool {
    &&& me.seen
    &&& !seg.syn && !seg.fin && !seg.rst
    &&& seg.payload_len <= 1
    &&& seg.seq == seq_plus(me.next_seq, 0xffff_ffff)
}

/// An ACK carrying no data that changes nothing and repeats the highest one
/// while the peer still has data outstanding.
pub open spec fn repeats_ack(me: DirView, peer: DirView, seg: Segment) -> bool {
    &&& me.acked
    &&& seg.ack == me.last_ack
    &&& seg.length() == 0
    &&& !seg.syn && !seg.fin && !seg.rst
    &&& scaled_window(me, seg) == me.last_window
    &&& peer.seen
    &&& seq_before(seg.ack, peer.next_seq)
}

/// The highest ACK once `seg` has been folded in. An older one that was
/// delivered late changes nothing.
pub open spec fn highest_ack(me: DirView, seg: Segment) -> u32 {
    if seg.ack_flag && (!me.acked || seq_after(seg.ack, me.last_ack)) {
        seg.ack
    } else {
        me.last_ack
    }
}

/// Consecutive repeats after one more.
pub open spec fn next_repeat(me: DirView) -> u32 {
    if me.dup_ack_count < u32::MAX {
        (me.dup_ack_count + 1) as u32
    } else {
        u32::MAX
    }
}

/// The sending direction once `seg` has been folded in.
pub open spec fn advanced(me: DirView, peer: DirView, seg: Segment) -> DirView {
    let moved = !me.seen || seq_after(seg.end(), me.next_seq);
    let repeat = repeats_ack(me, peer, seg);
    DirView {
        seen: true,
        next_seq: if moved {
            seg.end()
        } else {
            me.next_seq
        },
        isn: if me.seen {
            me.isn
        } else {
            seg.seq
        },
        last_ack: highest_ack(me, seg),
        acked: me.acked || seg.ack_flag,
        last_window: scaled_window(me, seg),
        window_scale: if seg.window_scale is Some {
            seg.window_scale
        } else {
            me.window_scale
        },
        dup_ack_count: if !seg.ack_flag {
            me.dup_ack_count
        } else if repeat {
            next_repeat(me)
        } else {
            0
        },
        dup_ack_frame: if seg.ack_flag && !repeat && seg.ack == highest_ack(me, seg) {
            seg.frame
        } else {
            me.dup_ack_frame
        },
        last_advance: if moved {
            Some(seg.ts)
        } else {
            me.last_advance
        },
        third_dup_ack: if !seg.ack_flag {
            me.third_dup_ack
        } else if !repeat {
            None
        } else if next_repeat(me) == 3 {
            Some(seg.ts)
        } else {
            me.third_dup_ack
        },
        frames: counted(me.frames, 1),
        bytes: counted(me.bytes, seg.payload_len as int),
    }
}

/// Bytes sent but not yet acknowledged: only meaningful when the peer's ACK
/// falls inside the range this direction has sent.
pub open spec fn in_flight(me: DirView, peer: DirView) -> u32 {
    if peer.acked && me.seen && !seq_before(peer.last_ack, me.isn) && !seq_after(
        peer.last_ack,
        me.next_seq,
    ) {
        seq_past(me.next_seq, peer.last_ack) as u32
    } else {
        0
    }
}

/// What the analyser concludes about `seg`.
pub open spec fn findings(me: DirView, peer: DirView, seg: Segment) -> Findings {
    let after = advanced(me, peer, seg);
    Findings {
        sequence: if me.seen && !is_keep_alive(me, seg) {
            explain(me, peer, seg)
        } else {
            None
        },
        duplicate_ack: if seg.ack_flag && repeats_ack(me, peer, seg) {
            Some(DupAck { number: next_repeat(me), frame: me.dup_ack_frame })
        } else {
            None
        },
        zero_window: scaled_window(me, seg) == 0 && !seg.rst && !seg.fin && !seg.syn,
        window_full: seg.payload_len > 0 && peer.last_window > 0 && in_flight(after, peer)
            == peer.last_window,
        keep_alive: is_keep_alive(me, seg),
        ack_lost_segment: seg.ack_flag && peer.seen && seq_after(seg.ack, peer.next_seq),
        bytes_in_flight: in_flight(after, peer),
    }
}

/// The conversation once `seg`, running in direction `d`, has been folded in.
pub open spec fn after_segment(a: AnalysisView, d: Direction, seg: Segment) -> AnalysisView {
    let me = advanced(a.dir(d), a.facing(d), seg);
    AnalysisView {
        forward: if d == Direction::Forward {
            me
        } else {
            a.forward
        },
        reverse: if d == Direction::Reverse {
            me
        } else {
            a.reverse
        },
        saw_syn: a.saw_syn || seg.syn,
    }
}

impl Analysis {
    fn state(&self, dir: Direction) -> (r: DirState)
        ensures
            r@ == self@.dir(dir),
    {
        match dir {
            Direction::Forward => self.forward,
            Direction::Reverse => self.reverse,
        }
    }

    /// Relative sequence number: how far into the stream this is, counting
    /// from the first sequence number seen in that direction.
    pub fn relative(&self, dir: Direction, seq: u32) -> (r: u32)
        ensures
            r == if self@.dir(dir).seen {
                seq_past(seq, self@.dir(dir).isn) as u32
            } else {
                0
            },
    {
        let d = self.state(dir);
        if d.seen {
            seq_sub(seq, d.isn)
        } else {
            0
        }
    }

    /// Frames seen in one direction.
    pub fn frames(&self, dir: Direction) -> (r: u64)
        ensures
            r == self@.dir(dir).frames,
    {
        self.state(dir).frames
    }

    /// Payload bytes seen in one direction.
    pub fn bytes(&self, dir: Direction) -> (r: u64)
        ensures
            r == self@.dir(dir).bytes,
    {
        self.state(dir).bytes
    }

    /// Classify `seg`, then fold it into the state.
    pub fn observe(&mut self, dir: Direction, seg: &Segment) -> (r: Findings)
        ensures
            r == findings(old(self)@.dir(dir), old(self)@.facing(dir), *seg),
            final(self)@ == after_segment(old(self)@, dir, *seg),
    {
        let (before, peer) = match dir {
            Direction::Forward => (self.forward, self.reverse),
            Direction::Reverse => (self.reverse, self.forward),
        };
        let mut me: DirState = before;
        let mut out: Findings = Findings::default();
        if seg.syn {
            self.saw_syn = true;
        }
        // Window scale is announced on the SYN and applies to every later
        // segment in that direction, so it is recorded before anything uses
        // the window.
        if seg.window_scale.is_some() {
            me.window_scale = seg.window_scale;
        }
        let scaled: u32 = if seg.syn {
            seg.window
        } else {
            match me.window_scale {
                Some(s) => {
                    let shift: u8 = if s < 14 {
                        s
                    } else {
                        14
                    };
                    seg.window << shift
                },
                None => seg.window,
            }
        };
        let seq_len: u32 = seg.seq_len();
        let end: u32 = seq_add(seg.seq, seq_len);
        let first: bool = !before.seen;
        if first {
            me.seen = true;
            me.isn = seg.seq;
            me.next_seq = end;
            me.last_advance = Some(seg.ts);
        } else {
            out.sequence = classify_sequence(&before, &peer, seg);
            if seq_gt(end, before.next_seq) {
                me.next_seq = end;
                me.last_advance = Some(seg.ts);
            }
        }
        // It is not a retransmission even though it looks like one, so it
        // overrides the sequence finding.
        if !seg.syn && !seg.fin && !seg.rst && seg.payload_len <= 1 && !first && seg.seq
            == seq_prev(before.next_seq) {
            out.keep_alive = true;
            out.sequence = None;
        }
        out.zero_window = scaled == 0 && !seg.rst && !seg.fin && !seg.syn;
        if seg.ack_flag {
            out.duplicate_ack = classify_ack(&before, &mut me, &peer, seg, scaled);
            // An ACK for data never seen: the capture started mid-stream or
            // dropped the segment being acknowledged.
            if peer.seen && seq_gt(seg.ack, peer.next_seq) {
                out.ack_lost_segment = true;
            }
            if !before.acked || seq_gt(seg.ack, before.last_ack) {
                me.last_ack = seg.ack;
            }
            me.acked = true;
        }
        me.last_window = scaled;
        let in_range: bool = peer.acked && me.seen && !seq_lt(peer.last_ack, me.isn) && seq_le(
            peer.last_ack,
            me.next_seq,
        );
        out.bytes_in_flight = if in_range {
            seq_sub(me.next_seq, peer.last_ack)
        } else {
            0
        };
        // The sender has filled the window the peer advertised.
        if seg.payload_len > 0 && peer.last_window > 0 {
            out.window_full = out.bytes_in_flight == peer.last_window;
        }
        me.frames = me.frames.saturating_add(1);
        me.bytes = me.bytes.saturating_add(seg.payload_len as u64);
        match dir {
            Direction::Forward => {
                self.forward = me;
            },
            Direction::Reverse => {
                self.reverse = me;
            },
        }
        out
    }
}

fn classify_sequence(me: &DirState, peer: &DirState, seg: &Segment) -> (r: Option<SeqFinding>)
    ensures
        r == explain(me@, peer@, *seg),
{
    let next: u32 = me.next_seq;
    let seq_len: u32 = seg.seq_len();
    let end: u32 = seq_add(seg.seq, seq_len);
    if seq_gt(seg.seq, next) {
        // A jump forward: whatever sits in the gap was never captured.
        return Some(SeqFinding::LostSegment);
    }
    if seq_len == 0 {
        // A pure ACK repeats no data.
        return None;
    }
    if seq_gt(end, next) {
        // Starts inside what was seen but runs past it, or just where it ends.
        return if seq_lt(seg.seq, next) {
            Some(SeqFinding::Overlap)
        } else {
            None
        };
    }
    // Every byte has been seen before. Which explanation fits?
    if peer.acked && seq_le(end, peer.last_ack) {
        return Some(SeqFinding::SpuriousRetransmission);
    }
    if let Some(third) = peer.third_dup_ack {
        if nanos_between(third, seg.ts) <= FAST_RETRANSMIT_NANOS {
            return Some(SeqFinding::FastRetransmission);
        }
    }
    if let Some(last) = me.last_advance {
        if nanos_between(last, seg.ts) <= OUT_OF_ORDER_NANOS {
            return Some(SeqFinding::OutOfOrder);
        }
    }
    Some(SeqFinding::Retransmission)
}

fn classify_ack(
    before: &DirState,
    me: &mut DirState,
    peer: &DirState,
    seg: &Segment,
    scaled: u32,
) -> (r: Option<DupAck>)
    requires
        seg.ack_flag,
        scaled == scaled_window(before@, *seg),
        old(me)@.dup_ack_count == before@.dup_ack_count,
        old(me)@.dup_ack_frame == before@.dup_ack_frame,
        old(me)@.third_dup_ack == before@.third_dup_ack,
    ensures
        repeats_ack(before@, peer@, *seg) ==> {
            &&& r == Some(DupAck { number: next_repeat(before@), frame: before@.dup_ack_frame })
            &&& final(me)@ == (DirView {
                dup_ack_count: next_repeat(before@),
                third_dup_ack: if next_repeat(before@) == 3 {
                    Some(seg.ts)
                } else {
                    before@.third_dup_ack
                },
                ..old(me)@
            })
        },
        !repeats_ack(before@, peer@, *seg) ==> {
            &&& r is None
            &&& final(me)@ == (DirView {
                dup_ack_count: 0,
                dup_ack_frame: if seg.ack == highest_ack(before@, *seg) {
                    seg.frame
                } else {
                    before@.dup_ack_frame
                },
                third_dup_ack: None,
                ..old(me)@
            })
        },
{
    let repeats: bool = before.acked && seg.ack == before.last_ack && seg.seq_len() == 0
        && !seg.syn && !seg.fin && !seg.rst && scaled == before.last_window && peer.seen && seq_lt(
        seg.ack,
        peer.next_seq,
    );
    if !repeats {
        me.dup_ack_count = 0;
        if !before.acked || seq_gt(seg.ack, before.last_ack) || seg.ack == before.last_ack {
            me.dup_ack_frame = seg.frame;
        }
        me.third_dup_ack = None;
        return None;
    }
    let number: u32 = before.dup_ack_count.saturating_add(1);
    me.dup_ack_count = number;
    if number == 3 {
        me.third_dup_ack = Some(seg.ts);
    }
    Some(DupAck { number, frame: before.dup_ack_frame })
}

/// The first segment seen in a direction is never a sequence finding, a
/// keep-alive or a duplicate ACK, whatever it carries.
pub proof fn first_segment_is_unremarkable(me: DirView, peer: DirView, seg: Segment)
    requires
        !me.seen,
        !me.acked,
    ensures
        findings(me, peer, seg).sequence is None,
        !findings(me, peer, seg).keep_alive,
        findings(me, peer, seg).duplicate_ack is None,
{
}

/// A segment that carries on exactly where its direction left off is neither a
/// repeat nor a gap.
pub proof fn contiguous_segments_are_ordinary(me: DirView, peer: DirView, seg: Segment)
    requires
        me.seen,
        seg.seq == me.next_seq,
        0 < seg.length() < 0x8000_0000,
    ensures
        findings(me, peer, seg).sequence is None,
        advanced(me, peer, seg).next_seq == seg.end(),
{
    reveal(seq_plus);
    reveal(seq_past);
    reveal(seq_before);
    reveal(seq_after);
}

/// A keep-alive is never also reported as a retransmission.
pub proof fn keep_alive_excludes_sequence_findings(me: DirView, peer: DirView, seg: Segment)
    ensures
        findings(me, peer, seg).keep_alive ==> findings(me, peer, seg).sequence is None,
{
}

/// An ACK that is delivered late takes back nothing that was acknowledged.
pub proof fn acknowledged_bytes_stay_acknowledged(me: DirView, peer: DirView, seg: Segment)
    requires
        me.acked,
    ensures
        advanced(me, peer, seg).acked,
        advanced(me, peer, seg).last_ack == me.last_ack || seq_after(
            advanced(me, peer, seg).last_ack,
            me.last_ack,
        ),
        !seq_after(seg.ack, me.last_ack) ==> advanced(me, peer, seg).last_ack == me.last_ack,
{
}

/// Each segment counts once, in its own direction, and leaves the other alone.
pub proof fn counters_add_up(a: AnalysisView, d: Direction, seg: Segment)
    ensures
        after_segment(a, d, seg).dir(d).frames == counted(a.dir(d).frames, 1),
        after_segment(a, d, seg).dir(d).bytes == counted(a.dir(d).bytes, seg.payload_len as int),
        after_segment(a, d, seg).facing(d) == a.facing(d),
{
}

} // verus!

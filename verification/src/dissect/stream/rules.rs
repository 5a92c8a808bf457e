//! What the findings of TCP sequence analysis mean.

use vstd::prelude::*;

use crate::capture::Timestamp;

use super::tcp::{
    advanced, after_segment, findings, scaled_window, seq_after, seq_before, seq_past, seq_plus,
    AnalysisView, DirView, DupAck, Segment, SeqFinding,
};
use super::Direction;

verus! {

/// `a` is `n` bytes past `b` in a space of 2^32 numbers, going forward.
pub open spec fn ahead_by(a: u32, b: u32, n: int) -> bool {
    0 <= n < 0x1_0000_0000 && (a == b + n || a == b + n - 0x1_0000_0000)
}

/// Sequence numbers are compared by the shorter way round: `a` is after `b`
/// when it is ahead by less than half the space, and before it when it is
/// ahead by at least half.
pub proof fn the_shorter_way_round_decides(a: u32, b: u32, n: int)
    requires
        ahead_by(a, b, n),
    ensures
        seq_past(a, b) == n,
        seq_plus(b, n) == a,
        seq_after(a, b) <==> 0 < n < 0x8000_0000,
        seq_before(a, b) <==> n >= 0x8000_0000,
{
    reveal(seq_plus);
    reveal(seq_past);
    reveal(seq_before);
    reveal(seq_after);
}

// ---- windows --------------------------------------------------------------------

/// Two to the power `n`.
pub open spec fn doubled(n: nat) -> int
    decreases n,
{
    if n == 0 {
        1
    } else {
        2 * doubled((n - 1) as nat)
    }
}

/// The scale that applies to a segment: what it announces itself, or else what
/// its direction announced before; more than 14 counts as 14, and none as 0.
pub open spec fn scale_in_force(me: DirView, seg: Segment) -> nat {
    match (seg.window_scale, me.window_scale) {
        (Some(s), _) => if s > 14 {
            14
        } else {
            s as nat
        },
        (None, Some(s)) => if s > 14 {
            14
        } else {
            s as nat
        },
        (None, None) => 0,
    }
}

/// A window is advertised in units of two to the power of the scale, but for
/// the window of a SYN, which is in bytes.
pub proof fn windows_are_scaled(me: DirView, seg: Segment)
    requires
        seg.window <= 0xffff,
    ensures
        seg.syn ==> scaled_window(me, seg) == seg.window,
        !seg.syn ==> scaled_window(me, seg) == seg.window * doubled(scale_in_force(me, seg)),
{
    if !seg.syn && (seg.window_scale is Some || me.window_scale is Some) {
        let w = seg.window;
        let s = match seg.window_scale {
            Some(s) => s,
            None => me.window_scale->Some_0,
        };
        let k: u8 = if s < 14 {
            s
        } else {
            14
        };
        assert(w << 0u8 == w) by (bit_vector);
        assert(w << 1u8 == 2 * w && w << 2u8 == 4 * w && w << 3u8 == 8 * w && w << 4u8 == 16 * w
            && w << 5u8 == 32 * w && w << 6u8 == 64 * w && w << 7u8 == 128 * w) by (bit_vector)
            requires
                w <= 0xffff,
        ;
        assert(w << 8u8 == 256 * w && w << 9u8 == 512 * w && w << 10u8 == 1024 * w && w << 11u8
            == 2048 * w && w << 12u8 == 4096 * w && w << 13u8 == 8192 * w && w << 14u8 == 16384
            * w) by (bit_vector)
            requires
                w <= 0xffff,
        ;
        reveal_with_fuel(doubled, 15);
        assert(doubled(0) == 1 && doubled(1) == 2 && doubled(2) == 4 && doubled(3) == 8 && doubled(
            4,
        ) == 16 && doubled(5) == 32 && doubled(6) == 64 && doubled(7) == 128);
        assert(doubled(8) == 256 && doubled(9) == 512 && doubled(10) == 1024 && doubled(11) == 2048
            && doubled(12) == 4096 && doubled(13) == 8192 && doubled(14) == 16384);
        assert(scale_in_force(me, seg) == k);
        assert(scaled_window(me, seg) == w << k);
        let d = doubled(k as nat);
        if k == 0 {
            assert(d * w == 1 * w);
        } else if k == 1 {
            assert(d * w == 2 * w);
        } else if k == 2 {
            assert(d * w == 4 * w);
        } else if k == 3 {
            assert(d * w == 8 * w);
        } else if k == 4 {
            assert(d * w == 16 * w);
        } else if k == 5 {
            assert(d * w == 32 * w);
        } else if k == 6 {
            assert(d * w == 64 * w);
        } else if k == 7 {
            assert(d * w == 128 * w);
        } else if k == 8 {
            assert(d * w == 256 * w);
        } else if k == 9 {
            assert(d * w == 512 * w);
        } else if k == 10 {
            assert(d * w == 1024 * w);
        } else if k == 11 {
            assert(d * w == 2048 * w);
        } else if k == 12 {
            assert(d * w == 4096 * w);
        } else if k == 13 {
            assert(d * w == 8192 * w);
        } else {
            assert(d * w == 16384 * w);
        }
        assert(w << k == d * w);
        assert(d * w == w * d) by (nonlinear_arith);
    } else {
        reveal_with_fuel(doubled, 1);
    }
}

/// A scale that was announced stays in force for its direction until another
/// is announced, and no direction takes that of the other.
pub proof fn a_scale_stays_in_force(me: DirView, peer: DirView, seg: Segment, next: Segment)
    requires
        next.window_scale is None,
    ensures
        advanced(me, peer, seg).last_window == scaled_window(me, seg),
        seg.window_scale is Some || me.window_scale is Some ==> scale_in_force(
            advanced(me, peer, seg),
            next,
        ) == scale_in_force(me, seg),
{
}

/// A zero window is a window of no bytes, in a segment that neither opens nor
/// closes the connection.
pub proof fn zero_windows_are_empty(me: DirView, peer: DirView, seg: Segment)
    requires
        seg.window <= 0xffff,
    ensures
        findings(me, peer, seg).zero_window <==> seg.window == 0 && !seg.syn && !seg.fin
            && !seg.rst,
{
    windows_are_scaled(me, seg);
    lemma_doubled(scale_in_force(me, seg));
    assert(seg.window > 0 ==> seg.window * doubled(scale_in_force(me, seg)) > 0)
        by (nonlinear_arith)
        requires
            doubled(scale_in_force(me, seg)) > 0,
    ;
}

proof fn lemma_doubled(n: nat)
    ensures
        doubled(n) > 0,
    decreases n,
{
    if n > 0 {
        lemma_doubled((n - 1) as nat);
    }
}

// ---- acknowledgements -----------------------------------------------------------

/// The segment carries neither data nor a flag that takes up a sequence
/// number or resets the connection.
pub open spec fn is_bare(seg: Segment) -> bool {
    seg.payload_len == 0 && !seg.syn && !seg.fin && !seg.rst
}

/// A duplicate ACK carries nothing and changes nothing: it acknowledges what
/// was acknowledged before, advertises the window that was advertised before,
/// and comes while the other side has sent more than that.
pub proof fn a_duplicate_ack_changes_nothing(me: DirView, peer: DirView, seg: Segment)
    requires
        findings(me, peer, seg).duplicate_ack is Some,
    ensures
        seg.ack_flag,
        is_bare(seg),
        me.acked && seg.ack == me.last_ack,
        scaled_window(me, seg) == me.last_window,
        advanced(me, peer, seg).last_ack == me.last_ack,
        advanced(me, peer, seg).last_window == me.last_window,
        peer.seen && seg.ack != peer.next_seq,
        exists|n: int| 0 < n <= 0x8000_0000 && ahead_by(peer.next_seq, seg.ack, n),
{
    reveal(seq_plus);
    reveal(seq_past);
    reveal(seq_before);
    reveal(seq_after);
    lemma_plain_length(seg);
    let n = if peer.next_seq >= seg.ack {
        peer.next_seq - seg.ack
    } else {
        peer.next_seq - seg.ack + 0x1_0000_0000
    };
    assert(ahead_by(peer.next_seq, seg.ack, n));
}

/// An ACK that advertises another window than the last one, larger or
/// smaller, is a window update and never a duplicate.
pub proof fn a_window_update_is_no_duplicate_ack(me: DirView, peer: DirView, seg: Segment)
    requires
        scaled_window(me, seg) != me.last_window,
    ensures
        findings(me, peer, seg).duplicate_ack is None,
        advanced(me, peer, seg).dup_ack_count == 0 || !seg.ack_flag,
        seg.ack_flag ==> advanced(me, peer, seg).third_dup_ack is None,
{
}

/// And an ACK that carries nothing and changes nothing, while up to half the
/// sequence space is outstanding, is a duplicate: the one after those counted
/// so far.
pub proof fn an_unchanged_ack_is_a_duplicate(
    me: DirView,
    peer: DirView,
    seg: Segment,
    outstanding: int,
)
    requires
        seg.ack_flag,
        is_bare(seg),
        me.acked,
        seg.ack == me.last_ack,
        scaled_window(me, seg) == me.last_window,
        peer.seen,
        0 < outstanding <= 0x8000_0000,
        ahead_by(peer.next_seq, seg.ack, outstanding),
        me.dup_ack_count < u32::MAX,
    ensures
        findings(me, peer, seg).duplicate_ack == Some(
            DupAck { number: (me.dup_ack_count + 1) as u32, frame: me.dup_ack_frame },
        ),
        advanced(me, peer, seg).dup_ack_count == me.dup_ack_count + 1,
        advanced(me, peer, seg).dup_ack_frame == me.dup_ack_frame,
        advanced(me, peer, seg).third_dup_ack == if me.dup_ack_count == 2 {
            Some(seg.ts)
        } else {
            me.third_dup_ack
        },
{
    reveal(seq_plus);
    reveal(seq_past);
    reveal(seq_before);
    reveal(seq_after);
}

proof fn lemma_plain_length(seg: Segment)
    ensures
        seg.payload_len <= 0xffff_fffd ==> seg.length() == seg.payload_len + (if seg.syn {
            1int
        } else {
            0
        }) + (if seg.fin {
            1int
        } else {
            0
        }),
        !seg.syn && !seg.fin ==> seg.length() == seg.payload_len,
{
    reveal(seq_plus);
}

/// Repeats are counted from the ACK that they repeat: one that says anything
/// new starts the count again, and is the one that later repeats point to.
pub proof fn a_new_ack_starts_the_count_again(me: DirView, peer: DirView, seg: Segment)
    requires
        seg.ack_flag,
        !me.acked || seq_after(seg.ack, me.last_ack),
    ensures
        findings(me, peer, seg).duplicate_ack is None,
        advanced(me, peer, seg).dup_ack_count == 0,
        advanced(me, peer, seg).dup_ack_frame == seg.frame,
        advanced(me, peer, seg).third_dup_ack is None,
        advanced(me, peer, seg).last_ack == seg.ack,
        advanced(me, peer, seg).acked,
{
    reveal(seq_past);
    reveal(seq_after);
}

/// A segment without an ACK leaves everything about acknowledgements alone.
pub proof fn without_an_ack_nothing_is_acknowledged(me: DirView, peer: DirView, seg: Segment)
    requires
        !seg.ack_flag,
    ensures
        findings(me, peer, seg).duplicate_ack is None,
        !findings(me, peer, seg).ack_lost_segment,
        advanced(me, peer, seg).last_ack == me.last_ack,
        advanced(me, peer, seg).acked == me.acked,
        advanced(me, peer, seg).dup_ack_count == me.dup_ack_count,
        advanced(me, peer, seg).dup_ack_frame == me.dup_ack_frame,
        advanced(me, peer, seg).third_dup_ack == me.third_dup_ack,
{
}

/// An ACK is for data that was never seen exactly when it is ahead, by less
/// than half the space, of the last byte that the other side was seen to send.
pub proof fn an_ack_ahead_of_the_data_is_for_data_never_seen(
    me: DirView,
    peer: DirView,
    seg: Segment,
    n: int,
)
    requires
        seg.ack_flag,
        ahead_by(seg.ack, peer.next_seq, n),
    ensures
        findings(me, peer, seg).ack_lost_segment <==> peer.seen && 0 < n < 0x8000_0000,
{
    the_shorter_way_round_decides(seg.ack, peer.next_seq, n);
}

// ---- sequence numbers -----------------------------------------------------------

/// Sequence numbers that a segment takes up: one for each byte, and one each
/// for SYN and FIN.
pub open spec fn takes_up(seg: Segment) -> int {
    seg.payload_len + (if seg.syn {
        1int
    } else {
        0
    }) + (if seg.fin {
        1int
    } else {
        0
    })
}

/// A segment of ordinary length that begins `n` ahead of what its direction
/// was expected to send next, or `-n` behind it.
pub open spec fn begins_at(me: DirView, seg: Segment, n: int) -> bool {
    &&& me.seen
    &&& takes_up(seg) < 0x4000_0000
    &&& -0x4000_0000 < n < 0x4000_0000
    &&& if n >= 0 {
        ahead_by(seg.seq, me.next_seq, n)
    } else {
        ahead_by(me.next_seq, seg.seq, -n)
    }
}

proof fn lemma_begins(me: DirView, seg: Segment, n: int)
    requires
        begins_at(me, seg, n),
    ensures
        seg.length() == takes_up(seg),
        seq_after(seg.seq, me.next_seq) <==> n > 0,
        seq_before(seg.seq, me.next_seq) <==> n < 0,
        seq_after(seg.end(), me.next_seq) <==> n + takes_up(seg) > 0,
        n + takes_up(seg) >= 0 ==> seg.end() == seq_plus(me.next_seq, n + takes_up(seg)),
{
    reveal(seq_plus);
    reveal(seq_past);
    reveal(seq_before);
    reveal(seq_after);
}

/// Where a segment begins and ends decides what is said of its sequence
/// number. Beginning ahead of what was expected means that something before
/// it was not captured; going on just there is ordinary; beginning behind and
/// running past is an overlap; and holding only bytes that were sent before is
/// a repeat of some kind.
pub proof fn where_a_segment_begins_decides(me: DirView, peer: DirView, seg: Segment, n: int)
    requires
        begins_at(me, seg, n),
    ensures
        ({
            let f = findings(me, peer, seg).sequence;
            let quiet = findings(me, peer, seg).keep_alive;
            &&& f == Some(SeqFinding::LostSegment) <==> n > 0
            &&& n == 0 && takes_up(seg) > 0 ==> f is None && !quiet
            &&& takes_up(seg) == 0 && n <= 0 ==> f is None
            &&& !quiet ==> (f == Some(SeqFinding::Overlap) <==> n < 0 && n + takes_up(seg) > 0)
            &&& !quiet ==> (f == Some(SeqFinding::Retransmission) || f == Some(
                SeqFinding::FastRetransmission,
            ) || f == Some(SeqFinding::SpuriousRetransmission) || f == Some(
                SeqFinding::OutOfOrder,
            ) <==> takes_up(seg) > 0 && n + takes_up(seg) <= 0)
        }),
{
    lemma_begins(me, seg, n);
    reveal(seq_plus);
}

/// A repeat is spurious exactly when all of it was acknowledged; of the
/// others, one within 20 ms of a third duplicate ACK answers those ACKs, one
/// within 3 ms of the last new byte was delivered out of order, and one that
/// is neither was sent again after a timeout.
pub proof fn when_a_repeat_comes_says_why(
    me: DirView,
    peer: DirView,
    seg: Segment,
    n: int,
    since_third: int,
    since_new: int,
)
    requires
        begins_at(me, seg, n),
        takes_up(seg) > 0,
        n + takes_up(seg) <= 0,
        !findings(me, peer, seg).keep_alive,
        peer.third_dup_ack matches Some(t) ==> since_third == elapsed(t, seg.ts),
        me.last_advance matches Some(t) ==> since_new == elapsed(t, seg.ts),
    ensures
        ({
            let f = findings(me, peer, seg).sequence;
            let known = peer.acked && !seq_after(
                seq_plus(seg.seq, takes_up(seg)),
                peer.last_ack,
            );
            let prompted = peer.third_dup_ack is Some && since_third <= 20_000_000;
            let late = me.last_advance is Some && since_new <= 3_000_000;
            &&& known <==> f == Some(SeqFinding::SpuriousRetransmission)
            &&& !known && prompted <==> f == Some(SeqFinding::FastRetransmission)
            &&& !known && !prompted && late <==> f == Some(SeqFinding::OutOfOrder)
            &&& !known && !prompted && !late <==> f == Some(SeqFinding::Retransmission)
        }),
{
    lemma_begins(me, seg, n);
}

/// Nanoseconds from one moment to another.
pub open spec fn elapsed(from: Timestamp, to: Timestamp) -> int {
    (to.secs * 1_000_000_000 + to.nanos) - (from.secs * 1_000_000_000 + from.nanos)
}

/// What a direction is expected to send next is the end of the furthest
/// segment it was seen to send: a segment that reaches further moves it there,
/// and no other segment moves it.
pub proof fn the_furthest_end_is_expected_next(me: DirView, peer: DirView, seg: Segment, n: int)
    requires
        begins_at(me, seg, n),
    ensures
        n + takes_up(seg) > 0 ==> ahead_by(
            advanced(me, peer, seg).next_seq,
            me.next_seq,
            n + takes_up(seg),
        ) && advanced(me, peer, seg).last_advance == Some(seg.ts),
        n + takes_up(seg) <= 0 ==> advanced(me, peer, seg).next_seq == me.next_seq && advanced(
            me,
            peer,
            seg,
        ).last_advance == me.last_advance,
        advanced(me, peer, seg).isn == me.isn,
{
    lemma_begins(me, seg, n);
    reveal(seq_plus);
}

/// The first segment of a direction sets where its numbers start and what is
/// expected next.
pub proof fn the_first_segment_sets_the_start(me: DirView, peer: DirView, seg: Segment)
    requires
        !me.seen,
        takes_up(seg) < 0x1_0000_0000,
    ensures
        advanced(me, peer, seg).seen,
        advanced(me, peer, seg).isn == seg.seq,
        ahead_by(advanced(me, peer, seg).next_seq, seg.seq, takes_up(seg)),
        advanced(me, peer, seg).last_advance == Some(seg.ts),
        findings(me, peer, seg).sequence is None,
{
    reveal(seq_plus);
}

/// A keep-alive carries at most one byte, and stands one byte behind what its
/// direction was expected to send next; any such segment that has no flag is
/// one.
pub proof fn a_keep_alive_stands_one_byte_behind(
    me: DirView,
    peer: DirView,
    seg: Segment,
    n: int,
)
    requires
        begins_at(me, seg, n),
    ensures
        findings(me, peer, seg).keep_alive <==> n == -1 && seg.payload_len <= 1 && !seg.syn
            && !seg.fin && !seg.rst,
        findings(me, peer, seg).keep_alive ==> findings(me, peer, seg).sequence is None,
{
    reveal(seq_plus);
}

// ---- what is in flight ----------------------------------------------------------

/// Bytes in flight are those between the last ACK of the other side and the
/// furthest byte sent, this segment's included; where that ACK lies before the
/// start or past the end of what was seen, or there is none, they are unknown
/// and given as none. The window is full when they are as many as the other
/// side last advertised and this segment carries some of them.
pub proof fn bytes_in_flight_are_unacknowledged(
    me: DirView,
    peer: DirView,
    seg: Segment,
    sent: int,
    acked: int,
)
    requires
        0 <= acked < 0x8000_0000,
        0 <= sent < 0x8000_0000,
        ahead_by(advanced(me, peer, seg).next_seq, advanced(me, peer, seg).isn, sent),
        ahead_by(peer.last_ack, advanced(me, peer, seg).isn, acked),
    ensures
        ({
            let f = findings(me, peer, seg);
            &&& f.bytes_in_flight == if peer.acked && acked <= sent {
                sent - acked
            } else {
                0
            }
            &&& f.window_full <==> seg.payload_len > 0 && peer.last_window > 0
                && f.bytes_in_flight == peer.last_window
        }),
{
    reveal(seq_plus);
    reveal(seq_past);
    reveal(seq_before);
    reveal(seq_after);
}

/// An ACK from before the start of what was seen leaves nothing known to be in
/// flight.
pub proof fn an_ack_from_before_the_start_says_nothing(
    me: DirView,
    peer: DirView,
    seg: Segment,
    n: int,
)
    requires
        0 < n <= 0x8000_0000,
        ahead_by(advanced(me, peer, seg).isn, peer.last_ack, n),
    ensures
        findings(me, peer, seg).bytes_in_flight == 0,
{
    reveal(seq_plus);
    reveal(seq_past);
    reveal(seq_before);
    reveal(seq_after);
}

/// A segment changes what is known of its own direction only, and a SYN is
/// remembered.
pub proof fn a_segment_changes_its_own_direction(a: AnalysisView, d: Direction, seg: Segment)
    ensures
        d == Direction::Forward ==> after_segment(a, d, seg).reverse == a.reverse && after_segment(
            a,
            d,
            seg,
        ).forward == advanced(a.forward, a.reverse, seg),
        d == Direction::Reverse ==> after_segment(a, d, seg).forward == a.forward && after_segment(
            a,
            d,
            seg,
        ).reverse == advanced(a.reverse, a.forward, seg),
        after_segment(a, d, seg).saw_syn <==> a.saw_syn || seg.syn,
{
}

} // verus!

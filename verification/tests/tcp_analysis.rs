use netscope::capture::Timestamp;
use netscope::dissect::stream::tcp::{Analysis, Segment, SeqFinding};
use netscope::dissect::stream::Direction;

fn ts(ms: i64) -> Timestamp {
    Timestamp {
        secs: ms / 1000,
        nanos: ((ms % 1000) * 1_000_000) as u32,
    }
}

/// A data segment with sensible defaults.
fn seg(frame: u32, ms: i64, seq: u32, len: u32) -> Segment {
    Segment {
        frame,
        ts: ts(ms),
        seq,
        ack: 1,
        payload_len: len,
        window: 65535,
        syn: false,
        fin: false,
        rst: false,
        ack_flag: true,
        window_scale: None,
    }
}

fn ack(frame: u32, ms: i64, ack: u32) -> Segment {
    Segment {
        ack,
        payload_len: 0,
        ..seg(frame, ms, 1, 0)
    }
}

const FWD: Direction = Direction::Forward;
const REV: Direction = Direction::Reverse;

#[test]
fn ordinary_traffic_produces_no_findings() {
    let mut a = Analysis::default();
    assert!(a.observe(FWD, &seg(1, 0, 1000, 100)).is_empty());
    assert!(a.observe(FWD, &seg(2, 10, 1100, 100)).is_empty());
    assert!(a.observe(FWD, &seg(3, 20, 1200, 100)).is_empty());
}

#[test]
fn a_repeat_after_a_pause_is_a_retransmission() {
    let mut a = Analysis::default();
    a.observe(FWD, &seg(1, 0, 1000, 100));
    a.observe(FWD, &seg(2, 10, 1100, 100));
    // Same bytes again, long after: a timeout retransmission.
    let f = a.observe(FWD, &seg(3, 500, 1100, 100));
    assert_eq!(f.sequence, Some(SeqFinding::Retransmission));
}

#[test]
fn a_repeat_within_the_reordering_window_is_out_of_order() {
    let mut a = Analysis::default();
    a.observe(FWD, &seg(1, 0, 1000, 100));
    // 1200 arrives before 1100.
    a.observe(FWD, &seg(2, 10, 1200, 100));
    let f = a.observe(FWD, &seg(3, 10, 1100, 100));
    assert_eq!(
        f.sequence,
        Some(SeqFinding::OutOfOrder),
        "same millisecond means the network reordered, not the sender resent"
    );
}

#[test]
fn a_gap_is_reported_as_a_lost_segment() {
    let mut a = Analysis::default();
    a.observe(FWD, &seg(1, 0, 1000, 100));
    // 1100..1200 never captured.
    let f = a.observe(FWD, &seg(2, 10, 1200, 100));
    assert_eq!(f.sequence, Some(SeqFinding::LostSegment));
    // And the state moves on, so the next segment is ordinary.
    assert!(a.observe(FWD, &seg(3, 20, 1300, 100)).is_empty());
}

#[test]
fn a_segment_that_is_partly_new_is_an_overlap() {
    let mut a = Analysis::default();
    a.observe(FWD, &seg(1, 0, 1000, 100));
    // Starts 50 bytes back but runs 50 past what we have.
    let f = a.observe(FWD, &seg(2, 500, 1050, 100));
    assert_eq!(f.sequence, Some(SeqFinding::Overlap));
}

#[test]
fn resending_data_the_peer_already_acknowledged_is_spurious() {
    let mut a = Analysis::default();
    a.observe(FWD, &seg(1, 0, 1000, 100));
    a.observe(REV, &ack(2, 5, 1100));
    let f = a.observe(FWD, &seg(3, 500, 1000, 100));
    assert_eq!(f.sequence, Some(SeqFinding::SpuriousRetransmission));
}

#[test]
fn duplicate_acks_are_counted_and_point_at_the_original() {
    let mut a = Analysis::default();
    a.observe(FWD, &seg(1, 0, 1000, 100));
    a.observe(FWD, &seg(2, 1, 1200, 100)); // gap: 1100..1200 lost
    let first = a.observe(REV, &ack(3, 2, 1100));
    assert_eq!(first.duplicate_ack, None, "the first ACK is not a repeat");
    let d1 = a.observe(REV, &ack(4, 3, 1100)).duplicate_ack;
    let d2 = a.observe(REV, &ack(5, 4, 1100)).duplicate_ack;
    let d3 = a.observe(REV, &ack(6, 5, 1100)).duplicate_ack;
    assert_eq!(d1.map(|d| d.number), Some(1));
    assert_eq!(d2.map(|d| d.number), Some(2));
    assert_eq!(d3.map(|d| d.number), Some(3));
    assert_eq!(d3.map(|d| d.frame), Some(3), "points at the ACK repeated");
}

#[test]
fn a_resend_just_after_three_duplicate_acks_is_a_fast_retransmission() {
    let mut a = Analysis::default();
    a.observe(FWD, &seg(1, 0, 1000, 100));
    a.observe(FWD, &seg(2, 1, 1200, 100));
    a.observe(REV, &ack(3, 2, 1100));
    a.observe(REV, &ack(4, 3, 1100));
    a.observe(REV, &ack(5, 4, 1100));
    a.observe(REV, &ack(6, 5, 1100));
    // The sender reacts immediately, not after a timeout.
    let f = a.observe(FWD, &seg(7, 6, 1100, 100));
    assert_eq!(f.sequence, Some(SeqFinding::FastRetransmission));
}

#[test]
fn an_ack_that_moves_forward_ends_the_duplicate_run() {
    let mut a = Analysis::default();
    a.observe(FWD, &seg(1, 0, 1000, 200));
    a.observe(REV, &ack(2, 1, 1100));
    assert!(a.observe(REV, &ack(3, 2, 1100)).duplicate_ack.is_some());
    assert_eq!(a.observe(REV, &ack(4, 3, 1200)).duplicate_ack, None);
    // And the count restarts rather than continuing from 2.
    a.observe(FWD, &seg(5, 4, 1200, 100));
    assert_eq!(
        a.observe(REV, &ack(6, 5, 1200))
            .duplicate_ack
            .map(|d| d.number),
        Some(1)
    );
}

#[test]
fn a_zero_window_is_reported() {
    let mut a = Analysis::default();
    a.observe(FWD, &seg(1, 0, 1000, 100));
    let stall = Segment {
        window: 0,
        ..ack(2, 1, 1100)
    };
    assert!(a.observe(REV, &stall).zero_window);
    // But a RST with a zero window is just a reset.
    let reset = Segment {
        window: 0,
        rst: true,
        ..ack(3, 2, 1100)
    };
    assert!(!a.observe(REV, &reset).zero_window);
}

#[test]
fn the_window_scale_from_the_syn_applies_to_later_segments() {
    // Without the scale the peer looks like it advertised 1,000 bytes and
    // a 1,500-byte segment would read as having filled the window. With
    // it the real window is 128,000 and nothing is full.
    let mut a = Analysis::default();
    a.observe(
        FWD,
        &Segment {
            syn: true,
            ack_flag: false,
            window: 1000,
            window_scale: Some(7),
            ..seg(1, 0, 1000, 0)
        },
    );
    a.observe(
        REV,
        &Segment {
            syn: true,
            ack: 1001,
            window: 1000,
            window_scale: Some(7),
            ..seg(2, 1, 5000, 0)
        },
    );
    a.observe(FWD, &ack(3, 2, 5001));
    // The peer's first segment after the handshake: 1000 << 7 = 128,000.
    a.observe(
        REV,
        &Segment {
            window: 1000,
            ..ack(4, 3, 1001)
        },
    );
    let f = a.observe(
        FWD,
        &Segment {
            ack: 5001,
            ..seg(5, 4, 1001, 1500)
        },
    );
    assert_eq!(f.bytes_in_flight, 1500);
    assert!(!f.window_full, "1,500 of a 128,000-byte window is not full");
}

#[test]
fn filling_the_peers_window_is_reported() {
    let mut a = Analysis::default();
    // The peer advertises a small window and acknowledges nothing.
    a.observe(FWD, &seg(1, 0, 1000, 0));
    let small = Segment {
        window: 100,
        ..ack(2, 1, 1000)
    };
    a.observe(REV, &small);
    let f = a.observe(FWD, &seg(3, 2, 1000, 100));
    assert!(f.window_full, "100 bytes exactly fills a 100-byte window");
    assert_eq!(f.bytes_in_flight, 100);
}

#[test]
fn a_keep_alive_is_not_a_retransmission() {
    let mut a = Analysis::default();
    a.observe(FWD, &seg(1, 0, 1000, 100));
    // One byte at next_seq - 1, long after: a keep-alive probe.
    let f = a.observe(FWD, &seg(2, 5000, 1099, 1));
    assert!(f.keep_alive);
    assert_eq!(f.sequence, None, "a keep-alive must not read as a resend");
}

#[test]
fn a_one_byte_segment_that_advances_the_stream_is_not_a_keep_alive() {
    // A probe re-sends the last byte already sent. A one-byte segment at
    // the expected sequence number is ordinary data, and calling it a
    // keep-alive was a false positive on every small write.
    let mut a = Analysis::default();
    a.observe(FWD, &seg(1, 0, 1000, 0));
    let f = a.observe(FWD, &seg(2, 10, 1000, 1));
    assert!(!f.keep_alive);
    assert_eq!(f.sequence, None);
    // And the genuine probe still is one.
    let f = a.observe(FWD, &seg(3, 5000, 1000, 1));
    assert!(f.keep_alive);
}

#[test]
fn an_ack_for_data_never_captured_is_reported() {
    let mut a = Analysis::default();
    a.observe(FWD, &seg(1, 0, 1000, 100));
    // Acknowledges far beyond anything this capture saw sent.
    let f = a.observe(REV, &ack(2, 1, 9000));
    assert!(f.ack_lost_segment);
}

#[test]
fn sequence_numbers_that_wrap_are_handled() {
    // The failure this guards against: after the wrap, every segment
    // looks like an enormous backward jump and is reported as a
    // retransmission, or an enormous forward one and reported as a gap.
    let mut a = Analysis::default();
    let base = u32::MAX - 150;
    a.observe(FWD, &seg(1, 0, base, 100));
    let after_wrap = base.wrapping_add(100);
    assert!(
        a.observe(FWD, &seg(2, 10, after_wrap, 100)).is_empty(),
        "the segment straddling the wrap is ordinary"
    );
    let next = after_wrap.wrapping_add(100);
    assert!(a.observe(FWD, &seg(3, 20, next, 100)).is_empty());
    // And a genuine resend after the wrap is still caught.
    let f = a.observe(FWD, &seg(4, 500, after_wrap, 100));
    assert_eq!(f.sequence, Some(SeqFinding::Retransmission));
}

#[test]
fn relative_numbering_counts_from_the_first_segment_seen() {
    let mut a = Analysis::default();
    a.observe(FWD, &seg(1, 0, 1_000_000, 100));
    assert_eq!(a.relative(FWD, 1_000_000), 0);
    assert_eq!(a.relative(FWD, 1_000_100), 100);
    // Each direction has its own initial sequence number.
    a.observe(REV, &seg(2, 1, 7_000_000, 0));
    assert_eq!(a.relative(REV, 7_000_050), 50);
}

#[test]
fn the_first_segment_in_a_direction_is_never_a_finding() {
    // A capture joined mid-stream must not report its very first segment
    // as a gap just because the sequence number is not zero.
    let mut a = Analysis::default();
    assert!(a.observe(FWD, &seg(1, 0, 123_456, 100)).is_empty());
    assert!(a.observe(REV, &seg(2, 1, 987_654, 100)).is_empty());
}

#[test]
fn per_direction_counters_add_up() {
    let mut a = Analysis::default();
    a.observe(FWD, &seg(1, 0, 1000, 100));
    a.observe(FWD, &seg(2, 1, 1100, 50));
    a.observe(REV, &seg(3, 2, 5000, 10));
    assert_eq!(a.frames(FWD), 2);
    assert_eq!(a.bytes(FWD), 150);
    assert_eq!(a.frames(REV), 1);
    assert_eq!(a.bytes(REV), 10);
}

#[test]
fn an_ack_delivered_late_takes_nothing_back() {
    let mut a = Analysis::default();
    a.observe(FWD, &seg(1, 0, 1000, 100));
    a.observe(FWD, &seg(2, 1, 1100, 100));
    a.observe(REV, &ack(3, 2, 1200));
    // The acknowledgement of the first segment arrives after that of both.
    assert_eq!(a.observe(REV, &ack(4, 3, 1100)).duplicate_ack, None);
    let f = a.observe(FWD, &seg(5, 500, 1100, 100));
    assert_eq!(
        f.sequence,
        Some(SeqFinding::SpuriousRetransmission),
        "these bytes were acknowledged, whatever came later"
    );
    assert_eq!(f.bytes_in_flight, 0);
}

#[test]
fn a_window_is_full_when_it_is_filled_exactly() {
    let fill = |len: u32| {
        let mut a = Analysis::default();
        a.observe(FWD, &seg(1, 0, 1000, 0));
        let small = Segment {
            window: 100,
            ..ack(2, 1, 1000)
        };
        a.observe(REV, &small);
        a.observe(FWD, &seg(3, 2, 1000, len)).window_full
    };
    assert!(!fill(99));
    assert!(fill(100));
    assert!(!fill(101));
}

use netscope::capture::Timestamp;
use netscope::dissect::reassembly::{FragKey, FragResult, Reassembly};

fn key() -> FragKey {
    FragKey {
        src: [1, 1, 1, 1],
        dst: [2, 2, 2, 2],
        id: 7,
        proto: 17,
    }
}

fn ts(secs: i64) -> Timestamp {
    Timestamp { secs, nanos: 0 }
}

#[test]
fn reassembles_out_of_order() {
    let mut r = Reassembly::new();
    assert!(matches!(
        r.add(key(), 8, false, &[3, 3, 3, 3], 2, ts(1)),
        FragResult::Pending { received: 1 }
    ));
    match r.add(key(), 0, true, &[1; 8], 1, ts(1)) {
        FragResult::Complete { data, frags } => {
            assert_eq!(data, vec![1, 1, 1, 1, 1, 1, 1, 1, 3, 3, 3, 3]);
            assert_eq!(frags.len(), 2);
            assert_eq!(frags[0].frame, 2);
        }
        other => panic!("{other:?}"),
    }
    assert_eq!(r.pending_count(), 0);
}

#[test]
fn overlapping_fragments_do_not_break_completion() {
    let mut r = Reassembly::new();
    r.add(key(), 0, true, &[1; 8], 1, ts(1));
    r.add(key(), 4, true, &[2; 8], 2, ts(1));
    match r.add(key(), 12, false, &[3; 4], 3, ts(1)) {
        FragResult::Complete { data, .. } => assert_eq!(data.len(), 16),
        other => panic!("{other:?}"),
    }
}

#[test]
fn rejects_oversize_and_conflicting() {
    let mut r = Reassembly::new();
    assert!(matches!(
        r.add(key(), 65_530, false, &[0; 16], 1, ts(1)),
        FragResult::Rejected(_)
    ));
    r.add(key(), 8, false, &[0; 8], 1, ts(1));
    assert!(matches!(
        r.add(key(), 0, true, &[0; 32], 2, ts(1)),
        FragResult::Rejected(_)
    ));
}

#[test]
fn times_out_and_caps_pending() {
    let mut r = Reassembly::new();
    r.max_pending = 2;
    r.timeout_secs = 5;
    for i in 0..3u16 {
        let mut k = key();
        k.id = i;
        r.add(k, 0, true, &[0; 8], 1, ts(10));
    }
    assert_eq!(r.pending_count(), 2);
    r.expire(ts(16));
    assert_eq!(r.pending_count(), 0);
}

#[test]
fn parts_complete_in_every_order() {
    // Four parts of one datagram; whichever comes last completes it.
    let parts: [(usize, bool, &[u8]); 4] = [
        (0, true, &[1; 8]),
        (8, true, &[2; 16]),
        (24, true, &[3; 8]),
        (32, false, &[4; 5]),
    ];
    let whole: Vec<u8> = parts.iter().flat_map(|p| p.2.to_vec()).collect();
    let mut orders = Vec::new();
    for i in 0..4usize {
        for j in 0..4usize {
            for k in 0..4usize {
                for l in 0..4usize {
                    let o = [i, j, k, l];
                    if (0..4).all(|n| o.contains(&n)) {
                        orders.push(o);
                    }
                }
            }
        }
    }
    assert_eq!(orders.len(), 24);
    for order in orders {
        let mut r = Reassembly::new();
        for (n, at) in order.iter().enumerate() {
            let (offset, more, payload) = parts[*at];
            match r.add(key(), offset, more, payload, n as u32 + 1, ts(1)) {
                FragResult::Pending { received } => {
                    assert!(n < 3, "{order:?}");
                    assert_eq!(received, n + 1);
                }
                FragResult::Complete { data, frags } => {
                    assert_eq!(n, 3, "{order:?}");
                    assert_eq!(data, whole);
                    assert_eq!(frags.len(), 4);
                }
                other => panic!("{order:?}: {other:?}"),
            }
        }
        assert_eq!(r.pending_count(), 0);
    }
}

#[test]
fn a_datagram_is_pending_once() {
    let mut r = Reassembly::new();
    for n in 0..3u32 {
        r.add(key(), 0, true, &[1; 8], n + 1, ts(1));
        assert_eq!(r.pending_count(), 1);
    }
}

use std::sync::Arc;

use netscope::capture::{LinkType, RawFrame, Timestamp};
use netscope::dissect::{dissect, Frame, State};
use netscope::store::{Limits, Store, CHUNK};

fn frame(n: u32, len: usize) -> Arc<Frame> {
    let mut reassembly = State::new();
    Arc::new(dissect(
        LinkType::ethernet(),
        n,
        RawFrame {
            ts: Timestamp {
                secs: i64::from(n),
                nanos: 0,
            },
            caplen: len as u32,
            orig_len: len as u32,
            bytes: vec![0u8; len],
        },
        &mut reassembly,
    ))
}

fn fill(store: &mut Store, count: u32, len: usize) {
    let mut n = store.next_number();
    let batch: Vec<_> = (0..count)
        .map(|_| {
            let f = frame(n, len);
            n += 1;
            f
        })
        .collect();
    store.append(batch);
}

#[test]
fn indexing_spans_sealed_and_open_chunks() {
    let mut store = Store::new(Limits::default());
    fill(&mut store, CHUNK as u32 + 10, 64);
    let s = store.snapshot();
    assert_eq!(s.len(), CHUNK + 10);
    assert_eq!(s.get(0).map(|f| f.number), Some(1));
    assert_eq!(s.get(CHUNK - 1).map(|f| f.number), Some(CHUNK as u32));
    assert_eq!(s.get(CHUNK).map(|f| f.number), Some(CHUNK as u32 + 1));
    assert_eq!(s.get(CHUNK + 9).map(|f| f.number), Some(CHUNK as u32 + 10));
    assert!(s.get(CHUNK + 10).is_none());
    assert_eq!(s.row_of(CHUNK as u32 + 3), Some(CHUNK + 2));
}

#[test]
fn evicts_whole_chunks_by_frame_count() {
    let mut store = Store::new(Limits {
        max_frames: 2 * CHUNK as u64,
        max_bytes: u64::MAX,
    });
    fill(&mut store, 3 * CHUNK as u32 + 1, 64);
    let st = store.stats();
    // Three sealed chunks + 1 open = over by one chunk and a frame; the
    // oldest two chunks go so we are under the limit again.
    assert_eq!(st.evicted_frames, 2 * CHUNK as u64);
    assert_eq!(st.frames, CHUNK as u64 + 1);
    let s = store.snapshot();
    assert_eq!(s.get(0).map(|f| f.number), Some(2 * CHUNK as u32 + 1));
    assert_eq!(s.row_of(1), None);
    assert_eq!(s.row_of(2 * CHUNK as u32 + 1), Some(0));
    // Numbering continues across eviction.
    assert_eq!(st.next_number, 3 * CHUNK as u32 + 2);
}

#[test]
fn evicts_by_bytes() {
    let mut store = Store::new(Limits {
        max_frames: u64::MAX,
        max_bytes: 1,
    });
    fill(&mut store, 2 * CHUNK as u32, 100);
    // Cannot evict the open chunk; both sealed chunks go.
    assert_eq!(store.stats().evicted_frames, 2 * CHUNK as u64);
    assert_eq!(store.stats().frames, 0);
    fill(&mut store, 5, 100);
    assert_eq!(store.stats().frames, 5);
}

#[test]
fn snapshots_are_immutable_and_cheap() {
    let mut store = Store::new(Limits::default());
    fill(&mut store, 10, 8);
    let before = store.snapshot();
    fill(&mut store, 10, 8);
    assert_eq!(before.len(), 10);
    assert_eq!(store.snapshot().len(), 20);
    assert_ne!(before.version(), store.version());
    assert_eq!(before.start_ts(), Some(Timestamp { secs: 1, nanos: 0 }));
}

#[test]
fn misnumbered_frames_are_renumbered_contiguously() {
    let mut store = Store::new(Limits::default());
    store.append(vec![frame(99, 8), frame(5, 8)]);
    let s = store.snapshot();
    assert_eq!(s.get(0).map(|f| f.number), Some(1));
    assert_eq!(s.get(1).map(|f| f.number), Some(2));
}

#[test]
fn every_frame_numbered_is_held_or_evicted() {
    let mut store = Store::new(Limits {
        max_frames: CHUNK as u64 + 7,
        max_bytes: u64::MAX,
    });
    for batch in [1u32, 700, 3000, 5, 2000] {
        fill(&mut store, batch, 16);
        let st = store.stats();
        assert_eq!(
            st.frames + st.evicted_frames,
            u64::from(st.next_number) - 1
        );
        assert_eq!(
            store.snapshot().get(0).map(|f| u64::from(f.number)),
            Some(st.evicted_frames + 1)
        );
    }
}

#[test]
fn new_limits_drop_the_oldest_and_renumber_nothing() {
    let mut store = Store::new(Limits::default());
    fill(&mut store, 3 * CHUNK as u32 + 9, 16);
    let before = store.stats();
    assert_eq!(before.evicted_frames, 0);
    store.set_limits(Limits {
        max_frames: 2 * CHUNK as u64,
        max_bytes: u64::MAX,
    });
    let st = store.stats();
    assert_eq!(st.evicted_frames, 2 * CHUNK as u64);
    assert_eq!(st.frames, CHUNK as u64 + 9);
    assert_eq!(st.next_number, before.next_number);
    let s = store.snapshot();
    assert_eq!(s.get(0).map(|f| f.number), Some(2 * CHUNK as u32 + 1));
    assert_eq!(
        s.get(CHUNK + 8).map(|f| f.number),
        Some(3 * CHUNK as u32 + 9)
    );
}

use std::sync::Arc;

use netscope::capture::LinkType;
use netscope::dissect::{dissect, Frame, State};
use netscope::filter::compile;
use netscope::store::view::View;
use netscope::store::{Limits, Store};

fn store_with(count: u64) -> Store {
    let mut store = Store::new(Limits::default());
    let mut r = State::new();
    let batch: Vec<Arc<Frame>> = (0..count)
        .map(|i| {
            Arc::new(dissect(
                LinkType::ethernet(),
                i as u32 + 1,
                netscope::synthetic::raw_frame(i),
                &mut r,
            ))
        })
        .collect();
    store.append(batch);
    store
}

#[test]
fn unfiltered_view_is_the_whole_snapshot() {
    let store = store_with(10);
    let v = View::all(store.snapshot());
    assert_eq!(v.len(), 10);
    assert_eq!(v.total(), 10);
    assert!(!v.is_filtered());
    assert_eq!(v.get(3).map(|f| f.number), Some(4));
    assert_eq!(v.row_of(4), Some(3));
}

#[test]
fn filtered_view_selects_and_maps_rows() {
    let store = store_with(10);
    // Every synthetic frame is TCP; the source MAC's last byte is the
    // frame index, so this picks exactly one.
    let test = compile("eth.src[5] == 3").expect("compile");
    let v = View::filtered(store.snapshot(), &test);
    assert!(v.is_filtered());
    assert_eq!(v.len(), 1);
    assert_eq!(v.total(), 10);
    assert_eq!(v.get(0).map(|f| f.number), Some(4));
    assert_eq!(v.row_of(4), Some(0));
    assert_eq!(v.row_of(5), None, "a hidden frame has no displayed row");
    // The nearest displayed row at or after a hidden frame.
    assert_eq!(v.row_at_or_after(1), Some(0));
    assert_eq!(v.row_at_or_after(9), None);
}

#[test]
fn a_filter_matching_nothing_gives_an_empty_view() {
    let store = store_with(5);
    let test = compile("arp").expect("compile");
    let v = View::filtered(store.snapshot(), &test);
    assert!(v.is_empty());
    assert_eq!(v.total(), 5);
    assert!(v.get(0).is_none());
}

#[test]
fn filtering_does_not_redissect() {
    // Frames in the view are the very same `Arc`s the store holds.
    let store = store_with(4);
    let snap = store.snapshot();
    let test = compile("tcp").expect("compile");
    let v = View::filtered(snap.clone(), &test);
    assert_eq!(v.len(), 4);
    for row in 0..4 {
        let from_view = v.get(row).expect("row");
        let from_snapshot = snap.get(row).expect("row");
        assert!(Arc::ptr_eq(from_view, from_snapshot));
    }
}

#[test]
fn shown_rows_ascend_by_number() {
    let store = store_with(60);
    let test = compile("tcp.srcport > 0 && frame.number != 7").expect("compile");
    let v = View::filtered(store.snapshot(), &test);
    let numbers: Vec<u32> = v.iter().iter().map(|f| f.number).collect();
    assert!(!numbers.is_empty());
    assert!(!numbers.contains(&7));
    for pair in numbers.windows(2) {
        assert!(pair[0] < pair[1], "{pair:?}");
    }
    for (at, n) in numbers.iter().enumerate() {
        assert_eq!(v.row_of(*n), Some(at));
    }
    // A frame the filter hides gives way to the next one shown.
    assert_eq!(v.row_of(7), None);
    assert_eq!(v.row_at_or_after(7), v.row_of(8));
}

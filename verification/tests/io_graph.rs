use std::sync::Arc;

use netscope::capture::{LinkType, RawFrame, Timestamp};
use netscope::dissect::{dissect, State};
use netscope::store::io_graph::{
    compile, defaults, Compiled, Graph, Series, Unit, MAX_BUCKETS,
};
use netscope::store::{Limits, Snapshot, Store};

/// A graph with its interval in seconds.
fn build(
    snapshot: &Snapshot,
    series: &[Series],
    compiled: &[Compiled],
    seconds: f64,
    unit: Unit,
) -> Graph {
    let interval = (seconds * 1e9).round() as u64;
    netscope::store::io_graph::build(snapshot, series, compiled, interval, unit)
}

/// The rates of a line counted for bits per second.
fn rates(g: &Graph, line: usize) -> Vec<f64> {
    let seconds = g.interval as f64 / 1e9;
    g.lines[line]
        .points
        .iter()
        .map(|p| *p as f64 * 8.0 / seconds)
        .collect()
}

/// Frames at given second offsets from a fixed start.
fn store_at(offsets: &[f64]) -> Store {
    let mut store = Store::new(Limits::default());
    let mut state = State::new();
    let batch: Vec<Arc<netscope::dissect::Frame>> = offsets
        .iter()
        .enumerate()
        .map(|(i, off)| {
            let raw = netscope::synthetic::raw_frame(i as u64);
            let secs = off.floor() as i64;
            let nanos = ((off - off.floor()) * 1e9) as u32;
            let raw = RawFrame {
                ts: Timestamp {
                    secs: 1_700_000_000 + secs,
                    nanos,
                },
                ..raw
            };
            Arc::new(dissect(LinkType::ethernet(), i as u32 + 1, raw, &mut state))
        })
        .collect();
    store.append(batch);
    store
}

fn one_series(filter: &str) -> (Vec<Series>, Vec<Compiled>) {
    let s = vec![Series {
        name: "s".into(),
        filter: filter.into(),
        colour: [0, 0, 0],
        enabled: true,
    }];
    let c = s.iter().map(compile).collect();
    (s, c)
}

#[test]
fn frames_land_in_the_bucket_their_time_falls_in() {
    let store = store_at(&[0.0, 0.5, 1.2, 1.7, 5.0]);
    let (s, c) = one_series("");
    let g = build(&store.snapshot(), &s, &c, 1.0, Unit::Packets);
    assert_eq!(g.buckets, 6, "zero through five seconds inclusive");
    assert_eq!(g.lines[0].points[0], 2);
    assert_eq!(g.lines[0].points[1], 2);
    assert_eq!(g.lines[0].points[2], 0);
    assert_eq!(g.lines[0].points[5], 1);
}

#[test]
fn the_interval_changes_the_buckets_not_the_total() {
    let store = store_at(&[0.0, 0.5, 1.2, 1.7, 5.0]);
    let (s, c) = one_series("");
    let snap = store.snapshot();
    for interval in [0.5, 1.0, 2.0] {
        let g = build(&snap, &s, &c, interval, Unit::Packets);
        let total: u64 = g.lines[0].points.iter().sum();
        assert_eq!(total, 5, "interval {interval} lost frames");
    }
}

#[test]
fn a_filtered_series_counts_only_what_matches() {
    let store = store_at(&[0.0, 1.0, 2.0]);
    let snap = store.snapshot();
    let (s, c) = one_series("tcp");
    let all = build(&snap, &s, &c, 1.0, Unit::Packets);
    assert_eq!(all.lines[0].points.iter().sum::<u64>(), 3);
    let (s, c) = one_series("arp");
    let none = build(&snap, &s, &c, 1.0, Unit::Packets);
    assert_eq!(none.lines[0].points.iter().sum::<u64>(), 0);
}

#[test]
fn a_series_whose_filter_does_not_compile_contributes_nothing() {
    // And the error is available rather than the series silently
    // counting every frame, which would be worse than counting none.
    let store = store_at(&[0.0, 1.0]);
    let (s, c) = one_series("not a filter");
    assert!(c[0].error.is_some());
    let g = build(&store.snapshot(), &s, &c, 1.0, Unit::Packets);
    assert_eq!(g.lines[0].points.iter().sum::<u64>(), 0);
}

#[test]
fn bytes_and_bits_differ_by_the_interval() {
    let store = store_at(&[0.0, 0.1]);
    let snap = store.snapshot();
    let (s, c) = one_series("");
    let bytes = build(&snap, &s, &c, 1.0, Unit::Bytes);
    let bits = build(&snap, &s, &c, 1.0, Unit::Bits);
    assert_eq!(rates(&bits, 0)[0], bytes.lines[0].points[0] as f64 * 8.0);
    // Halving the interval doubles the rate for the same bytes.
    let bits_half = build(&snap, &s, &c, 0.5, Unit::Bits);
    assert_eq!(rates(&bits_half, 0)[0], rates(&bits, 0)[0] * 2.0);
}

#[test]
fn a_disabled_series_is_not_counted() {
    let store = store_at(&[0.0, 1.0]);
    let (mut s, c) = one_series("");
    s[0].enabled = false;
    let g = build(&store.snapshot(), &s, &c, 1.0, Unit::Packets);
    assert_eq!(g.lines[0].points.iter().sum::<u64>(), 0);
}

#[test]
fn an_empty_capture_gives_an_empty_graph() {
    let store = Store::new(Limits::default());
    let (s, c) = one_series("");
    let g = build(&store.snapshot(), &s, &c, 1.0, Unit::Packets);
    assert_eq!(g.buckets, 0);
    assert!(g.start.is_none());
    assert_eq!(g.max_y(), 0);
}

#[test]
fn a_tiny_interval_over_a_long_capture_is_bounded() {
    // A millisecond interval over an hour is 3.6 million points, which
    // no screen shows and no one reads. Building them all would hang the
    // UI thread for seconds.
    let store = store_at(&[0.0, 3600.0]);
    let (s, c) = one_series("");
    let g = build(&store.snapshot(), &s, &c, 0.001, Unit::Packets);
    assert_eq!(g.buckets, MAX_BUCKETS);
}

#[test]
fn an_interval_of_zero_does_not_divide_by_it() {
    let store = store_at(&[0.0, 1.0]);
    let (s, c) = one_series("");
    let g = build(&store.snapshot(), &s, &c, 0.0, Unit::Packets);
    assert!(g.interval > 0);
    assert!(g.buckets > 0);
}

#[test]
fn every_default_series_compiles() {
    for s in defaults() {
        let c = compile(&s);
        assert!(c.error.is_none(), "{}: {:?}", s.name, c.error);
    }
}

#[test]
fn a_frame_before_the_first_counts_in_the_first_bucket() {
    // Capture order is not always time order. The first frame sets where the
    // graph starts, and one that claims to be older must not vanish.
    let store = store_at(&[10.0, 5.0, 20.0]);
    let (s, c) = one_series("");
    let g = build(&store.snapshot(), &s, &c, 1.0, Unit::Packets);
    assert_eq!(g.buckets, 11);
    assert_eq!(g.lines[0].points[0], 2);
    assert_eq!(g.lines[0].points[10], 1);
    assert_eq!(g.lines[0].points.iter().sum::<u64>(), 3);
}

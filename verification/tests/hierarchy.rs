use std::sync::Arc;

use netscope::capture::LinkType;
use netscope::dissect::{dissect, State};
use netscope::store::hierarchy::{hierarchy, totals, Totals};
use netscope::store::{Limits, Store};

fn store_of(count: u64) -> Store {
    let mut store = Store::new(Limits::default());
    let mut state = State::new();
    let batch: Vec<Arc<netscope::dissect::Frame>> = (0..count)
        .map(|i| {
            Arc::new(dissect(
                LinkType::ethernet(),
                i as u32 + 1,
                netscope::synthetic::raw_frame(i),
                &mut state,
            ))
        })
        .collect();
    store.append(batch);
    store
}

#[test]
fn the_root_accounts_for_every_frame() {
    // If `eth` is not 100% of an Ethernet capture, the tree is counting
    // the remainder after its children rather than the frames through it.
    let store = store_of(20);
    let snap = store.snapshot();
    let rows = hierarchy(&snap);
    let t = totals(&snap);
    assert_eq!(t.packets, 20);
    let eth = rows.iter().find(|r| r.name == "eth").expect("eth");
    assert_eq!(eth.packets, 20);
    assert_eq!(eth.bytes, t.bytes);
    assert_eq!(eth.depth, 0);
}

#[test]
fn a_frame_counts_at_every_layer_of_its_chain() {
    let store = store_of(10);
    let snap = store.snapshot();
    let rows = hierarchy(&snap);
    for name in ["eth", "ip", "tcp"] {
        let row = rows.iter().find(|r| r.name == name).expect(name);
        assert_eq!(row.packets, 10, "{name}");
    }
}

#[test]
fn end_counts_say_where_dissection_stopped() {
    // The generated frames are eth:ip:tcp:data, so tcp is never the end
    // and data always is. That distinction is the point of the column.
    let store = store_of(10);
    let snap = store.snapshot();
    let rows = hierarchy(&snap);
    let tcp = rows.iter().find(|r| r.name == "tcp").expect("tcp");
    let data = rows.iter().find(|r| r.name == "data");
    assert_eq!(tcp.packets, 10);
    assert_eq!(
        tcp.end_packets + data.map_or(0, |d| d.end_packets),
        10,
        "every frame ends somewhere below tcp"
    );
}

#[test]
fn rows_are_depth_first_so_indenting_reads_as_a_tree() {
    let store = store_of(5);
    let snap = store.snapshot();
    let rows = hierarchy(&snap);
    assert!(!rows.is_empty());
    assert_eq!(rows[0].depth, 0);
    // A child never precedes its parent, and depth grows by at most one.
    for pair in rows.windows(2) {
        assert!(
            pair[1].depth <= pair[0].depth + 1,
            "{:?} then {:?}",
            pair[0].name,
            pair[1].name
        );
    }
}

#[test]
fn the_filter_names_the_whole_chain() {
    // `http` alone would also match HTTP reached another way, which is
    // not the set of frames the row counted.
    let store = store_of(5);
    let snap = store.snapshot();
    let rows = hierarchy(&snap);
    let deep = rows.iter().max_by_key(|r| r.depth).expect("some row");
    assert!(deep.depth > 0);
    let f = deep.filter();
    assert!(f.contains(" && "), "{f}");
    assert!(f.starts_with("eth"), "{f}");
    assert!(netscope::filter::compile(&f).is_ok(), "{f}");
}

#[test]
fn an_empty_capture_has_an_empty_hierarchy() {
    let store = Store::new(Limits::default());
    let snap = store.snapshot();
    assert!(hierarchy(&snap).is_empty());
    assert_eq!(totals(&snap), Totals::default());
}

#[test]
fn bytes_end_in_a_row_or_go_on_below_it() {
    let store = store_of(30);
    let snap = store.snapshot();
    let rows = hierarchy(&snap);
    let t = totals(&snap);
    let top: u64 = rows.iter().filter(|r| r.depth == 0).map(|r| r.bytes).sum();
    assert_eq!(top, t.bytes);
    for row in &rows {
        let below: Vec<_> = rows
            .iter()
            .filter(|r| r.depth == row.depth + 1 && r.chain.starts_with(&row.chain))
            .collect();
        let packets: u64 = below.iter().map(|r| r.packets).sum();
        let bytes: u64 = below.iter().map(|r| r.bytes).sum();
        assert_eq!(row.packets, row.end_packets + packets, "{}", row.name);
        assert_eq!(row.bytes, row.end_bytes + bytes, "{}", row.name);
    }
}

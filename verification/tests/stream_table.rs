use netscope::capture::Timestamp;
use netscope::dissect::stream::{Direction, Endpoint, StreamTable};

fn ts(secs: i64) -> Timestamp {
    Timestamp { secs, nanos: 0 }
}

fn a(port: u16) -> Endpoint {
    Endpoint::v4([10, 0, 0, 1], port)
}

fn b(port: u16) -> Endpoint {
    Endpoint::v4([10, 0, 0, 2], port)
}

#[test]
fn both_directions_are_one_stream() {
    let mut t = StreamTable::new();
    let out = t.lookup(a(1000), b(80), 6, ts(0), false);
    let back = t.lookup(b(80), a(1000), 6, ts(1), false);
    assert_eq!(out.id, back.id);
    assert!(out.first, "the first frame creates the stream");
    assert!(!back.first);
    assert_eq!(out.direction, Direction::Forward);
    assert_eq!(back.direction, Direction::Reverse);
    assert_eq!(t.len(), 1);
}

#[test]
fn different_tuples_are_different_streams() {
    let mut t = StreamTable::new();
    assert_eq!(t.lookup(a(1000), b(80), 6, ts(0), false).id, 0);
    assert_eq!(t.lookup(a(1001), b(80), 6, ts(0), false).id, 1);
    assert_eq!(t.lookup(a(1000), b(443), 6, ts(0), false).id, 2);
    // Same endpoints, different protocol.
    assert_eq!(t.lookup(a(1000), b(80), 17, ts(0), false).id, 3);
    assert_eq!(t.len(), 4);
}

#[test]
fn a_syn_on_a_reused_tuple_starts_a_new_stream() {
    // Ports are reused. Two connections between the same pair are two
    // conversations, and Follow Stream must not splice them together.
    let mut t = StreamTable::new();
    let first = t.lookup(a(1000), b(80), 6, ts(0), true);
    let same = t.lookup(a(1000), b(80), 6, ts(1), false);
    assert_eq!(first.id, same.id);
    let second = t.lookup(a(1000), b(80), 6, ts(60), true);
    assert_ne!(second.id, first.id, "a new SYN is a new connection");
    assert!(second.first);
    // And traffic after it belongs to the new one.
    assert_eq!(t.lookup(b(80), a(1000), 6, ts(61), false).id, second.id);
}

#[test]
fn direction_follows_whoever_spoke_first() {
    let mut t = StreamTable::new();
    // Server speaks first (a capture joined mid-stream).
    let s = t.lookup(b(80), a(1000), 6, ts(0), false);
    assert_eq!(s.direction, Direction::Forward);
    let c = t.lookup(a(1000), b(80), 6, ts(1), false);
    assert_eq!(c.direction, Direction::Reverse);
}

#[test]
fn ipv4_and_ipv6_endpoints_do_not_collide() {
    let mut t = StreamTable::new();
    let v4 = Endpoint::v4([0, 0, 0, 1], 1);
    let mut sixteen = [0u8; 16];
    sixteen[3] = 1;
    let v6 = Endpoint::v6(sixteen, 1);
    assert_ne!(v4, v6, "the family must be part of the identity");
    let x = t.lookup(v4, b(80), 6, ts(0), false);
    let y = t.lookup(v6, b(80), 6, ts(0), false);
    assert_ne!(x.id, y.id);
}

#[test]
fn the_table_is_bounded() {
    let mut t = StreamTable::new();
    t.max_streams = 64;
    t.idle_timeout_secs = 10;
    for i in 0..1000u16 {
        t.lookup(a(i), b(80), 6, ts(i64::from(i)), false);
    }
    assert!(
        t.len() <= t.max_streams,
        "held {} with a cap of {}",
        t.len(),
        t.max_streams
    );
    // Ids keep climbing even as entries are dropped, so an id is never
    // silently reused for a different conversation.
    assert_eq!(t.next_id(), 1000);
}

#[test]
fn directions_hold_on_an_old_stream() {
    let mut t = StreamTable::new();
    let id = t.lookup(a(1000), b(80), 6, ts(0), true).id;
    // Others come and go meanwhile.
    for port in 2000..2050 {
        t.lookup(a(port), b(80), 6, ts(1), true);
    }
    for n in 0..5 {
        let out = t.lookup(a(1000), b(80), 6, ts(2 + n), false);
        let back = t.lookup(b(80), a(1000), 6, ts(2 + n), false);
        assert_eq!((out.id, out.direction), (id, Direction::Forward));
        assert_eq!((back.id, back.direction), (id, Direction::Reverse));
    }
    assert_eq!(t.len(), 51);
}

use netscope::capture::Timestamp;
use netscope::dissect::stream::desegment::{
    Desegment, Origin, Prefix, MAX_PENDING_DIRECTIONS, MAX_PENDING_PER_DIRECTION,
};
use netscope::dissect::stream::Direction;
use netscope::dissect::Proto;

fn ts(secs: i64) -> Timestamp {
    Timestamp { secs, nanos: 0 }
}

/// A message starting in `frame`, nothing held yet.
fn start(proto: Proto, frame: u32) -> Origin {
    Origin {
        proto,
        first_frame: frame,
        frames: 1,
    }
}

const FWD: Direction = Direction::Forward;
const REV: Direction = Direction::Reverse;

#[test]
fn nothing_pending_means_dissect_in_place() {
    let mut d = Desegment::new();
    assert_eq!(d.take(0, FWD, b"abc", ts(0)), Prefix::Nothing);
}

#[test]
fn held_bytes_come_back_in_front_of_the_next_payload() {
    let mut d = Desegment::new();
    assert!(d.keep(0, FWD, b"GET /", start(Proto::Http, 1), ts(0)));
    match d.take(0, FWD, b" HTTP/1.1", ts(1)) {
        Prefix::Combined { bytes, origin } => {
            assert_eq!(bytes, b"GET / HTTP/1.1");
            assert_eq!(origin.proto, Proto::Http);
            assert_eq!(origin.first_frame, 1);
            assert_eq!(origin.frames, 2, "the frame being dissected counts too");
        }
        other => panic!("{other:?}"),
    }
    // Taking consumes: a second call finds nothing.
    assert_eq!(d.take(0, FWD, b"x", ts(2)), Prefix::Nothing);
}

#[test]
fn the_two_directions_are_independent() {
    let mut d = Desegment::new();
    d.keep(0, FWD, b"out", start(Proto::Http, 1), ts(0));
    d.keep(0, REV, b"back", start(Proto::Http, 2), ts(0));
    let Prefix::Combined { bytes, .. } = d.take(0, REV, b"!", ts(1)) else {
        panic!("reverse should have bytes");
    };
    assert_eq!(bytes, b"back!");
    let Prefix::Combined { bytes, .. } = d.take(0, FWD, b"!", ts(1)) else {
        panic!("forward should have bytes");
    };
    assert_eq!(bytes, b"out!");
}

#[test]
fn streams_do_not_share_a_buffer() {
    let mut d = Desegment::new();
    d.keep(0, FWD, b"zero", start(Proto::Http, 1), ts(0));
    d.keep(1, FWD, b"one", start(Proto::Tls, 2), ts(0));
    let Prefix::Combined { bytes, origin } = d.take(1, FWD, b"!", ts(1)) else {
        panic!("stream 1 should have bytes");
    };
    assert_eq!(bytes, b"one!");
    assert_eq!(origin.proto, Proto::Tls);
    let Prefix::Combined { bytes, origin } = d.take(0, FWD, b"!", ts(1)) else {
        panic!("stream 0 should have bytes");
    };
    assert_eq!(bytes, b"zero!");
    assert_eq!(origin.proto, Proto::Http);
}

#[test]
fn an_oversized_buffer_is_refused_rather_than_held() {
    // A length field saying "I need 4 GB more" must not be able to make
    // netscope hold it.
    let mut d = Desegment::new();
    let huge = vec![0u8; MAX_PENDING_PER_DIRECTION + 1];
    assert!(!d.keep(0, FWD, &huge, start(Proto::Tls, 1), ts(0)));
    assert!(d.is_empty());
    // And the caller is told, so it can dissect what it has.
    assert_eq!(d.take(0, FWD, b"x", ts(1)), Prefix::Nothing);
}

#[test]
fn empty_bytes_are_not_held() {
    let mut d = Desegment::new();
    assert!(!d.keep(0, FWD, b"", start(Proto::Http, 1), ts(0)));
    assert!(d.is_empty());
}

#[test]
fn a_stale_buffer_is_abandoned() {
    let mut d = Desegment::new();
    d.keep(0, FWD, b"half a message", start(Proto::Http, 1), ts(0));
    // Two minutes later the rest arrives. Splicing it on would produce a
    // message that never existed.
    assert_eq!(d.take(0, FWD, b"rest", ts(120)), Prefix::Nothing);
}

#[test]
fn the_number_of_held_directions_is_bounded() {
    let mut d = Desegment::new();
    for i in 0..(MAX_PENDING_DIRECTIONS as u32 * 2) {
        d.keep(i, FWD, b"x", start(Proto::Http, 1), ts(i64::from(i)));
    }
    assert!(
        d.len() <= MAX_PENDING_DIRECTIONS,
        "held {} with a cap of {MAX_PENDING_DIRECTIONS}",
        d.len()
    );
}

#[test]
fn forgetting_drops_the_buffer() {
    let mut d = Desegment::new();
    d.keep(0, FWD, b"half", start(Proto::Http, 1), ts(0));
    d.forget(0, FWD);
    assert_eq!(d.take(0, FWD, b"rest", ts(1)), Prefix::Nothing);
}

#[test]
fn continuing_a_buffer_keeps_the_first_frame() {
    let mut d = Desegment::new();
    d.keep(0, FWD, b"a", start(Proto::Http, 10), ts(0));
    let Prefix::Combined { origin, .. } = d.take(0, FWD, b"b", ts(1)) else {
        panic!("expected pending bytes");
    };
    assert_eq!((origin.first_frame, origin.frames), (10, 2));
    // Still incomplete: hold again, carrying the origin forward.
    d.keep(0, FWD, b"ab", origin, ts(1));
    let Prefix::Combined { origin, .. } = d.take(0, FWD, b"c", ts(2)) else {
        panic!("expected pending bytes");
    };
    assert_eq!(
        (origin.first_frame, origin.frames),
        (10, 3),
        "the message still starts in frame 10"
    );
}

#[test]
fn taken_bytes_are_gone_and_others_stay() {
    let mut d = Desegment::new();
    assert!(d.keep(0, FWD, b"a", start(Proto::Http, 1), ts(0)));
    assert!(d.keep(0, FWD, b"ab", start(Proto::Http, 1), ts(0)));
    assert!(d.keep(1, FWD, b"c", start(Proto::Tls, 2), ts(0)));
    assert_eq!(d.len(), 2, "a direction is held once");
    assert!(matches!(d.take(0, FWD, b"", ts(1)), Prefix::Combined { .. }));
    assert_eq!(d.take(0, FWD, b"", ts(1)), Prefix::Nothing);
    assert_eq!(d.len(), 1);
    assert!(matches!(d.take(1, FWD, b"", ts(1)), Prefix::Combined { .. }));
    assert!(d.is_empty());
}

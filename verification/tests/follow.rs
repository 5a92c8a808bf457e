use netscope::dissect::stream::Direction;
use netscope::store::follow::{assemble, render, Piece, View};

fn piece(frame: u32, seq: u32, bytes: &[u8]) -> Piece {
    Piece {
        direction: Direction::Forward,
        frame,
        seq,
        bytes: bytes.to_vec(),
    }
}

fn assembled(pieces: Vec<Piece>) -> (Vec<u8>, u64) {
    let mut missing = 0;
    let chunks = assemble(pieces, &mut missing);
    let mut bytes = Vec::new();
    for c in &chunks {
        bytes.extend_from_slice(&c.bytes);
    }
    (bytes, missing)
}

#[test]
fn segments_in_order_join_end_to_end() {
    let (bytes, missing) = assembled(vec![piece(1, 100, b"hello "), piece(2, 106, b"world")]);
    assert_eq!(bytes, b"hello world");
    assert_eq!(missing, 0);
}

#[test]
fn segments_out_of_order_are_put_back_in_order() {
    let (bytes, missing) = assembled(vec![piece(2, 106, b"world"), piece(1, 100, b"hello ")]);
    assert_eq!(bytes, b"hello world");
    assert_eq!(missing, 0);
}

#[test]
fn a_retransmission_contributes_nothing() {
    // The application received these bytes once. A transcript showing
    // them twice would be a lie about the conversation.
    let (bytes, missing) = assembled(vec![
        piece(1, 100, b"hello "),
        piece(2, 100, b"hello "),
        piece(3, 106, b"world"),
    ]);
    assert_eq!(bytes, b"hello world");
    assert_eq!(missing, 0);
}

#[test]
fn an_overlap_keeps_the_bytes_seen_first() {
    // The second segment repeats three bytes and adds two. Only the new
    // ones are taken, and taking the whole thing would duplicate "llo".
    let (bytes, missing) = assembled(vec![piece(1, 100, b"hello"), piece(2, 102, b"llo!!")]);
    assert_eq!(bytes, b"hello!!");
    assert_eq!(missing, 0);
}

#[test]
fn a_hole_nothing_fills_is_reported() {
    // Bytes 106..112 were never captured. Joining "hello " to "world"
    // would produce a stream the sender never sent.
    let mut missing = 0;
    let chunks = assemble(
        vec![piece(1, 100, b"hello "), piece(2, 112, b"world")],
        &mut missing,
    );
    assert_eq!(missing, 6);
    assert_eq!(chunks.len(), 2);
    assert_eq!(chunks[0].gap_before, 0);
    assert_eq!(
        chunks[1].gap_before, 6,
        "the gap is attributed to the run after it"
    );
}

#[test]
fn a_stream_that_wraps_past_the_sequence_limit_still_orders() {
    let base = u32::MAX - 3;
    let (bytes, missing) = assembled(vec![
        piece(2, base.wrapping_add(4), b"after"),
        piece(1, base, b"befo"),
    ]);
    assert_eq!(bytes, b"befoafter");
    assert_eq!(missing, 0);
}

#[test]
fn the_two_directions_are_assembled_independently() {
    // Overlapping sequence numbers in opposite directions are unrelated;
    // treating them as one stream would drop half the conversation.
    let mut missing = 0;
    let chunks = assemble(
        vec![
            piece(1, 100, b"request"),
            Piece {
                direction: Direction::Reverse,
                frame: 2,
                seq: 100,
                bytes: b"response".to_vec(),
            },
        ],
        &mut missing,
    );
    assert_eq!(missing, 0);
    assert_eq!(chunks.len(), 2);
    assert_eq!(chunks[0].bytes, b"request");
    assert_eq!(chunks[1].bytes, b"response");
}

#[test]
fn ascii_keeps_text_and_dots_the_rest() {
    assert_eq!(render(b"GET /\r\n\x00\xff", View::Ascii), "GET /\r\n..");
}

#[test]
fn utf8_replaces_invalid_sequences_rather_than_failing() {
    assert_eq!(render(&[0xe2, 0x9c, 0x93], View::Utf8), "\u{2713}");
    assert!(!render(&[0xff, 0xfe], View::Utf8).is_empty());
}

#[test]
fn hex_lines_up_in_sixteens() {
    let out = render(b"abc", View::Hex);
    assert!(out.starts_with("00000000  61 62 63 "), "{out:?}");
    assert!(out.trim_end().ends_with("abc"), "{out:?}");
    // Two rows for seventeen bytes.
    let long = render(&[0x41; 17], View::Hex);
    assert_eq!(long.lines().count(), 2);
    assert!(long
        .lines()
        .nth(1)
        .is_some_and(|l| l.starts_with("00000010")));
}

#[test]
fn capture_order_does_not_reorder_a_direction() {
    // The later bytes were captured first, so sorting runs by frame number
    // would read "worldhello ".
    let (bytes, missing) = assembled(vec![piece(1, 106, b"world"), piece(2, 100, b"hello ")]);
    assert_eq!(bytes, b"hello world");
    assert_eq!(missing, 0);
}

#[test]
fn replies_stand_between_the_runs_they_came_between() {
    let reply = |frame: u32, seq: u32, bytes: &[u8]| Piece {
        direction: Direction::Reverse,
        ..piece(frame, seq, bytes)
    };
    let mut missing = 0;
    let chunks = assemble(
        vec![
            piece(1, 100, b"one"),
            reply(2, 900, b"two"),
            piece(3, 103, b"three"),
            reply(4, 903, b"four"),
        ],
        &mut missing,
    );
    let said: Vec<(Direction, &[u8])> = chunks
        .iter()
        .map(|c| (c.direction, c.bytes.as_slice()))
        .collect();
    assert_eq!(
        said,
        [
            (Direction::Forward, b"one".as_slice()),
            (Direction::Reverse, b"two".as_slice()),
            (Direction::Forward, b"three".as_slice()),
            (Direction::Reverse, b"four".as_slice()),
        ]
    );
    assert_eq!(missing, 0);
}

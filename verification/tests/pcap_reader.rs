use netscope::capture::Timestamp;
use netscope::pcap::writer::Writer;
use netscope::pcap::{read, Precision, ReadError, MAGIC_MICROS, MAGIC_MODIFIED};

/// A minimal file with `n` one-byte packets.
fn sample(precision: Precision, n: u32) -> Vec<u8> {
    let mut w = Writer::new(Vec::new(), 1, 65535, precision);
    for i in 0..n {
        w.packet(
            Timestamp {
                secs: 1_700_000_000 + i64::from(i),
                nanos: 123_456_789,
            },
            1,
            &[0xab],
        );
    }
    w.finish()
}

#[test]
fn a_written_file_reads_back() {
    let bytes = sample(Precision::Micro, 3);
    let f = read(&bytes).expect("read");
    assert_eq!(f.frames.len(), 3);
    assert_eq!(f.header.link_type, 1);
    assert_eq!(f.header.snaplen, 65535);
    assert_eq!(f.frames[0].bytes, [0xab]);
    assert_eq!(f.truncated_at, None);
}

#[test]
fn microsecond_files_lose_the_last_three_digits() {
    // 123_456_789 ns is 123_456 us. The rounding is the format's, and
    // reading it back must not invent precision that is not there.
    let bytes = sample(Precision::Micro, 1);
    let f = read(&bytes).expect("read");
    assert_eq!(f.frames[0].ts.nanos, 123_456_000);
    assert_eq!(f.header.ts_per_sec, 1_000_000);
}

#[test]
fn nanosecond_files_keep_every_digit() {
    let bytes = sample(Precision::Nano, 1);
    let f = read(&bytes).expect("read");
    assert_eq!(f.frames[0].ts.nanos, 123_456_789);
    assert_eq!(f.header.ts_per_sec, 1_000_000_000);
}

#[test]
fn both_byte_orders_read() {
    // Byte-swap the magic and every subsequent field of a small file.
    let le = sample(Precision::Micro, 2);
    let mut be = Vec::with_capacity(le.len());
    let swap32 = |v: &[u8]| [v[3], v[2], v[1], v[0]];
    be.extend_from_slice(&swap32(&le[0..4]));
    be.extend_from_slice(&[le[5], le[4], le[7], le[6]]); // two u16 versions
    for off in (8..24).step_by(4) {
        be.extend_from_slice(&swap32(&le[off..off + 4]));
    }
    let mut at = 24;
    while at + 16 <= le.len() {
        for off in (at..at + 16).step_by(4) {
            be.extend_from_slice(&swap32(&le[off..off + 4]));
        }
        let caplen =
            u32::from_le_bytes([le[at + 8], le[at + 9], le[at + 10], le[at + 11]]) as usize;
        be.extend_from_slice(&le[at + 16..at + 16 + caplen]);
        at += 16 + caplen;
    }
    let f = read(&be).expect("big-endian read");
    assert!(!f.header.little_endian);
    assert_eq!(f.frames.len(), 2);
    assert_eq!(f.frames[0].bytes, [0xab]);
}

#[test]
fn a_file_cut_mid_capture_yields_what_it_has() {
    // A writer killed part-way through is ordinary. Losing the packets
    // before the damage because of it would not be.
    let bytes = sample(Precision::Micro, 4);
    for cut in [30usize, 40, bytes.len() - 1] {
        let f = read(&bytes[..cut]).expect("partial read");
        assert!(f.truncated_at.is_some(), "cut at {cut} should be reported");
        assert!(f.frames.len() < 4);
    }
}

#[test]
fn an_absurd_capture_length_is_refused_not_allocated() {
    let mut bytes = sample(Precision::Micro, 1);
    // Overwrite the first record's caplen with 4 GB.
    bytes[24 + 8..24 + 12].copy_from_slice(&u32::MAX.to_le_bytes());
    match read(&bytes) {
        Err(ReadError::BadRecord { what, .. }) => {
            assert!(what.contains("implausibly large"), "{what}");
        }
        other => panic!("{other:?}"),
    }
}

#[test]
fn a_capture_longer_than_the_wire_length_is_refused() {
    // caplen > orig_len means the file is describing bytes it says are
    // not part of the packet.
    let mut bytes = sample(Precision::Micro, 1);
    bytes[24 + 8..24 + 12].copy_from_slice(&100u32.to_le_bytes());
    bytes[24 + 12..24 + 16].copy_from_slice(&1u32.to_le_bytes());
    assert!(matches!(read(&bytes), Err(ReadError::BadRecord { .. })));
}

#[test]
fn the_modified_format_is_refused_by_name() {
    let mut bytes = sample(Precision::Micro, 1);
    bytes[0..4].copy_from_slice(&MAGIC_MODIFIED.to_le_bytes());
    let e = read(&bytes).expect_err("should be refused");
    assert_eq!(e, ReadError::Modified);
    assert!(e.text().contains("editcap"), "and say what to do");
}

#[test]
fn a_pcapng_file_is_not_read_as_pcap() {
    let shb = netscope::pcapng::BLOCK_SHB.to_be_bytes();
    let mut bytes = shb.to_vec();
    bytes.extend_from_slice(&[0; 40]);
    assert_eq!(read(&bytes).unwrap_err(), ReadError::NotPcap);
}

#[test]
fn an_empty_or_tiny_file_does_not_panic() {
    assert!(read(b"").is_err());
    assert!(read(b"\xd4\xc3\xb2\xa1").is_err());
    let mut short = MAGIC_MICROS.to_le_bytes().to_vec();
    short.extend_from_slice(&[0; 10]);
    assert!(matches!(read(&short), Err(ReadError::Truncated { .. })));
}

#[test]
fn a_fractional_field_beyond_one_second_is_clamped() {
    let mut bytes = sample(Precision::Micro, 1);
    bytes[24 + 4..24 + 8].copy_from_slice(&u32::MAX.to_le_bytes());
    let f = read(&bytes).expect("read");
    assert!(f.frames[0].ts.nanos <= 999_999_999);
}

#[test]
fn a_cut_file_keeps_exactly_the_packets_before_the_cut() {
    // Twenty-four bytes of header, then seventeen for each packet.
    let bytes = sample(Precision::Nano, 4);
    let whole = read(&bytes).expect("read");
    assert_eq!(bytes.len(), 24 + 4 * 17);
    for cut in 24..bytes.len() {
        let f = read(&bytes[..cut]).expect("partial read");
        let kept = (cut - 24) / 17;
        let end = 24 + kept * 17;
        assert_eq!(f.frames.len(), kept, "cut at {cut}");
        for (got, want) in f.frames.iter().zip(&whole.frames) {
            assert_eq!(got.ts, want.ts);
            assert_eq!(got.bytes, want.bytes);
        }
        let expected = if cut == end { None } else { Some(end) };
        assert_eq!(f.truncated_at, expected, "cut at {cut}");
    }
}

#[test]
fn every_refusal_says_why() {
    assert_eq!(
        read(b"not a capture file, nor close to one").unwrap_err(),
        ReadError::NotPcap
    );
    assert_eq!(ReadError::NotPcap.text(), "not a pcap file");
    assert_eq!(
        ReadError::Truncated { at: 12 }.text(),
        "file truncated at byte 12"
    );
    assert_eq!(
        ReadError::BadRecord {
            at: 24,
            what: "too long"
        }
        .text(),
        "bad record at byte 24: too long"
    );
}

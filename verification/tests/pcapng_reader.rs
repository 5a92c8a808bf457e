use netscope::capture::Timestamp;
use netscope::pcapng::{read, Interface, ReadError, Writer};

#[test]
fn round_trips_nanosecond_timestamps() {
    let mut w = Writer::new(Vec::new(), "test");
    let id = w.interface(1, 65535, "eth0");
    let ts = Timestamp {
        secs: 1_700_000_000,
        nanos: 123_456_789,
    };
    w.packet(id, ts, 100, &[1, 2, 3, 4, 5]);
    let bytes = w.finish();
    let s = read(&bytes).unwrap();
    assert_eq!(s.interfaces.len(), 1);
    assert_eq!(s.interfaces[0].link_type, 1);
    assert_eq!(s.interfaces[0].name.as_deref(), Some("eth0"));
    assert_eq!(s.interfaces[0].ts_per_sec, 1_000_000_000);
    assert_eq!(s.packets.len(), 1);
    assert_eq!(s.packets[0].frame.ts, ts);
    assert_eq!(s.packets[0].frame.orig_len, 100);
    assert_eq!(s.packets[0].frame.bytes, [1, 2, 3, 4, 5]);
    assert_eq!(s.user_appl.as_deref(), Some("test"));
}

#[test]
fn rejects_garbage_and_truncation() {
    assert!(matches!(read(b"hello world!"), Err(ReadError::NotPcapng)));
    let mut w = Writer::new(Vec::new(), "t");
    w.interface(1, 0, "");
    w.packet(0, Timestamp::default(), 4, &[0; 4]);
    let bytes = w.finish();
    for cut in 1..bytes.len() {
        // Must never panic; may succeed with fewer packets or error.
        let _ = read(&bytes[..cut]);
    }
}

#[test]
fn tsresol_decoding() {
    assert_eq!(Interface::ts_per_sec_from_tsresol(6), 1_000_000);
    assert_eq!(Interface::ts_per_sec_from_tsresol(9), 1_000_000_000);
    assert_eq!(Interface::ts_per_sec_from_tsresol(0x80 | 10), 1024);
}

/// Where each block of a little-endian file starts, and the file's end.
fn boundaries(bytes: &[u8]) -> Vec<usize> {
    let mut at = 0;
    let mut out = vec![0];
    while at < bytes.len() {
        let len = [bytes[at + 4], bytes[at + 5], bytes[at + 6], bytes[at + 7]];
        at += u32::from_le_bytes(len) as usize;
        out.push(at);
    }
    out
}

#[test]
fn an_unknown_block_changes_nothing() {
    let mut w = Writer::new(Vec::new(), "test");
    let id = w.interface(1, 65535, "eth0");
    w.packet(id, Timestamp { secs: 5, nanos: 7 }, 3, &[1, 2, 3]);
    w.packet(id, Timestamp { secs: 6, nanos: 8 }, 4, &[4, 5, 6, 7]);
    let bytes = w.finish();
    let plain = format!("{:?}", read(&bytes).unwrap());
    let mut block = 0x0bad_cafe_u32.to_le_bytes().to_vec();
    block.extend_from_slice(&16u32.to_le_bytes());
    block.extend_from_slice(&[9; 4]);
    block.extend_from_slice(&16u32.to_le_bytes());
    let cuts = boundaries(&bytes);
    assert_eq!(cuts.len(), 5);
    for at in &cuts[1..] {
        let mut with = bytes[..*at].to_vec();
        with.extend_from_slice(&block);
        with.extend_from_slice(&bytes[*at..]);
        assert_eq!(format!("{:?}", read(&with).unwrap()), plain, "at {at}");
    }
}

#[test]
fn every_refusal_has_its_words() {
    assert_eq!(ReadError::NotPcapng.text(), "not a pcapng file");
    assert_eq!(
        ReadError::Truncated { at: 8 }.text(),
        "file truncated at byte 8"
    );
    assert_eq!(
        ReadError::BadBlock { at: 28, what: "no" }.text(),
        "bad block at byte 28: no"
    );
}

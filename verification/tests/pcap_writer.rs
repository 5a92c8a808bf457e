use netscope::capture::Timestamp;
use netscope::pcap::writer::{precision_for, Writer};
use netscope::pcap::{read, Precision};

fn ts(secs: i64, nanos: u32) -> Timestamp {
    Timestamp { secs, nanos }
}

#[test]
fn precision_is_chosen_by_what_the_data_needs() {
    // Every timestamp a whole number of microseconds: nothing is lost by
    // writing microseconds, and the file stays readable by old tools.
    let micros = [ts(1, 0), ts(2, 1000), ts(3, 999_999_000)];
    assert_eq!(precision_for(&micros), Precision::Micro);
    // One value with sub-microsecond detail forces nanoseconds, because
    // the alternative is discarding it without saying so.
    let nanos = [ts(1, 0), ts(2, 1001)];
    assert_eq!(precision_for(&nanos), Precision::Nano);
    assert_eq!(precision_for(&[]), Precision::Micro);
}

#[test]
fn a_snapped_packet_records_its_wire_length() {
    let mut w = Writer::new(Vec::new(), 1, 10, Precision::Micro);
    w.packet(ts(1, 0), 1500, &[0xcd; 40]);
    let f = read(&w.finish()).expect("read");
    assert_eq!(f.frames[0].caplen, 10, "snaplen bounds what is stored");
    assert_eq!(f.frames[0].orig_len, 1500, "the wire length is kept");
    assert_eq!(f.frames[0].bytes.len(), 10);
}

#[test]
fn sub_microsecond_detail_truncates_rather_than_rounding_up() {
    // Rounding 999_999_999 ns up would give 1_000_000 us, which is a
    // whole second in a field that cannot hold one.
    let mut w = Writer::new(Vec::new(), 1, 65535, Precision::Micro);
    w.packet(ts(5, 999_999_999), 1, &[0]);
    let f = read(&w.finish()).expect("read");
    assert_eq!(f.frames[0].ts.secs, 5);
    assert_eq!(f.frames[0].ts.nanos, 999_999_000);
}

#[test]
fn a_negative_timestamp_does_not_become_an_enormous_one() {
    // The format's seconds field is unsigned; a negative value cast
    // straight to u32 would read back as 2106.
    let mut w = Writer::new(Vec::new(), 1, 65535, Precision::Micro);
    w.packet(ts(-1, 0), 1, &[0]);
    let f = read(&w.finish()).expect("read");
    assert_eq!(f.frames[0].ts.secs, 0);
}

#[test]
fn an_orig_len_smaller_than_the_bytes_is_corrected() {
    // A frame claiming to be 1 byte on the wire while carrying 40 would
    // be refused by the reader as caplen > orig_len, so the writer must
    // not produce one.
    let mut w = Writer::new(Vec::new(), 1, 65535, Precision::Micro);
    w.packet(ts(1, 0), 1, &[0xcd; 40]);
    let f = read(&w.finish()).expect("read");
    assert_eq!(f.frames[0].orig_len, 40);
}

#[test]
fn an_empty_file_is_still_a_valid_file() {
    let w = Writer::new(Vec::new(), 1, 65535, Precision::Nano);
    let bytes = w.finish();
    assert_eq!(bytes.len(), 24);
    let f = read(&bytes).expect("read");
    assert!(f.frames.is_empty());
    assert_eq!(f.header.ts_per_sec, 1_000_000_000);
}

use netscope::dissect::proto::tls::looks_like_tls;

#[test]
fn heuristic_accepts_record_headers_only() {
    assert!(looks_like_tls(&[0x16, 0x03, 0x01, 0x00, 0x10]));
    assert!(looks_like_tls(&[0x17, 0x03, 0x03, 0x00, 0x10]));
    assert!(!looks_like_tls(&[0x16, 0x02, 0x01]));
    assert!(!looks_like_tls(b"GET / HTTP/1.1"));
    assert!(!looks_like_tls(&[]));
}

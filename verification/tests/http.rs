use netscope::dissect::proto::http::message_end;

#[test]
fn a_request_ends_at_the_blank_line() {
    let req = b"GET / HTTP/1.1\r\nHost: x\r\n\r\n";
    assert_eq!(message_end(req), Some(req.len()));
}

#[test]
fn incomplete_headers_need_more() {
    assert_eq!(message_end(b"GET / HTTP/1.1\r\nHost: x\r\n"), None);
    assert_eq!(message_end(b"GET / HTTP"), None);
}

#[test]
fn a_content_length_body_is_awaited_in_full() {
    let head = b"HTTP/1.1 200 OK\r\nContent-Length: 5\r\n\r\n";
    assert_eq!(message_end(head), None, "no body yet");
    let mut short = head.to_vec();
    short.extend_from_slice(b"abc");
    assert_eq!(message_end(&short), None, "three of five bytes");
    let mut whole = head.to_vec();
    whole.extend_from_slice(b"abcde");
    assert_eq!(message_end(&whole), Some(whole.len()));
    // Trailing bytes belong to the next message, not this one.
    let mut extra = whole.clone();
    extra.extend_from_slice(b"GET / HTTP/1.1\r\n\r\n");
    assert_eq!(message_end(&extra), Some(whole.len()));
}

#[test]
fn a_chunked_body_ends_at_the_zero_chunk() {
    let body = b"HTTP/1.1 200 OK\r\nTransfer-Encoding: chunked\r\n\r\n\
                 5\r\nhello\r\n6\r\n world\r\n0\r\n\r\n";
    assert_eq!(message_end(body), Some(body.len()));
    // One chunk short.
    let partial = b"HTTP/1.1 200 OK\r\nTransfer-Encoding: chunked\r\n\r\n5\r\nhello\r\n";
    assert_eq!(message_end(partial), None);
    // Chunk extensions do not confuse the length.
    let ext = b"HTTP/1.1 200 OK\r\nTransfer-Encoding: chunked\r\n\r\n\
                5;a=b\r\nhello\r\n0\r\n\r\n";
    assert_eq!(message_end(ext), Some(ext.len()));
}

#[test]
fn a_body_less_status_has_no_body_whatever_it_says() {
    // A 304 with a Content-Length is common and the body is not there.
    // Waiting for it would stall the stream forever.
    let m = b"HTTP/1.1 304 Not Modified\r\nETag: x\r\n\r\n";
    assert_eq!(message_end(m), Some(m.len()));
    let m = b"HTTP/1.1 204 No Content\r\n\r\n";
    assert_eq!(message_end(m), Some(m.len()));
    let m = b"HTTP/1.1 100 Continue\r\n\r\n";
    assert_eq!(message_end(m), Some(m.len()));
}

#[test]
fn a_response_with_no_length_runs_to_what_arrived() {
    // Nothing to wait for, so it must not be held: holding would mean the
    // body is never shown at all.
    let m = b"HTTP/1.1 200 OK\r\nServer: x\r\n\r\nbody bytes";
    assert_eq!(message_end(m), Some(m.len()));
}

#[test]
fn a_request_with_no_length_header_has_no_body() {
    let m = b"GET / HTTP/1.1\r\nHost: x\r\n\r\n";
    assert_eq!(message_end(m), Some(m.len()));
    // Anything after it is a second, pipelined request.
    let two = b"GET /a HTTP/1.1\r\n\r\nGET /b HTTP/1.1\r\n\r\n";
    // "GET /a HTTP/1.1" is 15 bytes, then CRLF CRLF.
    assert_eq!(message_end(two), Some(19));
}

#[test]
fn a_malformed_chunk_length_is_not_awaited_forever() {
    // `zz` is not hex. Returning None here would hold the stream, so the
    // caller has to treat an unparseable chunked body as needing more and
    // eventually hit the size cap; what matters is that it does not panic
    // or loop.
    let m = b"HTTP/1.1 200 OK\r\nTransfer-Encoding: chunked\r\n\r\nzz\r\n";
    assert_eq!(message_end(m), None);
}

#[test]
fn a_huge_chunk_length_does_not_overflow() {
    let m = b"HTTP/1.1 200 OK\r\nTransfer-Encoding: chunked\r\n\r\nffffffffffffffff\r\n";
    assert_eq!(message_end(m), None);
}

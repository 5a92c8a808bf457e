use netscope::capture::{LinkType, RawFrame, Timestamp};
use netscope::dissect::{dissect, Frame, State};
use netscope::filter::types::compile;

fn frame(bytes: &[u8]) -> Frame {
    let mut r = State::new();
    dissect(
        LinkType::ethernet(),
        1,
        RawFrame {
            ts: Timestamp {
                secs: 1_700_000_000,
                nanos: 0,
            },
            caplen: bytes.len() as u32,
            orig_len: bytes.len() as u32,
            bytes: bytes.to_vec(),
        },
        &mut r,
    )
}

fn synthetic() -> Frame {
    let mut r = State::new();
    dissect(
        LinkType::ethernet(),
        1,
        netscope::synthetic::raw_frame(5),
        &mut r,
    )
}

fn yes(f: &Frame, filter: &str) {
    let t = compile(filter).unwrap_or_else(|e| panic!("{filter}: {}", e.text()));
    assert!(netscope::filter::eval::matches(&t, f), "{filter} should match");
}

fn no(f: &Frame, filter: &str) {
    let t = compile(filter).unwrap_or_else(|e| panic!("{filter}: {}", e.text()));
    assert!(!netscope::filter::eval::matches(&t, f), "{filter} should not match");
}

#[test]
fn presence_and_numbers() {
    let f = synthetic();
    yes(&f, "tcp");
    yes(&f, "eth && ip && tcp");
    no(&f, "udp");
    no(&f, "arp");
    yes(&f, "tcp.dstport == 5001");
    no(&f, "tcp.dstport == 443");
    yes(&f, "ip.ttl == 64");
    yes(&f, "ip.ttl >= 64");
    yes(&f, "ip.ttl > 63");
    no(&f, "ip.ttl > 64");
    yes(&f, "ip.ttl <= 64");
    yes(&f, "frame.len > 50");
    no(&f, "frame.len > 100");
}

#[test]
fn any_occurrence_matches() {
    let f = synthetic();
    // tcp.port is an alias covering srcport and dstport.
    yes(&f, "tcp.port == 5001");
    yes(&f, "tcp.port == 40005");
    no(&f, "tcp.port == 1234");
    yes(&f, "tcp.port in {80, 5001, 443}");
    no(&f, "tcp.port in {80, 443}");
}

#[test]
fn addresses_and_prefixes() {
    let f = synthetic();
    yes(&f, "ip.src == 10.0.0.5");
    yes(&f, "ip.addr == 10.0.0.5");
    yes(&f, "ip.addr == 93.184.216.34");
    yes(&f, "ip.addr == 10.0.0.0/8");
    yes(&f, "ip.src == 10.0.0.0/24");
    no(&f, "ip.src == 10.1.0.0/16");
    no(&f, "ip.addr == 192.168.0.0/16");
    yes(&f, "eth.src == 00:1c:42:00:00:05");
    yes(&f, "eth.addr == 00:1c:42:00:00:01");
    no(&f, "eth.src == aa:bb:cc:dd:ee:ff");
}

#[test]
fn slices_read_the_fields_bytes() {
    let f = synthetic();
    yes(&f, "eth.src[0:3] == 00:1c:42");
    no(&f, "eth.src[0:3] == 00:1c:43");
    yes(&f, "eth.src[0] == 0");
    yes(&f, "ip.src[0] == 10");
    yes(&f, "ip.src[0:2] == 0a:00");
    // A slice past the end of the field does not match.
    no(&f, "eth.src[4:8] == 00:00:00:00:00:00:00:00");
}

#[test]
fn booleans_and_flags() {
    let f = synthetic();
    yes(&f, "tcp.flags.ack == true");
    yes(&f, "tcp.flags.push == 1");
    yes(&f, "tcp.flags.syn == false");
    no(&f, "tcp.flags.syn == true");
    yes(&f, "tcp.flags.syn == 0");
    yes(&f, "tcp.flags == 0x018");
}

#[test]
fn strings_contains_and_regex() {
    let mut b = vec![0x66, 0x77, 0x88, 0x99, 0xaa, 0xbb];
    b.extend_from_slice(&[0x00, 0x11, 0x22, 0x33, 0x44, 0x55]);
    b.extend_from_slice(&[0x08, 0x00]);
    let payload = b"GET /index.html HTTP/1.1\r\nHost: example.com\r\n\r\n";
    let mut ip = vec![
        0x45, 0, 0, 0, 0x12, 0x34, 0x40, 0, 64, 6, 0, 0, 10, 0, 0, 1, 10, 0, 0, 2,
    ];
    let mut tcp = vec![
        0xc0, 0x00, 0, 80, 0, 0, 0, 1, 0, 0, 0, 0, 0x50, 0x18, 0xff, 0xff, 0, 0, 0, 0,
    ];
    tcp.extend_from_slice(payload);
    let total = (20 + tcp.len()) as u16;
    ip[2..4].copy_from_slice(&total.to_be_bytes());
    ip.extend_from_slice(&tcp);
    b.extend_from_slice(&ip);
    let f = frame(&b);
    yes(&f, "http");
    yes(&f, "http.request.method == \"GET\"");
    yes(&f, "http.host == \"example.com\"");
    yes(&f, "http.host contains \"example\"");
    no(&f, "http.host contains \"google\"");
    yes(&f, "http.host matches \"^ex.*le\\\\.com$\"");
    no(&f, "http.host matches \"^www\"");
    yes(&f, "http.request.uri matches \"\\\\.html$\"");
    // `contains` on a protocol searches the layer's bytes.
    yes(&f, "tcp contains \"GET\"");
    yes(&f, "frame contains \"index.html\"");
    no(&f, "frame contains \"nowhere\"");
}

#[test]
fn boolean_structure() {
    let f = synthetic();
    yes(&f, "tcp && !udp");
    yes(&f, "udp || tcp");
    no(&f, "udp && tcp");
    yes(&f, "!(udp || arp)");
    yes(&f, "(ip.ttl == 64 || ip.ttl == 1) && tcp");
    no(&f, "!tcp");
}

#[test]
fn ne_is_any_occurrence_and_not_is_the_alternative() {
    let f = synthetic();
    // One ip.src in the frame, so both readings agree.
    yes(&f, "ip.src != 1.2.3.4");
    no(&f, "ip.src != 10.0.0.5");
    // ip.addr covers two fields, so `!=` is true when either differs.
    yes(&f, "ip.addr != 10.0.0.5");
    // The unambiguous way to say "no occurrence matches".
    no(&f, "!(ip.addr == 10.0.0.5)");
}

#[test]
fn enum_values_by_name() {
    let f = synthetic();
    yes(&f, "ip.proto == 6");
    yes(&f, "ip.proto == \"TCP\"");
    no(&f, "ip.proto == \"UDP\"");
    yes(&f, "ip.checksum.status == \"Good\"");
}

#[test]
fn missing_fields_never_match() {
    let f = synthetic();
    for filter in [
        "dns.qry.name == \"x\"",
        "dns",
        "arp.opcode == 1",
        "icmp.type == 8",
        "udp.port == 53",
    ] {
        no(&f, filter);
    }
    // Negation of a missing field is true.
    yes(&f, "!dns");
}

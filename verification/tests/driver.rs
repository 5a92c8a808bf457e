use netscope::capture::{LinkType, RawFrame, Timestamp};
use netscope::dissect::{dissect, State};

fn raw(bytes: &[u8]) -> RawFrame {
    RawFrame {
        ts: Timestamp { secs: 1, nanos: 2 },
        caplen: bytes.len() as u32,
        orig_len: bytes.len() as u32,
        bytes: bytes.to_vec(),
    }
}

#[test]
fn ethernet_ipv4_tcp_chain() {
    let mut b = vec![0xffu8; 6];
    b.extend_from_slice(&[0, 1, 2, 3, 4, 5]);
    b.extend_from_slice(&[0x08, 0x00]);
    // IPv4 header, total length 40, proto TCP.
    b.extend_from_slice(&[
        0x45, 0, 0, 40, 0x12, 0x34, 0x40, 0, 64, 6, 0, 0, 10, 0, 0, 1, 10, 0, 0, 2,
    ]);
    // TCP header: ports 1234 -> 80, SYN.
    b.extend_from_slice(&[
        0x04, 0xd2, 0, 80, 0, 0, 0, 1, 0, 0, 0, 0, 0x50, 0x02, 0xff, 0xff, 0, 0, 0, 0,
    ]);
    let mut r = State::new();
    let f = dissect(LinkType::ethernet(), 7, raw(&b), &mut r);
    assert_eq!(f.summary.source.text(), "10.0.0.1");
    assert_eq!(f.summary.destination.text(), "10.0.0.2");
    assert_eq!(f.summary.protocol, "tcp");
    assert!(f.summary.info.contains("[SYN]"), "{}", f.summary.info);
    let names: Vec<&str> = f.layers().into_iter().map(|n| n.abbrev()).collect();
    assert_eq!(names, ["frame", "eth", "ip", "tcp"]);
}

#[test]
fn truncated_frames_become_malformed_and_do_not_panic() {
    let mut r = State::new();
    let full: Vec<u8> = (0..60u8).collect();
    for n in 0..=full.len() {
        let f = dissect(LinkType::ethernet(), 1, raw(&full[..n]), &mut r);
        assert_eq!(f.tree.get(0).map(|n| n.range()), Some(0..n));
    }
    // 14-byte Ethernet header claiming IPv4 with nothing after it.
    let mut b = vec![0u8; 12];
    b.extend_from_slice(&[0x08, 0x00]);
    let f = dissect(LinkType::ethernet(), 1, raw(&b), &mut r);
    let names: Vec<&str> = f.layers().into_iter().map(|n| n.abbrev()).collect();
    assert_eq!(names, ["frame", "eth", "_ws.malformed"]);
    assert!(f.summary.info.starts_with("[Malformed Packet: ip]"));
}

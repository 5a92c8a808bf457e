//! Captures built byte by byte, and what the library makes of them: display
//! filters select exactly the frames they should, every tree is sound, streams
//! are told apart, and messages that span segments come out whole.

use std::collections::BTreeSet;
use std::sync::Arc;

use netscope::capture::{LinkType, RawFrame, Timestamp};
use netscope::dissect::proto::inet_checksum;
use netscope::dissect::proto::ipv6::MAX_EXT_HEADERS;
use netscope::dissect::registry::{self, Kind as FieldKind};
use netscope::dissect::stream::Direction;
use netscope::dissect::{dissect, dissect_with, Addr, Frame, Options, Severity, State, Tree};
use netscope::filter::compile;
use netscope::pcapng::Writer;
use netscope::store::conversations::{conversations, filter_for, Kind, Row};
use netscope::store::follow::{follow, Stream};
use netscope::store::{Limits, Store};

const MAC_A: [u8; 6] = [0x00, 0x11, 0x22, 0x33, 0x44, 0x55];
const MAC_B: [u8; 6] = [0x66, 0x77, 0x88, 0x99, 0xaa, 0xbb];
const MAC_BCAST: [u8; 6] = [0xff; 6];
const IP_A: [u8; 4] = [192, 168, 1, 10];
const IP_B: [u8; 4] = [93, 184, 216, 34];
const IP6_A: [u8; 16] = [
    0xfe, 0x80, 0, 0, 0, 0, 0, 0, 0x02, 0x11, 0x22, 0xff, 0xfe, 0x33, 0x44, 0x55,
];
const IP6_B: [u8; 16] = [
    0x20, 0x01, 0x0d, 0xb8, 0, 0, 0, 0, 0, 0, 0, 0, 0, 0, 0, 0x01,
];

fn ts(n: u32) -> Timestamp {
    Timestamp {
        secs: 1_700_000_000 + i64::from(n),
        nanos: (n % 1000) * 1_000_000 + 123_456,
    }
}

fn eth(dst: [u8; 6], src: [u8; 6], ethertype: u16, payload: &[u8]) -> Vec<u8> {
    let mut b = Vec::with_capacity(14 + payload.len());
    b.extend_from_slice(&dst);
    b.extend_from_slice(&src);
    b.extend_from_slice(&ethertype.to_be_bytes());
    b.extend_from_slice(payload);
    b
}

/// IEEE 802.3 frame with a length field and LLC payload.
fn eth_802_3(dst: [u8; 6], src: [u8; 6], llc: &[u8]) -> Vec<u8> {
    let mut b = Vec::new();
    b.extend_from_slice(&dst);
    b.extend_from_slice(&src);
    b.extend_from_slice(&(llc.len() as u16).to_be_bytes());
    b.extend_from_slice(llc);
    b
}

fn vlan(pcp: u8, dei: bool, id: u16, ethertype: u16, payload: &[u8]) -> Vec<u8> {
    let tci = (u16::from(pcp) << 13) | (u16::from(dei) << 12) | (id & 0x0fff);
    let mut b = Vec::new();
    b.extend_from_slice(&tci.to_be_bytes());
    b.extend_from_slice(&ethertype.to_be_bytes());
    b.extend_from_slice(payload);
    b
}

fn snap(oui: u32, pid: u16, payload: &[u8]) -> Vec<u8> {
    let mut b = vec![0xaa, 0xaa, 0x03];
    b.extend_from_slice(&oui.to_be_bytes()[1..]);
    b.extend_from_slice(&pid.to_be_bytes());
    b.extend_from_slice(payload);
    b
}

fn arp(opcode: u16, sha: [u8; 6], spa: [u8; 4], tha: [u8; 6], tpa: [u8; 4]) -> Vec<u8> {
    let mut b = vec![0, 1, 0x08, 0x00, 6, 4];
    b.extend_from_slice(&opcode.to_be_bytes());
    b.extend_from_slice(&sha);
    b.extend_from_slice(&spa);
    b.extend_from_slice(&tha);
    b.extend_from_slice(&tpa);
    b
}

#[derive(Clone)]
struct Ipv4 {
    src: [u8; 4],
    dst: [u8; 4],
    proto: u8,
    id: u16,
    df: bool,
    mf: bool,
    frag_off: u16,
    ttl: u8,
    dscp_ecn: u8,
    options: Vec<u8>,
    /// Override the total length field (for malformed cases).
    total_len: Option<u16>,
    bad_checksum: bool,
}

impl Ipv4 {
    fn new(src: [u8; 4], dst: [u8; 4], proto: u8) -> Ipv4 {
        Ipv4 {
            src,
            dst,
            proto,
            id: 0x1234,
            df: true,
            mf: false,
            frag_off: 0,
            ttl: 64,
            dscp_ecn: 0,
            options: Vec::new(),
            total_len: None,
            bad_checksum: false,
        }
    }

    fn build(&self, payload: &[u8]) -> Vec<u8> {
        let mut opts = self.options.clone();
        while opts.len() % 4 != 0 {
            opts.push(0);
        }
        let ihl = 5 + opts.len() / 4;
        let total = self
            .total_len
            .unwrap_or((20 + opts.len() + payload.len()) as u16);
        let mut b = Vec::with_capacity(20 + opts.len() + payload.len());
        b.push(0x40 | ihl as u8);
        b.push(self.dscp_ecn);
        b.extend_from_slice(&total.to_be_bytes());
        b.extend_from_slice(&self.id.to_be_bytes());
        let flags_off =
            (u16::from(self.df) << 14) | (u16::from(self.mf) << 13) | (self.frag_off & 0x1fff);
        b.extend_from_slice(&flags_off.to_be_bytes());
        b.push(self.ttl);
        b.push(self.proto);
        b.extend_from_slice(&[0, 0]);
        b.extend_from_slice(&self.src);
        b.extend_from_slice(&self.dst);
        b.extend_from_slice(&opts);
        let ck = inet_checksum(&[&b]);
        let ck = if self.bad_checksum { ck ^ 0x00ff } else { ck };
        b[10..12].copy_from_slice(&ck.to_be_bytes());
        b.extend_from_slice(payload);
        b
    }
}

fn ipv4(src: [u8; 4], dst: [u8; 4], proto: u8, payload: &[u8]) -> Vec<u8> {
    Ipv4::new(src, dst, proto).build(payload)
}

/// IPv6 header with an optional chain of extension headers already built
/// (each ext header's own next-header field must be filled by the caller).
fn ipv6(src: [u8; 16], dst: [u8; 16], next: u8, hlim: u8, ext_and_payload: &[u8]) -> Vec<u8> {
    let mut b = Vec::with_capacity(40 + ext_and_payload.len());
    b.extend_from_slice(&0x6000_0000u32.to_be_bytes());
    b.extend_from_slice(&(ext_and_payload.len() as u16).to_be_bytes());
    b.push(next);
    b.push(hlim);
    b.extend_from_slice(&src);
    b.extend_from_slice(&dst);
    b.extend_from_slice(ext_and_payload);
    b
}

fn pseudo_v4(src: [u8; 4], dst: [u8; 4], proto: u8, len: usize) -> Vec<u8> {
    let mut p = Vec::with_capacity(12);
    p.extend_from_slice(&src);
    p.extend_from_slice(&dst);
    p.extend_from_slice(&[0, proto]);
    p.extend_from_slice(&(len as u16).to_be_bytes());
    p
}

fn pseudo_v6(src: [u8; 16], dst: [u8; 16], proto: u8, len: usize) -> Vec<u8> {
    let mut p = Vec::with_capacity(40);
    p.extend_from_slice(&src);
    p.extend_from_slice(&dst);
    p.extend_from_slice(&(len as u32).to_be_bytes());
    p.extend_from_slice(&[0, 0, 0, proto]);
    p
}

#[derive(Clone)]
struct Tcp {
    sport: u16,
    dport: u16,
    seq: u32,
    ack: u32,
    flags: u16,
    window: u16,
    urgent: u16,
    options: Vec<u8>,
    /// Override the data offset nibble (for malformed cases).
    data_offset: Option<u8>,
}

const FIN: u16 = 0x001;
const SYN: u16 = 0x002;
const RST: u16 = 0x004;
const PSH: u16 = 0x008;
const ACK: u16 = 0x010;
const URG: u16 = 0x020;
const ECE: u16 = 0x040;
const CWR: u16 = 0x080;

impl Tcp {
    fn new(sport: u16, dport: u16, flags: u16) -> Tcp {
        Tcp {
            sport,
            dport,
            seq: 1000,
            ack: 0,
            flags,
            window: 65535,
            urgent: 0,
            options: Vec::new(),
            data_offset: None,
        }
    }

    fn build(&self, pseudo: &[u8], payload: &[u8]) -> Vec<u8> {
        let mut opts = self.options.clone();
        while opts.len() % 4 != 0 {
            opts.push(0);
        }
        let off = self.data_offset.unwrap_or((5 + opts.len() / 4) as u8);
        let mut b = Vec::with_capacity(20 + opts.len() + payload.len());
        b.extend_from_slice(&self.sport.to_be_bytes());
        b.extend_from_slice(&self.dport.to_be_bytes());
        b.extend_from_slice(&self.seq.to_be_bytes());
        b.extend_from_slice(&self.ack.to_be_bytes());
        b.extend_from_slice(&((u16::from(off) << 12) | (self.flags & 0x0fff)).to_be_bytes());
        b.extend_from_slice(&self.window.to_be_bytes());
        b.extend_from_slice(&[0, 0]);
        b.extend_from_slice(&self.urgent.to_be_bytes());
        b.extend_from_slice(&opts);
        b.extend_from_slice(payload);
        let mut p = pseudo.to_vec();
        let len = b.len();
        if p.len() == 12 {
            p[10..12].copy_from_slice(&(len as u16).to_be_bytes());
        } else if p.len() == 40 {
            p[32..36].copy_from_slice(&(len as u32).to_be_bytes());
        }
        let ck = inet_checksum(&[&p, &b]);
        b[16..18].copy_from_slice(&ck.to_be_bytes());
        b
    }
}

/// TCP over IPv4 with correct checksum.
fn tcp4(src: [u8; 4], dst: [u8; 4], t: &Tcp, payload: &[u8]) -> Vec<u8> {
    t.build(&pseudo_v4(src, dst, 6, 0), payload)
}

fn udp_raw(sport: u16, dport: u16, pseudo: &[u8], payload: &[u8]) -> Vec<u8> {
    let len = 8 + payload.len();
    let mut b = Vec::with_capacity(len);
    b.extend_from_slice(&sport.to_be_bytes());
    b.extend_from_slice(&dport.to_be_bytes());
    b.extend_from_slice(&(len as u16).to_be_bytes());
    b.extend_from_slice(&[0, 0]);
    b.extend_from_slice(payload);
    let mut p = pseudo.to_vec();
    if p.len() == 12 {
        p[10..12].copy_from_slice(&(len as u16).to_be_bytes());
    } else if p.len() == 40 {
        p[32..36].copy_from_slice(&(len as u32).to_be_bytes());
    }
    let ck = inet_checksum(&[&p, &b]);
    b[6..8].copy_from_slice(&(if ck == 0 { 0xffff } else { ck }).to_be_bytes());
    b
}

fn udp4(src: [u8; 4], dst: [u8; 4], sport: u16, dport: u16, payload: &[u8]) -> Vec<u8> {
    udp_raw(sport, dport, &pseudo_v4(src, dst, 17, 0), payload)
}

fn udp6(src: [u8; 16], dst: [u8; 16], sport: u16, dport: u16, payload: &[u8]) -> Vec<u8> {
    udp_raw(sport, dport, &pseudo_v6(src, dst, 17, 0), payload)
}

fn icmp(ty: u8, code: u8, rest: &[u8]) -> Vec<u8> {
    let mut b = vec![ty, code, 0, 0];
    b.extend_from_slice(rest);
    let ck = inet_checksum(&[&b]);
    b[2..4].copy_from_slice(&ck.to_be_bytes());
    b
}

fn icmp_echo(request: bool, ident: u16, seq: u16, data: &[u8]) -> Vec<u8> {
    let mut rest = Vec::new();
    rest.extend_from_slice(&ident.to_be_bytes());
    rest.extend_from_slice(&seq.to_be_bytes());
    rest.extend_from_slice(data);
    icmp(if request { 8 } else { 0 }, 0, &rest)
}

fn icmpv6(src: [u8; 16], dst: [u8; 16], ty: u8, code: u8, rest: &[u8]) -> Vec<u8> {
    let mut b = vec![ty, code, 0, 0];
    b.extend_from_slice(rest);
    let p = pseudo_v6(src, dst, 58, b.len());
    let ck = inet_checksum(&[&p, &b]);
    b[2..4].copy_from_slice(&ck.to_be_bytes());
    b
}

/// DNS name in wire format (no compression).
fn dns_name(name: &str) -> Vec<u8> {
    let mut b = Vec::new();
    for label in name.split('.').filter(|l| !l.is_empty()) {
        b.push(label.len() as u8);
        b.extend_from_slice(label.as_bytes());
    }
    b.push(0);
    b
}

fn dns_header(id: u16, flags: u16, qd: u16, an: u16, ns: u16, ar: u16) -> Vec<u8> {
    let mut b = Vec::with_capacity(12);
    for v in [id, flags, qd, an, ns, ar] {
        b.extend_from_slice(&v.to_be_bytes());
    }
    b
}

fn dns_question(name: &[u8], qtype: u16, qclass: u16) -> Vec<u8> {
    let mut b = name.to_vec();
    b.extend_from_slice(&qtype.to_be_bytes());
    b.extend_from_slice(&qclass.to_be_bytes());
    b
}

fn dns_rr(name: &[u8], rtype: u16, class: u16, ttl: u32, rdata: &[u8]) -> Vec<u8> {
    let mut b = name.to_vec();
    b.extend_from_slice(&rtype.to_be_bytes());
    b.extend_from_slice(&class.to_be_bytes());
    b.extend_from_slice(&ttl.to_be_bytes());
    b.extend_from_slice(&(rdata.len() as u16).to_be_bytes());
    b.extend_from_slice(rdata);
    b
}

/// A compression pointer to `offset`.
fn dns_ptr(offset: u16) -> Vec<u8> {
    (0xc000 | offset).to_be_bytes().to_vec()
}

fn dhcp(op: u8, xid: u32, chaddr: [u8; 6], yiaddr: [u8; 4], options: &[u8]) -> Vec<u8> {
    let mut b = Vec::with_capacity(240 + options.len());
    b.extend_from_slice(&[op, 1, 6, 0]);
    b.extend_from_slice(&xid.to_be_bytes());
    b.extend_from_slice(&[0, 0, 0x80, 0]);
    b.extend_from_slice(&[0; 4]);
    b.extend_from_slice(&yiaddr);
    b.extend_from_slice(&[0; 8]);
    b.extend_from_slice(&chaddr);
    b.extend_from_slice(&[0; 10]);
    b.extend_from_slice(&[0; 64]);
    b.extend_from_slice(&[0; 128]);
    b.extend_from_slice(&0x6382_5363u32.to_be_bytes());
    b.extend_from_slice(options);
    b
}

fn dhcp_opt(code: u8, value: &[u8]) -> Vec<u8> {
    let mut b = vec![code, value.len() as u8];
    b.extend_from_slice(value);
    b
}

fn tls_record(content_type: u8, version: u16, body: &[u8]) -> Vec<u8> {
    let mut b = vec![content_type];
    b.extend_from_slice(&version.to_be_bytes());
    b.extend_from_slice(&(body.len() as u16).to_be_bytes());
    b.extend_from_slice(body);
    b
}

fn tls_handshake(ty: u8, body: &[u8]) -> Vec<u8> {
    let mut b = vec![ty];
    b.extend_from_slice(&(body.len() as u32).to_be_bytes()[1..]);
    b.extend_from_slice(body);
    b
}

fn tls_ext(ty: u16, data: &[u8]) -> Vec<u8> {
    let mut b = Vec::new();
    b.extend_from_slice(&ty.to_be_bytes());
    b.extend_from_slice(&(data.len() as u16).to_be_bytes());
    b.extend_from_slice(data);
    b
}

fn tls_sni(host: &str) -> Vec<u8> {
    let mut entry = vec![0u8];
    entry.extend_from_slice(&(host.len() as u16).to_be_bytes());
    entry.extend_from_slice(host.as_bytes());
    let mut list = (entry.len() as u16).to_be_bytes().to_vec();
    list.extend_from_slice(&entry);
    tls_ext(0, &list)
}

fn tls_alpn(protos: &[&str]) -> Vec<u8> {
    let mut list = Vec::new();
    for p in protos {
        list.push(p.len() as u8);
        list.extend_from_slice(p.as_bytes());
    }
    let mut body = (list.len() as u16).to_be_bytes().to_vec();
    body.extend_from_slice(&list);
    tls_ext(16, &body)
}

fn tls_client_hello(
    version: u16,
    session_id: &[u8],
    suites: &[u16],
    extensions: &[Vec<u8>],
) -> Vec<u8> {
    let mut b = Vec::new();
    b.extend_from_slice(&version.to_be_bytes());
    b.extend_from_slice(&[0x11; 32]);
    b.push(session_id.len() as u8);
    b.extend_from_slice(session_id);
    b.extend_from_slice(&((suites.len() * 2) as u16).to_be_bytes());
    for s in suites {
        b.extend_from_slice(&s.to_be_bytes());
    }
    b.extend_from_slice(&[1, 0]); // compression methods: null
    let ext: Vec<u8> = extensions.concat();
    b.extend_from_slice(&(ext.len() as u16).to_be_bytes());
    b.extend_from_slice(&ext);
    tls_handshake(1, &b)
}

fn tls_server_hello(version: u16, suite: u16, extensions: &[Vec<u8>]) -> Vec<u8> {
    let mut b = Vec::new();
    b.extend_from_slice(&version.to_be_bytes());
    b.extend_from_slice(&[0x22; 32]);
    b.push(0);
    b.extend_from_slice(&suite.to_be_bytes());
    b.push(0);
    let ext: Vec<u8> = extensions.concat();
    b.extend_from_slice(&(ext.len() as u16).to_be_bytes());
    b.extend_from_slice(&ext);
    tls_handshake(2, &b)
}

struct Fixture {
    name: &'static str,
    link_type: u16,
    frames: Vec<Vec<u8>>,
    /// Microseconds into the capture; a second apart where not given.
    times: Option<Vec<u64>>,
}

fn f(name: &'static str, frames: Vec<Vec<u8>>) -> Fixture {
    Fixture {
        name,
        link_type: 1,
        frames,
        times: None,
    }
}

fn eth_ipv4(proto: u8, payload: &[u8]) -> Vec<u8> {
    eth(MAC_B, MAC_A, 0x0800, &ipv4(IP_A, IP_B, proto, payload))
}

fn link_layer() -> Fixture {
    let arp_req = arp(1, MAC_A, IP_A, [0; 6], [192, 168, 1, 1]);
    let mut arp_frame = eth(MAC_BCAST, MAC_A, 0x0806, &arp_req);
    arp_frame.resize(60, 0); // Ethernet minimum with padding
    let arp_reply = eth(
        MAC_A,
        MAC_B,
        0x0806,
        &arp(2, MAC_B, [192, 168, 1, 1], MAC_A, IP_A),
    );
    let arp_probe = eth(
        MAC_BCAST,
        MAC_A,
        0x0806,
        &arp(1, MAC_A, [0; 4], [0; 6], IP_A),
    );
    let arp_announce = eth(MAC_BCAST, MAC_A, 0x0806, &arp(1, MAC_A, IP_A, [0; 6], IP_A));
    let vlan_ip = eth(
        MAC_B,
        MAC_A,
        0x8100,
        &vlan(
            3,
            false,
            100,
            0x0800,
            &ipv4(IP_A, IP_B, 1, &icmp_echo(true, 1, 1, b"vlan")),
        ),
    );
    let qinq = eth(
        MAC_B,
        MAC_A,
        0x88a8,
        &vlan(
            0,
            true,
            5,
            0x8100,
            &vlan(1, false, 200, 0x0806, &arp(1, MAC_A, IP_A, [0; 6], IP_B)),
        ),
    );
    let llc_snap = eth_802_3(
        MAC_B,
        MAC_A,
        &snap(
            0,
            0x0800,
            &ipv4(IP_A, IP_B, 1, &icmp_echo(false, 1, 1, b"snap")),
        ),
    );
    let llc_stp = eth_802_3(
        [0x01, 0x80, 0xc2, 0, 0, 0],
        MAC_A,
        &[0x42, 0x42, 0x03, 0, 0, 0, 0, 0, 0, 0, 0, 0, 0],
    );
    let llc_snap_other_oui = eth_802_3(MAC_B, MAC_A, &snap(0x00000c, 0x2000, &[1, 2, 3, 4]));
    // 802.3 length shorter than the frame: the rest is a trailer.
    let mut with_trailer = eth_802_3(MAC_B, MAC_A, &[0x42, 0x42, 0x03, 0, 0]);
    with_trailer.extend_from_slice(&[0xee; 8]);
    with_trailer[12..14].copy_from_slice(&5u16.to_be_bytes());
    let unknown_ethertype = eth(MAC_B, MAC_A, 0x88b5, &[0xde, 0xad, 0xbe, 0xef]);
    let arp_other_hw = eth(
        MAC_B,
        MAC_A,
        0x0806,
        &[
            0, 6, 0x08, 0x00, 2, 4, 0, 1, 0xaa, 0xbb, 1, 2, 3, 4, 0xcc, 0xdd, 5, 6, 7, 8,
        ],
    );
    f(
        "link_layer",
        vec![
            arp_frame,
            arp_reply,
            arp_probe,
            arp_announce,
            vlan_ip,
            qinq,
            llc_snap,
            llc_stp,
            llc_snap_other_oui,
            with_trailer,
            unknown_ethertype,
            arp_other_hw,
        ],
    )
}

fn ipv4_fixture() -> Fixture {
    let plain = eth_ipv4(1, &icmp_echo(true, 0x1234, 1, b"hello world, this is ping"));
    let mut with_opts = Ipv4::new(IP_A, IP_B, 1);
    with_opts.options = vec![148, 4, 0, 0, 1, 7, 3, 4, 130, 4, 0xab, 0xcd, 0];
    with_opts.dscp_ecn = 0xb8; // EF, ECN 0
    with_opts.ttl = 1;
    let opts_frame = eth(
        MAC_B,
        MAC_A,
        0x0800,
        &with_opts.build(&icmp_echo(true, 2, 2, b"opts")),
    );
    let mut bad = Ipv4::new(IP_A, IP_B, 1);
    bad.bad_checksum = true;
    let bad_frame = eth(
        MAC_B,
        MAC_A,
        0x0800,
        &bad.build(&icmp_echo(false, 2, 2, b"bad")),
    );
    // Three fragments of a 40-byte UDP datagram, sent out of order.
    let udp_whole = udp4(IP_A, IP_B, 4000, 5000, &[0xab; 32]);
    let frag = |off: u16, mf: bool, slice: &[u8]| {
        let mut h = Ipv4::new(IP_A, IP_B, 17);
        h.id = 0x4242;
        h.df = false;
        h.mf = mf;
        h.frag_off = off / 8;
        eth(MAC_B, MAC_A, 0x0800, &h.build(slice))
    };
    let frag2 = frag(16, true, &udp_whole[16..32]);
    let frag1 = frag(0, true, &udp_whole[..16]);
    let frag3 = frag(32, false, &udp_whole[32..]);
    // Unreachable carrying the offending header. A real ICMP error quotes the
    // datagram that caused it, which travelled the other way: the host sent
    // IP_A -> IP_B, and the error comes back IP_B -> IP_A.
    let inner = ipv4(IP_A, IP_B, 17, &udp4(IP_A, IP_B, 4000, 5000, &[1, 2, 3, 4]));
    let mut rest = vec![0, 0, 0, 0];
    rest.extend_from_slice(&inner[..28]);
    let unreach = eth(
        MAC_A,
        MAC_B,
        0x0800,
        &ipv4(IP_B, IP_A, 1, &icmp(3, 3, &rest)),
    );
    let mut rest = vec![0, 0, 0x05, 0xdc];
    rest.extend_from_slice(&inner[..28]);
    let frag_needed = eth(
        MAC_A,
        MAC_B,
        0x0800,
        &ipv4(IP_B, IP_A, 1, &icmp(3, 4, &rest)),
    );
    let mut rest = vec![0, 0, 0, 0];
    rest.extend_from_slice(&inner[..28]);
    let ttl_exceeded = eth(
        MAC_A,
        MAC_B,
        0x0800,
        &ipv4(IP_B, IP_A, 1, &icmp(11, 0, &rest)),
    );
    let redirect = eth(
        MAC_A,
        MAC_B,
        0x0800,
        &ipv4(
            IP_B,
            IP_A,
            1,
            &icmp(
                5,
                1,
                &[[192, 168, 1, 254].as_slice(), &inner[..28]].concat(),
            ),
        ),
    );
    let mut padded = eth_ipv4(1, &icmp_echo(false, 0x1234, 1, b""));
    padded.resize(60, 0);
    let unknown_proto = eth_ipv4(0x63, &[1, 2, 3, 4, 5, 6, 7, 8]);
    // TCP segmentation offload: the NIC fills in total length and checksum
    // per segment, so a captured frame carries zero in both.
    let mut tso = Ipv4::new(IP_A, IP_B, 6);
    tso.total_len = Some(0);
    tso.bad_checksum = false;
    let mut t = Tcp::new(52100, 443, PSH | ACK);
    t.seq = 1;
    let mut tso_frame = eth(
        MAC_B,
        MAC_A,
        0x0800,
        &tso.build(&tcp4(IP_A, IP_B, &t, &[0xcd; 120])),
    );
    // Zero the header checksum the way an offloading NIC leaves it.
    tso_frame[24] = 0;
    tso_frame[25] = 0;
    f(
        "ipv4",
        vec![
            plain,
            opts_frame,
            bad_frame,
            frag2,
            frag1,
            frag3,
            unreach,
            frag_needed,
            ttl_exceeded,
            redirect,
            padded,
            unknown_proto,
            tso_frame,
        ],
    )
}

fn ipv6_fixture() -> Fixture {
    let echo = icmpv6(
        IP6_A,
        IP6_B,
        128,
        0,
        &[0x00, 0x2a, 0x00, 0x01, b'p', b'i', b'n', b'g'],
    );
    let plain = eth(MAC_B, MAC_A, 0x86dd, &ipv6(IP6_A, IP6_B, 58, 64, &echo));
    // Hop-by-hop (router alert) then destination options then UDP.
    let udp = udp6(IP6_A, IP6_B, 1234, 5678, b"ext headers");
    let mut chain = vec![60, 0, 5, 2, 0, 0, 1, 0]; // hopopts: next=dstopts, RA option, PadN
    chain.extend_from_slice(&[17, 0, 0x1e, 2, 0xaa, 0xbb, 1, 0]); // dstopts: next=udp, unknown opt, PadN
    chain.extend_from_slice(&udp);
    let exts = eth(MAC_B, MAC_A, 0x86dd, &ipv6(IP6_A, IP6_B, 0, 64, &chain));
    // Routing header type 0 with one address, then UDP.
    let mut chain = vec![17, 2, 0, 1, 0, 0, 0, 0];
    chain.extend_from_slice(&IP6_B);
    chain.extend_from_slice(&udp);
    let routing = eth(MAC_B, MAC_A, 0x86dd, &ipv6(IP6_A, IP6_B, 43, 64, &chain));
    // Fragment header: first fragment (offset 0, more) and an atomic fragment.
    let mut chain = vec![17, 0, 0, 1, 0xde, 0xad, 0xbe, 0xef];
    chain.extend_from_slice(&udp[..8]);
    let frag = eth(MAC_B, MAC_A, 0x86dd, &ipv6(IP6_A, IP6_B, 44, 64, &chain));
    let mut chain = vec![17, 0, 0, 0, 0xde, 0xad, 0xbe, 0xef];
    chain.extend_from_slice(&udp);
    let atomic = eth(MAC_B, MAC_A, 0x86dd, &ipv6(IP6_A, IP6_B, 44, 64, &chain));
    // NDP: solicitation with source link-layer option, advertisement, RA.
    let mut ns = vec![0; 4];
    ns.extend_from_slice(&IP6_B);
    ns.extend_from_slice(&[1, 1]);
    ns.extend_from_slice(&MAC_A);
    let ns_frame = eth(
        [0x33, 0x33, 0xff, 0, 0, 1],
        MAC_A,
        0x86dd,
        &ipv6(IP6_A, IP6_B, 58, 255, &icmpv6(IP6_A, IP6_B, 135, 0, &ns)),
    );
    let mut na = 0x6000_0000u32.to_be_bytes().to_vec();
    na.extend_from_slice(&IP6_B);
    na.extend_from_slice(&[2, 1]);
    na.extend_from_slice(&MAC_B);
    let na_frame = eth(
        MAC_A,
        MAC_B,
        0x86dd,
        &ipv6(IP6_B, IP6_A, 58, 255, &icmpv6(IP6_B, IP6_A, 136, 0, &na)),
    );
    let mut ra = vec![64, 0x80, 0x07, 0x08, 0, 0, 0, 0, 0, 0, 0, 0];
    ra.extend_from_slice(&[5, 1, 0, 0, 0, 0, 0x05, 0xdc]); // MTU 1500
    ra.extend_from_slice(&[3, 4, 64, 0xc0]); // prefix info
    ra.extend_from_slice(&86400u32.to_be_bytes());
    ra.extend_from_slice(&14400u32.to_be_bytes());
    ra.extend_from_slice(&[0; 4]);
    ra.extend_from_slice(&IP6_B);
    ra.extend_from_slice(&[1, 1]);
    ra.extend_from_slice(&MAC_B);
    let ra_frame = eth(
        [0x33, 0x33, 0, 0, 0, 1],
        MAC_B,
        0x86dd,
        &ipv6(IP6_B, IP6_A, 58, 255, &icmpv6(IP6_B, IP6_A, 134, 0, &ra)),
    );
    let mut rd = vec![0; 4];
    rd.extend_from_slice(&IP6_B);
    rd.extend_from_slice(&IP6_A);
    rd.extend_from_slice(&[25, 3, 0, 0, 0, 0, 0x0e, 0x10]);
    rd.extend_from_slice(&IP6_B);
    let redirect6 = eth(
        MAC_A,
        MAC_B,
        0x86dd,
        &ipv6(IP6_B, IP6_A, 58, 255, &icmpv6(IP6_B, IP6_A, 137, 0, &rd)),
    );
    let too_big = eth(
        MAC_A,
        MAC_B,
        0x86dd,
        &ipv6(
            IP6_B,
            IP6_A,
            58,
            64,
            &icmpv6(IP6_B, IP6_A, 2, 0, &[0, 0, 0x05, 0x00, 0x60, 0, 0, 0]),
        ),
    );
    let no_next = eth(MAC_B, MAC_A, 0x86dd, &ipv6(IP6_A, IP6_B, 59, 64, &[]));
    f(
        "ipv6",
        vec![
            plain, exts, routing, frag, atomic, ns_frame, na_frame, ra_frame, redirect6, too_big,
            no_next,
        ],
    )
}

fn tcp_udp_fixture() -> Fixture {
    let mut syn = Tcp::new(51000, 5001, SYN);
    syn.options = vec![
        2, 4, 0x05, 0xb4, 4, 2, 8, 10, 0, 0, 0, 1, 0, 0, 0, 0, 1, 3, 3, 7,
    ];
    let syn_frame = eth_ipv4(6, &tcp4(IP_A, IP_B, &syn, &[]));
    let mut synack = Tcp::new(5001, 51000, SYN | ACK);
    synack.seq = 5000;
    synack.ack = 1001;
    synack.options = vec![2, 4, 0x05, 0xb4, 1, 1, 4, 2, 1, 3, 3, 5];
    let synack_frame = eth(
        MAC_A,
        MAC_B,
        0x0800,
        &ipv4(IP_B, IP_A, 6, &tcp4(IP_B, IP_A, &synack, &[])),
    );
    let mut data = Tcp::new(51000, 5001, PSH | ACK);
    data.seq = 1001;
    data.ack = 5001;
    data.options = vec![1, 1, 8, 10, 0, 0, 0, 2, 0, 0, 0, 9];
    let data_frame = eth_ipv4(6, &tcp4(IP_A, IP_B, &data, b"payload bytes"));
    let mut sack = Tcp::new(5001, 51000, ACK);
    sack.seq = 5001;
    sack.ack = 1001;
    sack.options = vec![
        1, 1, 5, 18, 0, 0, 0x04, 0x00, 0, 0, 0x08, 0x00, 0, 0, 0x0c, 0x00, 0, 0, 0x10, 0x00,
    ];
    let sack_frame = eth(
        MAC_A,
        MAC_B,
        0x0800,
        &ipv4(IP_B, IP_A, 6, &tcp4(IP_B, IP_A, &sack, &[])),
    );
    let mut all = Tcp::new(
        51000,
        5001,
        FIN | SYN | RST | PSH | ACK | URG | ECE | CWR | 0x100,
    );
    all.urgent = 7;
    all.window = 0;
    let all_flags = eth_ipv4(6, &tcp4(IP_A, IP_B, &all, &[]));
    let mut eol = Tcp::new(51000, 5001, ACK);
    eol.options = vec![2, 4, 0x05, 0xb4, 0, 0, 0, 0];
    let eol_frame = eth_ipv4(6, &tcp4(IP_A, IP_B, &eol, &[]));
    let mut unknown_opt = Tcp::new(51000, 5001, ACK);
    unknown_opt.options = vec![254, 6, 1, 2, 3, 4, 30, 4, 0, 0];
    let unknown_frame = eth_ipv4(6, &tcp4(IP_A, IP_B, &unknown_opt, &[]));
    let rst = eth(
        MAC_A,
        MAC_B,
        0x0800,
        &ipv4(
            IP_B,
            IP_A,
            6,
            &tcp4(IP_B, IP_A, &Tcp::new(5001, 51000, RST), &[]),
        ),
    );
    let mut short = eth_ipv4(6, &tcp4(IP_A, IP_B, &Tcp::new(51000, 5001, ACK), &[]));
    short.resize(60, 0); // padding must not become payload
    let udp_frame = eth_ipv4(17, &udp4(IP_A, IP_B, 40000, 9, b"udp payload"));
    let udp_nocksum = {
        let mut u = udp4(IP_A, IP_B, 40000, 9, b"no checksum");
        u[6] = 0;
        u[7] = 0;
        eth_ipv4(17, &u)
    };
    f(
        "tcp_udp",
        vec![
            syn_frame,
            synack_frame,
            data_frame,
            sack_frame,
            all_flags,
            eol_frame,
            unknown_frame,
            rst,
            short,
            udp_frame,
            udp_nocksum,
        ],
    )
}

fn dns_fixture() -> Fixture {
    let q = dns_question(&dns_name("www.example.com"), 1, 1);
    let query = [dns_header(0x1a2b, 0x0100, 1, 0, 0, 0), q.clone()].concat();
    let query_frame = eth_ipv4(17, &udp4(IP_A, [192, 168, 1, 1], 53123, 53, &query));
    // Response: CNAME to a compressed name, then A for the target, all using pointers.
    let mut resp = dns_header(0x1a2b, 0x8180, 1, 2, 0, 0);
    resp.extend_from_slice(&q);
    // CNAME www.example.com -> cdn.example.com (label + pointer to "example.com" at 12+4)
    let mut cname_rdata = vec![3, b'c', b'd', b'n'];
    cname_rdata.extend_from_slice(&dns_ptr(16));
    resp.extend_from_slice(&dns_rr(&dns_ptr(12), 5, 1, 300, &cname_rdata));
    let target_off = (12 + q.len() + 12) as u16; // start of rdata of the CNAME RR
    resp.extend_from_slice(&dns_rr(&dns_ptr(target_off), 1, 1, 60, &[93, 184, 216, 34]));
    let resp_frame = eth(
        MAC_A,
        MAC_B,
        0x0800,
        &ipv4(
            [192, 168, 1, 1],
            IP_A,
            17,
            &udp4([192, 168, 1, 1], IP_A, 53, 53123, &resp),
        ),
    );
    // AAAA + MX + TXT + SOA + PTR + SRV answers.
    let q6 = dns_question(&dns_name("example.com"), 255, 1);
    let mut any = dns_header(0x0002, 0x8180, 1, 6, 0, 0);
    any.extend_from_slice(&q6);
    any.extend_from_slice(&dns_rr(&dns_ptr(12), 28, 1, 60, &IP6_B));
    let mut mx = 10u16.to_be_bytes().to_vec();
    mx.extend_from_slice(&[4, b'm', b'a', b'i', b'l']);
    mx.extend_from_slice(&dns_ptr(12));
    any.extend_from_slice(&dns_rr(&dns_ptr(12), 15, 1, 60, &mx));
    any.extend_from_slice(&dns_rr(
        &dns_ptr(12),
        16,
        1,
        60,
        &[
            11, b'v', b'=', b's', b'p', b'f', b'1', b' ', b'-', b'a', b'l', b'l',
        ],
    ));
    let mut soa = [2, b'n', b's'].to_vec();
    soa.extend_from_slice(&dns_ptr(12));
    soa.extend_from_slice(&[5, b'a', b'd', b'm', b'i', b'n']);
    soa.extend_from_slice(&dns_ptr(12));
    for v in [2024010101u32, 7200, 3600, 1209600, 300] {
        soa.extend_from_slice(&v.to_be_bytes());
    }
    any.extend_from_slice(&dns_rr(&dns_ptr(12), 6, 1, 60, &soa));
    any.extend_from_slice(&dns_rr(
        &dns_name("34.216.184.93.in-addr.arpa"),
        12,
        1,
        60,
        &dns_ptr(12),
    ));
    let mut srv = Vec::new();
    for v in [10u16, 20, 5060] {
        srv.extend_from_slice(&v.to_be_bytes());
    }
    srv.extend_from_slice(&[3, b's', b'i', b'p']);
    srv.extend_from_slice(&dns_ptr(12));
    any.extend_from_slice(&dns_rr(&dns_name("_sip._udp.example.com"), 33, 1, 60, &srv));
    let any_frame = eth(
        MAC_A,
        MAC_B,
        0x0800,
        &ipv4(
            [192, 168, 1, 1],
            IP_A,
            17,
            &udp4([192, 168, 1, 1], IP_A, 53, 53124, &any),
        ),
    );
    // Referral: authority NS records and an additional A glue record, plus an
    // unknown record type (HTTPS) as raw data.
    let mut ref_msg = dns_header(0x0009, 0x8180, 1, 1, 1, 1);
    ref_msg.extend_from_slice(&dns_question(&dns_name("example.com"), 65, 1));
    ref_msg.extend_from_slice(&dns_rr(
        &dns_ptr(12),
        65,
        1,
        60,
        &[0, 1, 0, 1, 0, 6, 2, b'h', b'2', 2, b'h', b'3'],
    ));
    let mut ns_rdata = vec![3, b'n', b's', b'1'];
    ns_rdata.extend_from_slice(&dns_ptr(12));
    ref_msg.extend_from_slice(&dns_rr(&dns_ptr(12), 2, 1, 3600, &ns_rdata));
    ref_msg.extend_from_slice(&dns_rr(
        &[[3u8, b'n', b's', b'1'].as_slice(), &dns_ptr(12)].concat(),
        1,
        1,
        3600,
        &[192, 0, 2, 53],
    ));
    let ref_frame = eth(
        MAC_A,
        MAC_B,
        0x0800,
        &ipv4(
            [192, 168, 1, 1],
            IP_A,
            17,
            &udp4([192, 168, 1, 1], IP_A, 53, 53126, &ref_msg),
        ),
    );
    // NXDOMAIN with no answers.
    let nx = [
        dns_header(0x0003, 0x8183, 1, 0, 0, 0),
        dns_question(&dns_name("nope.invalid"), 1, 1),
    ]
    .concat();
    let nx_frame = eth(
        MAC_A,
        MAC_B,
        0x0800,
        &ipv4(
            [192, 168, 1, 1],
            IP_A,
            17,
            &udp4([192, 168, 1, 1], IP_A, 53, 53125, &nx),
        ),
    );
    // mDNS on 5353 with a root query.
    let mdns = [
        dns_header(0, 0, 1, 0, 0, 0),
        dns_question(&[0], 255, 0x8001),
    ]
    .concat();
    let mdns_frame = eth(
        [0x01, 0x00, 0x5e, 0, 0, 0xfb],
        MAC_A,
        0x0800,
        &ipv4(
            IP_A,
            [224, 0, 0, 251],
            17,
            &udp4(IP_A, [224, 0, 0, 251], 5353, 5353, &mdns),
        ),
    );
    f(
        "dns",
        vec![
            query_frame,
            resp_frame,
            any_frame,
            ref_frame,
            nx_frame,
            mdns_frame,
        ],
    )
}

fn dhcp_fixture() -> Fixture {
    let discover = [
        dhcp_opt(53, &[1]),
        dhcp_opt(61, &[[1u8].as_slice(), &MAC_A].concat()),
        dhcp_opt(12, b"laptop"),
        dhcp_opt(55, &[1, 3, 6, 15, 28]),
        dhcp_opt(57, &[0x05, 0xdc]),
        vec![255],
    ]
    .concat();
    let discover_frame = eth(
        MAC_BCAST,
        MAC_A,
        0x0800,
        &ipv4(
            [0; 4],
            [255; 4],
            17,
            &udp4(
                [0; 4],
                [255; 4],
                68,
                67,
                &dhcp(1, 0xabcd1234, MAC_A, [0; 4], &discover),
            ),
        ),
    );
    let offer = [
        dhcp_opt(53, &[2]),
        dhcp_opt(54, &[192, 168, 1, 1]),
        dhcp_opt(51, &86400u32.to_be_bytes()),
        dhcp_opt(1, &[255, 255, 255, 0]),
        dhcp_opt(3, &[192, 168, 1, 1]),
        dhcp_opt(6, &[8, 8, 8, 8, 1, 1, 1, 1]),
        dhcp_opt(15, b"lan"),
        dhcp_opt(58, &43200u32.to_be_bytes()),
        dhcp_opt(59, &75600u32.to_be_bytes()),
        dhcp_opt(28, &[192, 168, 1, 255]),
        vec![255, 0, 0, 0],
    ]
    .concat();
    let offer_frame = eth(
        MAC_A,
        MAC_B,
        0x0800,
        &ipv4(
            [192, 168, 1, 1],
            [255; 4],
            17,
            &udp4(
                [192, 168, 1, 1],
                [255; 4],
                67,
                68,
                &dhcp(2, 0xabcd1234, MAC_A, IP_A, &offer),
            ),
        ),
    );
    let request = [
        dhcp_opt(53, &[3]),
        dhcp_opt(50, &IP_A),
        dhcp_opt(54, &[192, 168, 1, 1]),
        dhcp_opt(60, b"MSFT 5.0"),
        dhcp_opt(42, &[192, 168, 1, 1]),
        dhcp_opt(43, &[1, 4, 0xde, 0xad, 0xbe, 0xef]),
        vec![255],
    ]
    .concat();
    let request_frame = eth(
        MAC_BCAST,
        MAC_A,
        0x0800,
        &ipv4(
            [0; 4],
            [255; 4],
            17,
            &udp4(
                [0; 4],
                [255; 4],
                68,
                67,
                &dhcp(1, 0xabcd1234, MAC_A, [0; 4], &request),
            ),
        ),
    );
    let ack = [
        dhcp_opt(53, &[5]),
        dhcp_opt(54, &[192, 168, 1, 1]),
        dhcp_opt(51, &86400u32.to_be_bytes()),
        vec![255],
    ]
    .concat();
    let ack_frame = eth(
        MAC_A,
        MAC_B,
        0x0800,
        &ipv4(
            [192, 168, 1, 1],
            IP_A,
            17,
            &udp4(
                [192, 168, 1, 1],
                IP_A,
                67,
                68,
                &dhcp(2, 0xabcd1234, MAC_A, IP_A, &ack),
            ),
        ),
    );
    f(
        "dhcp",
        vec![discover_frame, offer_frame, request_frame, ack_frame],
    )
}

fn http_fixture() -> Fixture {
    let req = b"GET /index.html HTTP/1.1\r\nHost: example.com\r\nUser-Agent: netscope-test/1.0\r\nAccept: */*\r\nConnection: keep-alive\r\n\r\n";
    let mut t = Tcp::new(52000, 80, PSH | ACK);
    t.seq = 1;
    t.ack = 1;
    let req_frame = eth_ipv4(6, &tcp4(IP_A, IP_B, &t, req));
    let resp = b"HTTP/1.1 200 OK\r\nServer: test\r\nContent-Type: text/html; charset=utf-8\r\nContent-Length: 13\r\n\r\n<html></html>";
    let mut t = Tcp::new(80, 52000, PSH | ACK);
    t.seq = 1;
    t.ack = 1 + req.len() as u32;
    let resp_frame = eth(
        MAC_A,
        MAC_B,
        0x0800,
        &ipv4(IP_B, IP_A, 6, &tcp4(IP_B, IP_A, &t, resp)),
    );
    // POST on a non-standard port, detected by heuristic.
    let post = b"POST /api HTTP/1.1\r\nHost: example.com\r\nContent-Length: 2\r\n\r\n{}";
    let mut t = Tcp::new(52001, 8081, PSH | ACK);
    t.seq = 1;
    t.ack = 1;
    let post_frame = eth_ipv4(6, &tcp4(IP_A, IP_B, &t, post));
    // Continuation: port 80 but no request line.
    let mut t = Tcp::new(80, 52000, ACK);
    t.seq = 100;
    t.ack = 200;
    let cont_frame = eth(
        MAC_A,
        MAC_B,
        0x0800,
        &ipv4(
            IP_B,
            IP_A,
            6,
            &tcp4(IP_B, IP_A, &t, b"more body bytes without headers"),
        ),
    );
    f("http", vec![req_frame, resp_frame, post_frame, cont_frame])
}

fn tls_fixture() -> Fixture {
    let ch = tls_client_hello(
        0x0303,
        &[0x5a; 32],
        &[0x1301, 0x1302, 0x1303, 0xc02b, 0xc02f, 0x00ff],
        &[
            tls_sni("example.com"),
            tls_ext(43, &[4, 0x03, 0x04, 0x03, 0x03]),
            tls_alpn(&["h2", "http/1.1"]),
            tls_ext(10, &[0, 4, 0, 0x1d, 0, 0x17]),
        ],
    );
    let mut t = Tcp::new(53000, 443, PSH | ACK);
    t.seq = 1;
    t.ack = 1;
    let ch_frame = eth_ipv4(6, &tcp4(IP_A, IP_B, &t, &tls_record(22, 0x0301, &ch)));
    let sh = tls_server_hello(
        0x0303,
        0x1301,
        &[
            tls_ext(43, &[0x03, 0x04]),
            tls_ext(51, &[0, 0x1d, 0, 1, 0x42]),
        ],
    );
    let mut server = tls_record(22, 0x0303, &sh);
    server.extend_from_slice(&tls_record(20, 0x0303, &[1]));
    server.extend_from_slice(&tls_record(23, 0x0303, &[0x99; 40]));
    let mut t = Tcp::new(443, 53000, PSH | ACK);
    t.seq = 1;
    t.ack = 200;
    let sh_frame = eth(
        MAC_A,
        MAC_B,
        0x0800,
        &ipv4(IP_B, IP_A, 6, &tcp4(IP_B, IP_A, &t, &server)),
    );
    let alert = tls_record(21, 0x0303, &[1, 0]);
    let mut t = Tcp::new(53000, 443, PSH | ACK);
    t.seq = 200;
    t.ack = 300;
    let alert_frame = eth_ipv4(6, &tcp4(IP_A, IP_B, &t, &alert));
    // TLS 1.2 style: certificate handshake, then an encrypted handshake message.
    let cert = tls_handshake(11, &[0, 0, 7, 0, 0, 4, 0x30, 0x82, 0x01, 0x02]);
    let mut v12 = tls_record(22, 0x0303, &cert);
    v12.extend_from_slice(&tls_record(22, 0x0303, &[0xaa; 16]));
    let mut t = Tcp::new(443, 53000, PSH | ACK);
    t.seq = 300;
    t.ack = 210;
    let v12_frame = eth(
        MAC_A,
        MAC_B,
        0x0800,
        &ipv4(IP_B, IP_A, 6, &tcp4(IP_B, IP_A, &t, &v12)),
    );
    // Record split across segments: header says 1000 bytes, only 30 present.
    let mut partial = tls_record(23, 0x0303, &[0; 30]);
    partial[3] = 0x03;
    partial[4] = 0xe8;
    let mut t = Tcp::new(443, 53000, ACK);
    t.seq = 400;
    t.ack = 210;
    let partial_frame = eth(
        MAC_A,
        MAC_B,
        0x0800,
        &ipv4(IP_B, IP_A, 6, &tcp4(IP_B, IP_A, &t, &partial)),
    );
    // Non-TLS bytes on 443.
    let mut t = Tcp::new(53000, 443, PSH | ACK);
    t.seq = 500;
    t.ack = 500;
    let junk_frame = eth_ipv4(6, &tcp4(IP_A, IP_B, &t, b"not tls at all"));
    f(
        "tls",
        vec![
            ch_frame,
            sh_frame,
            alert_frame,
            v12_frame,
            partial_frame,
            junk_frame,
        ],
    )
}

fn malformed_fixture() -> Fixture {
    // Ethernet header only, claims IPv4.
    let eth_only = eth(MAC_B, MAC_A, 0x0800, &[]);
    // IPv4 with IHL = 3.
    let mut ihl3 = eth_ipv4(1, &icmp_echo(true, 1, 1, b"x"));
    ihl3[14] = 0x43;
    // IPv4 version 5.
    let mut v5 = eth_ipv4(1, &icmp_echo(true, 1, 1, b"x"));
    v5[14] = 0x55;
    // IPv4 total length larger than the frame.
    let mut long = Ipv4::new(IP_A, IP_B, 6);
    long.total_len = Some(9000);
    let ip_len_too_big = eth(
        MAC_B,
        MAC_A,
        0x0800,
        &long.build(&tcp4(IP_A, IP_B, &Tcp::new(1, 2, ACK), b"abc")),
    );
    // IPv4 header truncated mid-address.
    let mut trunc = eth_ipv4(6, &tcp4(IP_A, IP_B, &Tcp::new(1, 2, ACK), &[]));
    trunc.truncate(14 + 17);
    // TCP data offset 3.
    let mut bad_off = Tcp::new(1, 2, ACK);
    bad_off.data_offset = Some(3);
    let tcp_off = eth_ipv4(6, &tcp4(IP_A, IP_B, &bad_off, &[]));
    // TCP option with length 0.
    let mut opt0 = Tcp::new(1, 2, ACK);
    opt0.options = vec![2, 0, 0, 0];
    let tcp_opt0 = eth_ipv4(6, &tcp4(IP_A, IP_B, &opt0, &[]));
    // TCP option running past the header.
    let mut optlong = Tcp::new(1, 2, ACK);
    optlong.options = vec![8, 10, 0, 0];
    let tcp_optlong = eth_ipv4(6, &tcp4(IP_A, IP_B, &optlong, &[]));
    // UDP length < 8.
    let mut udp_short = udp4(IP_A, IP_B, 1, 2, b"");
    udp_short[4] = 0;
    udp_short[5] = 3;
    let udp_len = eth_ipv4(17, &udp_short);
    // DNS: pointer loop.
    let mut loop_q = dns_header(1, 0x0100, 1, 0, 0, 0);
    loop_q.extend_from_slice(&[0xc0, 0x0c, 0, 1, 0, 1]);
    let dns_loop = eth_ipv4(17, &udp4(IP_A, IP_B, 1234, 53, &loop_q));
    // DNS: forward pointer.
    let mut fwd = dns_header(2, 0x0100, 1, 0, 0, 0);
    fwd.extend_from_slice(&[
        0xc0, 0x20, 0, 1, 0, 1, 0, 0, 0, 0, 0, 0, 0, 0, 0, 0, 0, 0, 0, 0, 0, 0,
    ]);
    let dns_fwd = eth_ipv4(17, &udp4(IP_A, IP_B, 1234, 53, &fwd));
    // DNS: label runs off the end.
    let mut runoff = dns_header(3, 0x0100, 1, 0, 0, 0);
    runoff.extend_from_slice(&[63, b'a', b'b']);
    let dns_runoff = eth_ipv4(17, &udp4(IP_A, IP_B, 1234, 53, &runoff));
    // DNS: claims 65535 answers.
    let mut counts = dns_header(4, 0x8180, 1, 0xffff, 0xffff, 0xffff);
    counts.extend_from_slice(&dns_question(&dns_name("a.b"), 1, 1));
    let dns_counts = eth_ipv4(17, &udp4(IP_A, IP_B, 1234, 53, &counts));
    // DHCP: truncated fixed header.
    let dhcp_short = eth_ipv4(17, &udp4(IP_A, IP_B, 68, 67, &[1, 1, 6, 0, 1, 2, 3]));
    // DHCP: option length past end.
    let dhcp_opt_over = eth_ipv4(
        17,
        &udp4(IP_A, IP_B, 68, 67, &dhcp(1, 1, MAC_A, [0; 4], &[53, 9, 1])),
    );
    // TLS: handshake length beyond record; extension length beyond hello.
    let mut bad_hs = tls_record(22, 0x0303, &[1, 0xff, 0xff, 0xff, 3, 3]);
    bad_hs.truncate(11);
    let mut t = Tcp::new(1, 443, PSH | ACK);
    t.seq = 1;
    let tls_hs = eth_ipv4(6, &tcp4(IP_A, IP_B, &t, &bad_hs));
    let mut ch = tls_client_hello(0x0303, &[], &[0x1301], &[tls_ext(0, &[0xff, 0xff, 0, 0])]);
    let ch_len = ch.len();
    ch[ch_len - 3] = 0xff; // corrupt extension length
    let tls_ext_bad = eth_ipv4(6, &tcp4(IP_A, IP_B, &t, &tls_record(22, 0x0303, &ch)));
    // ICMPv6 option with length 0.
    let mut ns = vec![0; 4];
    ns.extend_from_slice(&IP6_B);
    ns.extend_from_slice(&[1, 0, 1, 2, 3, 4, 5, 6]);
    let icmpv6_opt0 = eth(
        MAC_B,
        MAC_A,
        0x86dd,
        &ipv6(IP6_A, IP6_B, 58, 255, &icmpv6(IP6_A, IP6_B, 135, 0, &ns)),
    );
    // IPv6 extension header chain that runs off the end.
    let ipv6_ext_trunc = eth(
        MAC_B,
        MAC_A,
        0x86dd,
        &ipv6(IP6_A, IP6_B, 0, 64, &[17, 5, 0]),
    );
    // ARP truncated.
    let arp_trunc = eth(
        MAC_BCAST,
        MAC_A,
        0x0806,
        &[0, 1, 0x08, 0x00, 6, 4, 0, 1, 1, 2, 3],
    );
    // VLAN tag with nothing after it.
    let vlan_trunc = eth(MAC_B, MAC_A, 0x8100, &[0x00, 0x64]);
    // Empty frame.
    let empty = Vec::new();
    // IPv4 fragment exceeding the maximum datagram size.
    let mut huge = Ipv4::new(IP_A, IP_B, 17);
    huge.id = 0x9999;
    huge.df = false;
    huge.mf = false;
    huge.frag_off = 0x1fff;
    let frag_huge = eth(MAC_B, MAC_A, 0x0800, &huge.build(&[0; 16]));
    f(
        "malformed",
        vec![
            eth_only,
            ihl3,
            v5,
            ip_len_too_big,
            trunc,
            tcp_off,
            tcp_opt0,
            tcp_optlong,
            udp_len,
            dns_loop,
            dns_fwd,
            dns_runoff,
            dns_counts,
            dhcp_short,
            dhcp_opt_over,
            tls_hs,
            tls_ext_bad,
            icmpv6_opt0,
            ipv6_ext_trunc,
            arp_trunc,
            vlan_trunc,
            empty,
            frag_huge,
        ],
    )
}

fn null_fixture() -> Fixture {
    let mut frames = Vec::new();
    let mut f4 = 2u32.to_le_bytes().to_vec();
    f4.extend_from_slice(&ipv4(
        [127, 0, 0, 1],
        [127, 0, 0, 1],
        1,
        &icmp_echo(true, 9, 9, b"lo"),
    ));
    frames.push(f4);
    let mut f6 = 24u32.to_le_bytes().to_vec();
    let lo6 = [0, 0, 0, 0, 0, 0, 0, 0, 0, 0, 0, 0, 0, 0, 0, 1];
    f6.extend_from_slice(&ipv6(
        lo6,
        lo6,
        58,
        64,
        &icmpv6(lo6, lo6, 128, 0, &[0, 1, 0, 1]),
    ));
    frames.push(f6);
    Fixture {
        name: "null_loopback",
        link_type: 0,
        frames,
        times: None,
    }
}

fn all() -> Vec<Fixture> {
    vec![
        link_layer(),
        ipv4_fixture(),
        ipv6_fixture(),
        tcp_udp_fixture(),
        dns_fixture(),
        dhcp_fixture(),
        http_fixture(),
        tls_fixture(),
        malformed_fixture(),
        null_fixture(),
        streams_fixture(),
        tcp_analysis_fixture(),
        desegment_fixture(),
        tls_desegment_fixture(),
    ]
}

/// One segment of a connection between `IP_A` and `IP_B`.
fn segment(out: bool, sport: u16, dport: u16, seq: u32, ack: u32, flags: u16, data: &[u8]) -> Vec<u8> {
    segment_with(out, sport, dport, seq, ack, flags, 65535, data)
}

fn segment_with(
    out: bool,
    sport: u16,
    dport: u16,
    seq: u32,
    ack: u32,
    flags: u16,
    window: u16,
    data: &[u8],
) -> Vec<u8> {
    let mut t = if out {
        Tcp::new(sport, dport, flags)
    } else {
        Tcp::new(dport, sport, flags)
    };
    t.seq = seq;
    t.ack = ack;
    t.window = window;
    if out {
        eth(MAC_B, MAC_A, 0x0800, &ipv4(IP_A, IP_B, 6, &tcp4(IP_A, IP_B, &t, data)))
    } else {
        eth(MAC_A, MAC_B, 0x0800, &ipv4(IP_B, IP_A, 6, &tcp4(IP_B, IP_A, &t, data)))
    }
}

/// Ordinary conversations: two interleaved connections, a reused port, two
/// UDP flows and an IPv6 handshake.
fn streams_fixture() -> Fixture {
    let first = |out, seq, ack, flags, data: &[u8]| segment(out, 40000, 5001, seq, ack, flags, data);
    let other = |out, seq, ack, flags| segment(out, 40001, 5001, seq, ack, flags, b"");
    let datagram = |out: bool, sport: u16, data: &[u8]| {
        if out {
            eth(MAC_B, MAC_A, 0x0800, &ipv4(IP_A, IP_B, 17, &udp4(IP_A, IP_B, sport, 9, data)))
        } else {
            eth(MAC_A, MAC_B, 0x0800, &ipv4(IP_B, IP_A, 17, &udp4(IP_B, IP_A, 9, sport, data)))
        }
    };
    let six = |out: bool, seq: u32, ack: u32, flags: u16| {
        let (src, dst) = if out { (IP6_A, IP6_B) } else { (IP6_B, IP6_A) };
        let mut t = if out {
            Tcp::new(40000, 5001, flags)
        } else {
            Tcp::new(5001, 40000, flags)
        };
        t.seq = seq;
        t.ack = ack;
        let segment = t.build(&pseudo_v6(src, dst, 6, 0), b"");
        let packet = ipv6(src, dst, 6, 64, &segment);
        if out {
            eth(MAC_B, MAC_A, 0x86dd, &packet)
        } else {
            eth(MAC_A, MAC_B, 0x86dd, &packet)
        }
    };
    f(
        "streams",
        vec![
            first(true, 1000, 0, SYN, b""),
            first(false, 5000, 1001, SYN | ACK, b""),
            first(true, 1001, 5001, ACK, b""),
            first(true, 1001, 5001, PSH | ACK, b"request"),
            first(false, 5001, 1008, PSH | ACK, b"response!"),
            other(true, 2000, 0, SYN),
            other(false, 7000, 2001, SYN | ACK),
            other(true, 2001, 7001, ACK),
            first(true, 1008, 5010, FIN | ACK, b""),
            first(false, 5010, 1009, FIN | ACK, b""),
            first(true, 90000, 0, SYN, b""),
            first(false, 95000, 90001, SYN | ACK, b""),
            first(true, 90001, 95001, ACK, b""),
            datagram(true, 6000, b"q"),
            datagram(false, 6000, b"a"),
            datagram(true, 6001, b"other"),
            six(true, 1000, 0, SYN),
            six(false, 5000, 1001, SYN | ACK),
        ],
    )
}

/// One connection in which each finding of sequence analysis lands on one
/// known frame. Every ten bytes of the client's stream are `0123456789`.
fn tcp_analysis_fixture() -> Fixture {
    let stream = |seq: u32, len: u32| -> Vec<u8> {
        (0..len).map(|k| b'0' + ((seq - 1001 + k) % 10) as u8).collect()
    };
    let out = |seq: u32, len: u32| {
        segment(true, 40000, 5001, seq, 5001, PSH | ACK, &stream(seq, len))
    };
    let back = |ack: u32, window: u16| {
        segment_with(false, 40000, 5001, 5001, ack, ACK, window, b"")
    };
    let frames = vec![
        // The handshake.
        (0, segment(true, 40000, 5001, 1000, 0, SYN, b"")),
        (1_000, segment(false, 40000, 5001, 5000, 1001, SYN | ACK, b"")),
        (2_000, segment(true, 40000, 5001, 1001, 5001, ACK, b"")),
        // Ten bytes, resent before the server acknowledged them.
        (10_000, out(1001, 10)),
        (500_000, out(1001, 10)),
        (510_000, back(1011, 65535)),
        // Resent after it did.
        (1_000_000, out(1001, 10)),
        // Ahead of a hole, which is filled half a millisecond later.
        (1_100_000, out(1021, 10)),
        (1_100_500, out(1011, 10)),
        // Ahead of another, which the server keeps asking for.
        (1_200_000, out(1041, 10)),
        (1_210_000, back(1031, 65535)),
        (1_211_000, back(1031, 65535)),
        (1_212_000, back(1031, 65535)),
        (1_213_000, back(1031, 65535)),
        (1_215_000, out(1031, 10)),
        // Five bytes back and five new ones.
        (1_800_000, out(1046, 10)),
        // The server stalls, is probed, and opens a small window.
        (1_810_000, back(1056, 0)),
        (6_000_000, out(1055, 1)),
        (6_100_000, back(1056, 10)),
        (6_200_000, out(1056, 10)),
        // An acknowledgement of bytes that were never captured.
        (6_300_000, back(1166, 65535)),
        (6_400_000, segment(true, 40000, 5001, 1066, 5001, FIN | ACK, b"")),
        (6_500_000, segment(false, 40000, 5001, 5001, 1067, FIN | ACK, b"")),
    ];
    let times = frames.iter().map(|(t, _)| *t).collect();
    Fixture {
        times: Some(times),
        ..f("tcp_analysis", frames.into_iter().map(|(_, b)| b).collect())
    }
}

/// HTTP messages that do not fit in one segment, or share one.
fn desegment_fixture() -> Fixture {
    let mut frames = Vec::new();
    let (mut client, mut server) = (1000u32, 5000u32);
    let mut say = |out: bool, data: &[u8]| {
        if out {
            frames.push(segment(true, 40000, 80, client, server, PSH | ACK, data));
            client += data.len() as u32;
        } else {
            frames.push(segment(false, 40000, 80, server, client, PSH | ACK, data));
            server += data.len() as u32;
        }
    };
    say(true, b"GET /split HTTP/1.1\r\nHost: example.com\r\n\r\n");
    say(false, b"HTTP/1.1 200 OK\r\nContent-Length: 30\r\n\r\n0123456789");
    say(false, b"abcdefghij");
    say(false, b"ABCDEFGHIJ");
    say(true, b"GET /chunked HTTP/1.1\r\nHost: example.com\r\n\r\n");
    say(
        false,
        b"HTTP/1.1 200 OK\r\nTransfer-Encoding: chunked\r\n\r\n10\r\n0123456789abcd",
    );
    say(false, b"ef\r\n0\r\n\r\n");
    say(
        true,
        b"GET /one HTTP/1.1\r\nHost: example.com\r\n\r\nGET /two HTTP/1.1\r\nHost: example.com\r\n\r\n",
    );
    say(false, b"HTTP/1.1 404 Not ");
    say(false, b"Found\r\nContent-Length: 0\r\n\r\n");
    f("desegment", frames)
}

/// TLS records split across segments.
fn tls_desegment_fixture() -> Fixture {
    let hello = tls_record(
        22,
        0x0301,
        &tls_client_hello(0x0303, &[], &[0x1301], &[tls_sni("split.example.com")]),
    );
    let answer = tls_record(22, 0x0303, &tls_server_hello(0x0303, 0x1301, &[]));
    let data = tls_record(23, 0x0303, &[0x55; 40]);
    let mut both = answer;
    both.extend_from_slice(&data[..10]);
    let at = |n: usize| 1000 + n as u32;
    let reply = 5000 + both.len() as u32;
    f(
        "tls_desegment",
        vec![
            segment(true, 40000, 443, at(0), 5000, PSH | ACK, &hello[..3]),
            segment(true, 40000, 443, at(3), 5000, PSH | ACK, &hello[3..40]),
            segment(true, 40000, 443, at(40), 5000, PSH | ACK, &hello[40..]),
            segment(false, 40000, 443, 5000, at(hello.len()), PSH | ACK, &both),
            segment(false, 40000, 443, reply, at(hello.len()), PSH | ACK, &data[10..]),
        ],
    )
}

/// When frame `i` of a fixture was captured.
fn time_of(fx: &Fixture, i: usize) -> Timestamp {
    match &fx.times {
        Some(t) => Timestamp {
            secs: 1_700_000_000 + (t[i] / 1_000_000) as i64,
            nanos: (t[i] % 1_000_000) as u32 * 1000,
        },
        None => ts(i as u32),
    }
}

/// A fixture as a pcapng file.
fn pcapng_fixture(fx: &Fixture) -> Vec<u8> {
    let mut w = Writer::new(Vec::new(), "netscope fixture generator");
    let id = w.interface(fx.link_type, 262_144, "fixture0");
    for (i, f) in fx.frames.iter().enumerate() {
        w.packet(id, time_of(fx, i), f.len() as u32, f);
    }
    w.finish()
}

/// Dissect a fixture once, in frame order, as a capture would.
fn load(name: &str) -> Vec<Frame> {
    let fx = all()
        .into_iter()
        .find(|f| f.name == name)
        .unwrap_or_else(|| panic!("no fixture named {name}"));
    let section = netscope::pcapng::read(&pcapng_fixture(&fx)).expect("read fixture");
    let link = LinkType(i32::from(fx.link_type));
    let mut state = State::new();
    section
        .packets
        .into_iter()
        .enumerate()
        .map(|(i, p)| dissect(link, i as u32 + 1, p.frame, &mut state))
        .collect()
}

fn selected(frames: &[Frame], filter: &str) -> Vec<u32> {
    let test = compile(filter).unwrap_or_else(|e| panic!("{filter}: {}", e.text()));
    frames
        .iter()
        .filter(|f| netscope::filter::eval::matches(&test, f))
        .map(|f| f.number)
        .collect()
}

/// Assert a filter selects exactly these frame numbers.
fn expect(frames: &[Frame], filter: &str, want: &[u32]) {
    let got = selected(frames, filter);
    assert_eq!(got, want, "filter `{filter}` selected the wrong frames");
}

#[test]
fn link_layer_filters() {
    let f = load("link_layer");
    // 12 frames: 4 ARP, VLAN, QinQ, 4 LLC/802.3, unknown ethertype, odd ARP.
    expect(&f, "arp", &[1, 2, 3, 4, 6, 12]);
    expect(&f, "vlan", &[5, 6]);
    expect(&f, "llc", &[7, 8, 9, 10]);
    expect(&f, "eth", &[1, 2, 3, 4, 5, 6, 7, 8, 9, 10, 11, 12]);
    expect(&f, "!eth", &[]);
    expect(&f, "arp.opcode == 1", &[1, 3, 4, 6, 12]);
    expect(&f, "arp.opcode == 2", &[2]);
    expect(&f, "arp.opcode == \"reply\"", &[2]);
    expect(&f, "arp.src.proto_ipv4 == 192.168.1.10", &[1, 4, 6]);
    expect(&f, "arp.addr == 192.168.1.10", &[1, 2, 3, 4, 6]);
    expect(&f, "arp.addr == 192.168.1.0/24", &[1, 2, 3, 4, 6]);
    expect(&f, "eth.dst == ff:ff:ff:ff:ff:ff", &[1, 3, 4]);
    // Frame 2 is the reply, sent from the other host.
    expect(
        &f,
        "eth.src == 00:11:22:33:44:55",
        &[1, 3, 4, 5, 6, 7, 8, 9, 10, 11, 12],
    );
    expect(
        &f,
        "eth.src[0:3] == 00:11:22",
        &[1, 3, 4, 5, 6, 7, 8, 9, 10, 11, 12],
    );
    expect(&f, "eth.src[0:3] == 00:11:23", &[]);
    expect(&f, "vlan.id == 100", &[5]);
    expect(&f, "vlan.id == 5 || vlan.id == 200", &[6]);
    expect(&f, "vlan.priority == 3", &[5]);
    expect(&f, "vlan.dei == true", &[6]);
    expect(&f, "llc.dsap == 0xaa", &[7, 9]);
    expect(&f, "eth.type == 0x0806", &[1, 2, 3, 4, 12]);
    expect(&f, "eth.type == \"ARP\"", &[1, 2, 3, 4, 12]);
    expect(&f, "eth.len", &[7, 8, 9, 10]);
    expect(&f, "arp && vlan", &[6]);
    expect(&f, "arp && !vlan", &[1, 2, 3, 4, 12]);
    expect(&f, "eth.padding", &[1]);
}

#[test]
fn ipv4_filters() {
    let f = load("ipv4");
    expect(&f, "ip", &[1, 2, 3, 4, 5, 6, 7, 8, 9, 10, 11, 12, 13]);
    expect(&f, "icmp", &[1, 2, 3, 7, 8, 9, 10, 11]);
    // Frames 7-10 quote this host's datagram inside an ICMP error, so its
    // address appears in them too; see the multi-occurrence test.
    expect(
        &f,
        "ip.src == 192.168.1.10",
        &[1, 2, 3, 4, 5, 6, 7, 8, 9, 10, 11, 12, 13],
    );
    expect(
        &f,
        "ip.addr == 93.184.216.34",
        &[1, 2, 3, 4, 5, 6, 7, 8, 9, 10, 11, 12, 13],
    );
    expect(
        &f,
        "ip.src == 192.168.1.0/24",
        &[1, 2, 3, 4, 5, 6, 7, 8, 9, 10, 11, 12, 13],
    );
    expect(&f, "ip.src == 10.0.0.0/8", &[]);
    expect(&f, "ip.ttl == 1", &[2]);
    expect(&f, "ip.ttl < 64", &[2]);
    expect(
        &f,
        "ip.ttl >= 64",
        &[1, 3, 4, 5, 6, 7, 8, 9, 10, 11, 12, 13],
    );
    expect(&f, "ip.proto == 1", &[1, 2, 3, 7, 8, 9, 10, 11]);
    expect(&f, "ip.proto == \"ICMP\"", &[1, 2, 3, 7, 8, 9, 10, 11]);
    // Frames 7-10 quote a UDP datagram inside an ICMP error, so they carry a
    // second IPv4 header whose protocol is UDP.
    expect(&f, "ip.proto == 17", &[4, 5, 6, 7, 8, 9, 10]);
    expect(&f, "ip.flags.mf == true", &[4, 5]);
    expect(&f, "ip.frag_offset > 0", &[4, 6]);
    expect(&f, "ip.id == 0x4242", &[4, 5, 6]);
    expect(&f, "ip.options", &[2]);
    expect(&f, "ip.opt.type == 148", &[2]);
    expect(&f, "ip.checksum.status == \"Bad\"", &[3]);
    expect(
        &f,
        "ip.checksum.status == \"Good\"",
        &[1, 2, 4, 5, 6, 7, 8, 9, 10, 11, 12],
    );
    expect(&f, "icmp.type == 8", &[1, 2]);
    expect(&f, "icmp.type == 0", &[3, 11]);
    expect(&f, "icmp.type in {3, 11}", &[7, 8, 9]);
    expect(&f, "icmp.code == 4", &[8]);
    expect(&f, "icmp.mtu == 1500", &[8]);
    expect(&f, "icmp.gateway == 192.168.1.254", &[10]);
    // Frame 6 completes the reassembly, so the datagram's UDP header appears
    // there; frames 7-10 carry a quoted UDP header inside an ICMP error.
    expect(&f, "udp", &[6, 7, 8, 9, 10]);
    expect(&f, "udp.srcport == 4000", &[6, 7, 8, 9, 10]);
    expect(&f, "ip.fragments", &[6]);
    // TSO frame: total length zero with a payload.
    expect(&f, "ip.len_tso", &[13]);
    expect(&f, "ip.len == 0", &[13]);
    expect(&f, "tcp", &[13]);
}

#[test]
fn ipv6_filters() {
    let f = load("ipv6");
    expect(&f, "ipv6", &[1, 2, 3, 4, 5, 6, 7, 8, 9, 10, 11]);
    expect(&f, "icmpv6", &[1, 6, 7, 8, 9, 10]);
    expect(&f, "udp", &[2, 3, 5]);
    expect(
        &f,
        "ipv6.src == fe80::211:22ff:fe33:4455",
        &[1, 2, 3, 4, 5, 6, 11],
    );
    expect(
        &f,
        "ipv6.addr == 2001:db8::1",
        &[1, 2, 3, 4, 5, 6, 7, 8, 9, 10, 11],
    );
    expect(&f, "ipv6.src == fe80::/10", &[1, 2, 3, 4, 5, 6, 11]);
    expect(&f, "ipv6.src == 2001:db8::/32", &[7, 8, 9, 10]);
    expect(&f, "ipv6.hlim == 255", &[6, 7, 8, 9]);
    expect(&f, "ipv6.hopopts", &[2]);
    expect(&f, "ipv6.dstopts", &[2]);
    expect(&f, "ipv6.routing", &[3]);
    expect(&f, "ipv6.routing.type == 0", &[3]);
    expect(&f, "ipv6.fraghdr", &[4, 5]);
    expect(&f, "ipv6.fraghdr.more == true", &[4]);
    expect(&f, "icmpv6.type == 135", &[6]);
    expect(&f, "icmpv6.type in {133, 134, 135, 136}", &[6, 7, 8]);
    expect(&f, "icmpv6.nd.na.flag.s == true", &[7]);
    expect(&f, "icmpv6.opt.mtu == 1500", &[8]);
    expect(&f, "icmpv6.mtu == 1280", &[10]);
    expect(&f, "ipv6.nxt == 59", &[11]);
}

#[test]
fn tcp_and_udp_filters() {
    let f = load("tcp_udp");
    expect(&f, "tcp", &[1, 2, 3, 4, 5, 6, 7, 8, 9]);
    expect(&f, "udp", &[10, 11]);
    expect(&f, "tcp.flags.syn == true", &[1, 2, 5]);
    expect(&f, "tcp.flags.syn == true && tcp.flags.ack == false", &[1]);
    expect(&f, "tcp.flags.reset == true", &[5, 8]);
    expect(&f, "tcp.flags == 0x002", &[1]);
    expect(&f, "tcp.srcport == 51000", &[1, 3, 5, 6, 7, 9]);
    expect(&f, "tcp.port == 5001", &[1, 2, 3, 4, 5, 6, 7, 8, 9]);
    expect(
        &f,
        "tcp.port in {5001, 51000}",
        &[1, 2, 3, 4, 5, 6, 7, 8, 9],
    );
    expect(&f, "tcp.len > 0", &[3]);
    expect(&f, "tcp.seq == 1001", &[3]);
    expect(&f, "tcp.options.mss", &[1, 2, 6]);
    expect(&f, "tcp.options.mss_val == 1460", &[1, 2, 6]);
    expect(&f, "tcp.options.wscale", &[1, 2]);
    expect(&f, "tcp.options.wscale.shift == 7", &[1]);
    expect(&f, "tcp.options.sack_perm", &[1, 2]);
    expect(&f, "tcp.options.sack", &[4]);
    expect(&f, "tcp.options.timestamp", &[1, 3]);
    expect(&f, "tcp.options.timestamp.tsval == 2", &[3]);
    // Frame 7's options are padded to a 32-bit boundary, which the parser
    // reads as End of Option List followed by padding.
    expect(&f, "tcp.options.eol", &[6, 7]);
    expect(&f, "tcp.options.unknown", &[7]);
    expect(&f, "tcp.window_size_value == 0", &[5]);
    expect(&f, "tcp.urgent_pointer > 0", &[5]);
    expect(&f, "udp.port == 9", &[10, 11]);
    expect(&f, "udp.checksum.status == \"Not present\"", &[11]);
    expect(&f, "udp.length == 19", &[10, 11]);
    expect(&f, "tcp contains \"payload\"", &[3]);
    expect(&f, "udp contains \"udp payload\"", &[10]);
}

#[test]
fn dns_filters() {
    let f = load("dns");
    expect(&f, "dns", &[1, 2, 3, 4, 5, 6]);
    expect(&f, "dns.flags.response == true", &[2, 3, 4, 5]);
    expect(&f, "dns.flags.response == false", &[1, 6]);
    expect(&f, "dns.qry.name == \"www.example.com\"", &[1, 2]);
    expect(&f, "dns.qry.name contains \"example\"", &[1, 2, 3, 4]);
    expect(&f, "dns.qry.name matches \"^www\\\\.\"", &[1, 2]);
    expect(
        &f,
        "dns.qry.name matches \"\\\\.(com|invalid)$\"",
        &[1, 2, 3, 4, 5],
    );
    expect(&f, "dns.qry.type == 1", &[1, 2, 5]);
    expect(&f, "dns.qry.type == \"ANY\"", &[3, 6]);
    expect(&f, "dns.a == 93.184.216.34", &[2]);
    expect(&f, "dns.aaaa == 2001:db8::1", &[3]);
    expect(&f, "dns.cname == \"cdn.example.com\"", &[2]);
    expect(&f, "dns.flags.rcode == 3", &[5]);
    expect(&f, "dns.count.answers > 1", &[2, 3]);
    expect(&f, "dns.resp.ttl < 100", &[2, 3, 4]);
    expect(&f, "dns.ns", &[4]);
    expect(&f, "dns.soa.serial_number == 2024010101", &[3]);
    expect(&f, "dns.srv.port == 5060", &[3]);
    expect(&f, "dns.mx.preference == 10", &[3]);
    expect(&f, "dns.txt contains \"spf1\"", &[3]);
    expect(&f, "udp.port == 5353", &[6]);
    expect(&f, "dns.id == 0x1a2b", &[1, 2]);
}

#[test]
fn dhcp_http_and_tls_filters() {
    let d = load("dhcp");
    expect(&d, "dhcp", &[1, 2, 3, 4]);
    expect(&d, "dhcp.option.dhcp == 1", &[1]);
    expect(&d, "dhcp.option.dhcp == \"Request\"", &[3]);
    expect(&d, "dhcp.ip.your == 192.168.1.10", &[2, 4]);
    expect(&d, "dhcp.hw.mac_addr == 00:11:22:33:44:55", &[1, 2, 3, 4]);
    expect(&d, "dhcp.option.hostname == \"laptop\"", &[1]);
    expect(&d, "dhcp.option.domain_name_server == 8.8.8.8", &[2]);
    expect(&d, "dhcp.option.ip_address_lease_time == 86400", &[2, 4]);
    expect(&d, "dhcp.option.vendor_class_id contains \"MSFT\"", &[3]);
    expect(&d, "dhcp.id == 0xabcd1234", &[1, 2, 3, 4]);

    let h = load("http");
    expect(&h, "http", &[1, 2, 3, 4]);
    expect(&h, "http.request", &[1, 3]);
    expect(&h, "http.response", &[2]);
    expect(&h, "http.request.method == \"GET\"", &[1]);
    expect(&h, "http.request.method == \"POST\"", &[3]);
    expect(&h, "http.response.code == 200", &[2]);
    expect(&h, "http.host == \"example.com\"", &[1, 3]);
    expect(&h, "http.user_agent contains \"netscope\"", &[1]);
    expect(&h, "http.content_type contains \"html\"", &[2]);
    expect(&h, "http.content_length == 13", &[2]);
    expect(&h, "http.request.uri matches \"^/(index|api)\"", &[1, 3]);
    expect(&h, "tcp.port == 8081", &[3]);

    let t = load("tls");
    expect(&t, "tls", &[1, 2, 3, 4, 5, 6]);
    expect(&t, "tls.handshake.type == 1", &[1]);
    expect(&t, "tls.handshake.type == 2", &[2]);
    expect(
        &t,
        "tls.handshake.extensions_server_name == \"example.com\"",
        &[1],
    );
    expect(
        &t,
        "tls.handshake.extensions_server_name contains \"example\"",
        &[1],
    );
    expect(&t, "tls.handshake.ciphersuite == 0x1301", &[1, 2]);
    expect(&t, "tls.record.content_type == 21", &[3]);
    expect(&t, "tls.alert_message.desc == 0", &[3]);
    expect(&t, "tls.handshake.certificate", &[4]);
    expect(&t, "tls.record.version == 0x0301", &[1]);
    expect(&t, "tls.handshake.extensions_alpn_str == \"h2\"", &[1]);
    expect(&t, "tls.app_data", &[2]);
    expect(&t, "tls.continuation_data", &[5, 6]);
}

#[test]
fn boolean_structure_and_precedence() {
    let f = load("ipv4");
    // || is looser than &&: this is icmp OR (udp AND ip.frag_offset > 0).
    expect(
        &f,
        "icmp || udp && ip.frag_offset > 0",
        &[1, 2, 3, 6, 7, 8, 9, 10, 11],
    );
    expect(&f, "(icmp || udp) && ip.frag_offset > 0", &[6]);
    expect(&f, "!icmp && ip", &[4, 5, 6, 12, 13]);
    expect(&f, "!(icmp || udp)", &[4, 5, 12, 13]);
    // An ICMP error quotes the datagram that caused it, so frames 7-10 do
    // carry a UDP header and `not udp` excludes them.
    expect(&f, "icmp and not udp", &[1, 2, 3, 11]);
    expect(&f, "!!icmp", &[1, 2, 3, 7, 8, 9, 10, 11]);
    expect(&f, "ip && !ip", &[]);
    expect(
        &f,
        "ip || !ip",
        &[1, 2, 3, 4, 5, 6, 7, 8, 9, 10, 11, 12, 13],
    );
}

#[test]
fn multi_occurrence_semantics_are_any_match() {
    // Frame 7 is an ICMP port-unreachable quoting the offending header, so
    // it carries two IPv4 headers with the addresses reversed.
    let f = load("ipv4");
    let quoting = &f[6];
    assert_eq!(quoting.number, 7);
    let count = quoting
        .tree
        .iter()
        .into_iter()
        .filter(|n| n.abbrev() == "ip.src")
        .count();
    assert_eq!(count, 2, "the fixture must carry a quoted header");

    // The outer header of frames 7-10 comes from the far host.
    expect(&f, "ip.src == 93.184.216.34", &[7, 8, 9, 10]);
    // The quoted header inside those errors came from this host, so an
    // any-occurrence match selects every frame, including the four whose
    // outer source is the far host.
    expect(
        &f,
        "ip.src == 192.168.1.10",
        &[1, 2, 3, 4, 5, 6, 7, 8, 9, 10, 11, 12, 13],
    );
    // `!=` is likewise any-occurrence: true when some occurrence differs,
    // which for frames carrying two headers is true of both addresses.
    expect(
        &f,
        "ip.src != 93.184.216.34",
        &[1, 2, 3, 4, 5, 6, 7, 8, 9, 10, 11, 12, 13],
    );
    // Negating the equality is the way to say "no occurrence matches".
    expect(&f, "!(ip.src == 192.168.1.10)", &[]);
}

#[test]
fn malformed_frames_are_filterable() {
    let f = load("malformed");
    let bad = selected(&f, "_ws.malformed");
    assert!(
        bad.len() > 10,
        "expected many malformed frames, got {bad:?}"
    );
    // A frame whose IPv4 header could not be read at all has no `ip` layer;
    // one that failed later keeps the fields it did parse.
    expect(&f, "eth && !ip", &[1, 2, 3, 5, 18, 19, 20, 21]);
    expect(
        &f,
        "ip",
        &[4, 6, 7, 8, 9, 10, 11, 12, 13, 14, 15, 16, 17, 23],
    );
    // Partially parsed layers are still filterable.
    expect(&f, "dns.flags.response == true", &[13]);
    expect(&f, "tcp", &[4, 7, 8, 16, 17]);
}

#[test]
fn invalid_filters_report_message_and_column() {
    // (filter, substring of the message, column it points at)
    let cases: &[(&str, &str, usize)] = &[
        ("", "empty", 0),
        ("tcp.port = 443", "use `==`", 9),
        ("tcp.prot == 443", "did you mean `tcp.port`", 0),
        ("nosuch.field", "unknown field", 0),
        ("tcp.port ==", "ends here", 11),
        ("tcp.port == \"http\"", "expected a number", 12),
        ("ip.src == aa:bb:cc:dd:ee:ff", "IPv4", 10),
        ("eth.src == 10.0.0.1", "MAC", 11),
        ("tcp.port == -1", "unsigned", 12),
        ("tcp.flags.syn > 0", "cannot be used", 0),
        ("ip.src contains \"10\"", "contains", 0),
        ("ip.ttl matches \"6\"", "matches", 0),
        ("tcp == 1", "on its own", 7),
        ("tcp.flags.syn[0] == aa:bb", "no bytes to slice", 0),
        ("eth.src[0:3] == 443", "byte string", 16),
        (
            "dns.qry.name matches \"(\"",
            "invalid regular expression",
            21,
        ),
        ("443 == tcp.port", "field name", 0),
        ("tcp.port == udp.port", "two fields", 12),
        ("(tcp", "`)`", 4),
        ("tcp udp", "after the end", 4),
        ("tcp.port in 80", "`{`", 12),
        ("ip.src == 10.0.0.1 & 1", "use `&&`", 19),
        ("tcp && \"unterminated", "unterminated", 7),
    ];
    for (filter, want_message, want_column) in cases {
        let err = compile(filter)
            .err()
            .unwrap_or_else(|| panic!("`{filter}` should not compile"));
        assert!(
            err.message.contains(want_message),
            "`{filter}`: message `{}` should contain `{want_message}`",
            err.message
        );
        assert_eq!(
            err.column, *want_column,
            "`{filter}`: column of `{}`",
            err.message
        );
    }
}

#[test]
fn every_registered_field_can_be_compiled() {
    // A filter naming any registered field must at least type-check with a
    // literal of its own kind, so the registry and the type checker cannot
    // drift apart.
    let mut failures = Vec::new();
    for def in registry::all() {
        let filter = match def.kind {
            FieldKind::Protocol | FieldKind::Group => def.abbrev.to_string(),
            FieldKind::Bool => format!("{} == true", def.abbrev),
            FieldKind::Unsigned(_) | FieldKind::Enum(..) => format!("{} == 1", def.abbrev),
            FieldKind::Signed => format!("{} == -1", def.abbrev),
            FieldKind::Str => format!("{} == \"x\"", def.abbrev),
            FieldKind::Bytes => format!("{} == aa:bb", def.abbrev),
            FieldKind::Ipv4 => format!("{} == 10.0.0.1", def.abbrev),
            FieldKind::Ipv6 => format!("{} == 2001:db8::1", def.abbrev),
            FieldKind::Mac => format!("{} == aa:bb:cc:dd:ee:ff", def.abbrev),
        };
        if let Err(e) = compile(&filter) {
            failures.push(format!("{filter}: {}", e.text()));
        }
    }
    assert!(failures.is_empty(), "{failures:#?}");
}

fn check(frame: &Frame, context: &str) {
    // Depth 0 nodes must start with `frame`.
    let roots: Vec<&str> = frame.tree.roots().into_iter().map(|n| n.abbrev()).collect();
    assert_eq!(roots.first(), Some(&"frame"), "{context}: first layer");

    let mut stack: Vec<(u8, std::ops::Range<usize>, &str, u8)> = Vec::new();
    for node in frame.tree.iter() {
        let r = node.range();
        let abbrev = node.abbrev();
        assert!(r.start <= r.end, "{context}: {abbrev} inverted range {r:?}");

        let source = frame.source(node.source());
        assert!(
            source.is_some(),
            "{context}: {abbrev} references missing source {}",
            node.source()
        );
        let len = source.map_or(0, <[u8]>::len);
        assert!(
            r.end <= len,
            "{context}: {abbrev} range {r:?} past source {} length {len}",
            node.source()
        );

        // Every label renders without panicking and is non-empty.
        let label = registry::label(&node, source.unwrap_or(&[]));
        assert!(!label.is_empty(), "{context}: {abbrev} empty label");

        while stack.last().is_some_and(|(d, _, _, _)| *d >= node.depth()) {
            stack.pop();
        }
        if let Some((_, parent_range, parent, parent_source)) = stack.last() {
            // Zero-length nodes are generated fields with no bytes of their
            // own; a child in another data source (reassembly) is unrelated
            // to its parent's range.
            if !r.is_empty() && !parent_range.is_empty() && *parent_source == node.source() {
                assert!(
                    r.start >= parent_range.start && r.end <= parent_range.end,
                    "{context}: {abbrev} {r:?} escapes parent {parent} {parent_range:?}"
                );
            }
        }
        stack.push((node.depth(), r, abbrev, node.source()));
    }
}

fn raw(bytes: &[u8]) -> RawFrame {
    RawFrame {
        ts: Timestamp {
            secs: 1_700_000_000,
            nanos: 0,
        },
        caplen: bytes.len() as u32,
        orig_len: bytes.len() as u32,
        bytes: bytes.to_vec(),
    }
}

#[test]
fn fixture_frames_satisfy_tree_invariants() {
    for fx in all() {
        let link = LinkType(i32::from(fx.link_type));
        let mut state = State::new();
        for (i, bytes) in fx.frames.iter().enumerate() {
            let frame = dissect(link, i as u32 + 1, raw(bytes), &mut state);
            check(&frame, &format!("{} frame {}", fx.name, i + 1));
        }
    }
}

#[test]
fn every_truncation_of_every_fixture_frame_holds() {
    for fx in all() {
        let link = LinkType(i32::from(fx.link_type));
        for (i, bytes) in fx.frames.iter().enumerate() {
            // A fresh State per truncation so fragments do not interact.
            for cut in 0..=bytes.len() {
                let mut state = State::new();
                let frame = dissect(link, 1, raw(&bytes[..cut]), &mut state);
                check(&frame, &format!("{} frame {} cut to {cut}", fx.name, i + 1));
            }
        }
    }
}

#[test]
fn single_byte_corruptions_hold() {
    // Flip bytes in the largest frames: length fields, type fields, offsets.
    for fx in all() {
        let link = LinkType(i32::from(fx.link_type));
        for (i, bytes) in fx.frames.iter().enumerate().take(4) {
            for pos in 0..bytes.len().min(80) {
                for value in [0x00u8, 0x01, 0x7f, 0x80, 0xff] {
                    let mut corrupt = bytes.clone();
                    corrupt[pos] = value;
                    let mut state = State::new();
                    let frame = dissect(link, 1, raw(&corrupt), &mut state);
                    check(
                        &frame,
                        &format!("{} frame {} byte {pos}={value:#04x}", fx.name, i + 1),
                    );
                }
            }
        }
    }
}

/// Checksum validation is a reporting setting, not a parsing one.
///
/// Turning it off must not change which bytes are parsed or how the layers
/// nest. It does change what is *reported*: a verified-bad checksum raises an
/// expert finding, and a finding is a node. So the comparison is over every
/// node that is not part of an expert record - those must match exactly in
/// name, range, source and depth - while the expert nodes themselves are
/// allowed to appear only when validation is on.
#[test]
fn checksum_validation_changes_reporting_and_nothing_else() {
    const STATUS_FIELDS: &[&str] = &[
        "ip.checksum.status",
        "icmp.checksum.status",
        "icmpv6.checksum.status",
        "tcp.checksum.status",
        "udp.checksum.status",
    ];
    // A status that says nothing was verified.
    const UNVERIFIED: u64 = 2;
    const NOT_PRESENT: u64 = 3;

    fn is_expert(abbrev: &str) -> bool {
        matches!(
            abbrev,
            "_ws.expert" | "_ws.expert.severity" | "_ws.expert.group" | "_ws.checksum.bad"
        )
    }

    let mut verified_any = false;
    for fx in all() {
        let link = LinkType(i32::from(fx.link_type));
        let mut on = State::new();
        let mut off = State::new();
        for (i, bytes) in fx.frames.iter().enumerate() {
            let n = i as u32 + 1;
            let a = dissect_with(link, n, raw(bytes), &mut on, Options::default());
            let b = dissect_with(link, n, raw(bytes), &mut off, Options::no_checksums());

            // Everything that is not an expert record must be identical.
            let shape = |t: &Tree| {
                t.iter()
                    .into_iter()
                    .filter(|node| !is_expert(node.abbrev()))
                    .map(|node| (node.abbrev(), node.range(), node.source(), node.depth()))
                    .collect::<Vec<_>>()
            };
            let (sa, sb) = (shape(&a.tree), shape(&b.tree));
            assert_eq!(sa.len(), sb.len(), "{}#{n}: node count changed", fx.name);
            for (x, y) in sa.iter().zip(&sb) {
                assert_eq!(x, y, "{}#{n}: node differs", fx.name);
            }
            // With validation off there is nothing for a checksum to report.
            assert!(
                !b.tree
                    .iter()
                    .into_iter()
                    .any(|node| node.abbrev() == "_ws.checksum.bad"),
                "{}#{n}: checksum finding raised with validation off",
                fx.name
            );

            // With validation off, no status is ever Good or Bad.
            for node in b.tree.iter() {
                if STATUS_FIELDS.contains(&node.abbrev()) {
                    let v = node.unsigned().unwrap_or(UNVERIFIED);
                    assert!(
                        v == UNVERIFIED || v == NOT_PRESENT,
                        "{}#{n}: {} reported {v} with validation off",
                        fx.name,
                        node.abbrev()
                    );
                }
            }
            // With it on, the fixtures do produce verdicts - otherwise this
            // test would pass against a dissector that never verifies.
            for node in a.tree.iter() {
                if STATUS_FIELDS.contains(&node.abbrev())
                    && node.unsigned().is_some_and(|v| v < UNVERIFIED)
                {
                    verified_any = true;
                }
            }
        }
    }
    assert!(
        verified_any,
        "no fixture produced a checksum verdict with validation on"
    );
    let _ = registry::all();
}

/// Registered fields that are legitimately never emitted as tree rows:
/// filter-only aliases and payload fields the filter engine derives from a
/// layer's extent, plus formats the fixtures do not exercise.
const ALLOWED_UNUSED: &[&str] = &[
    "eth.addr",
    "arp.addr",
    "ip.addr",
    "ipv6.addr",
    "udp.port",
    "tcp.port",
    "udp.payload",
    "tcp.payload",
    "arp.dst.proto",
    "arp.src.proto",
    "ipv6.routing.addr",
    "icmp.pointer",
    "icmpv6.pointer",
    "ip.opt.ptr",
    "ip.opt.route",
    "tls.record.opaque_type",
    "tls.handshake.certificate",
    "tls.handshake.certificate_length",
    "tls.handshake.certificates_length",
    "dhcp.hw.addr_padding",
];

#[test]
fn every_emitted_field_is_registered_and_every_field_is_emitted() {
    let mut emitted = BTreeSet::new();
    let mut unknown = BTreeSet::new();
    for fx in all() {
        for frame in load(fx.name) {
            for n in frame.tree.iter() {
                let abbrev = n.abbrev();
                emitted.insert(abbrev);
                if registry::lookup(abbrev).is_none() {
                    unknown.insert(abbrev);
                }
            }
        }
    }
    assert!(unknown.is_empty(), "emitted but unregistered: {unknown:?}");

    let unused: Vec<&str> = registry::all()
        .iter()
        .map(|d| d.abbrev)
        .filter(|a| !emitted.contains(a) && !ALLOWED_UNUSED.contains(a))
        .collect();
    assert!(
        unused.is_empty(),
        "registered but never emitted by any fixture: {unused:?}"
    );
}

#[test]
fn fixtures_parse_back() {
    for fx in all() {
        let bytes = pcapng_fixture(&fx);
        let section = netscope::pcapng::read(&bytes).expect("parse");
        assert_eq!(section.packets.len(), fx.frames.len(), "{}", fx.name);
        assert_eq!(section.interfaces[0].link_type, fx.link_type);
        for (i, p) in section.packets.iter().enumerate() {
            assert_eq!(&*p.frame.bytes, &fx.frames[i][..], "{} frame {i}", fx.name);
            // Fixtures without explicit times are one second apart.
            if fx.times.is_none() {
                assert_eq!(p.frame.ts, ts(i as u32), "{} frame {i}", fx.name);
            }
        }
    }
}

#[test]
fn both_directions_of_a_connection_are_one_stream() {
    let f = load("streams");
    // Frames 1-5 and 9-10 are one connection on client port 40000: SYN,
    // SYN/ACK, ACK, data out, data back, FIN, FIN. Five of those seven run
    // client to server and two run the other way.
    expect(&f, "tcp.stream == 0", &[1, 2, 3, 4, 5, 9, 10]);
    expect(
        &f,
        "tcp.stream == 0 && ip.src == 192.168.1.10",
        &[1, 3, 4, 9],
    );
    expect(
        &f,
        "tcp.stream == 0 && ip.src == 93.184.216.34",
        &[2, 5, 10],
    );
}

#[test]
fn concurrent_connections_are_separate_streams() {
    let f = load("streams");
    // Interleaved in the capture, but a different client port.
    expect(&f, "tcp.stream == 1", &[6, 7, 8]);
}

#[test]
fn a_reused_port_starts_a_new_stream() {
    let f = load("streams");
    // Frames 11-13 have exactly the same 5-tuple as stream 0, after it
    // closed. Grouping by 5-tuple alone would splice them onto stream 0 and
    // Follow Stream would show two unrelated conversations as one.
    expect(&f, "tcp.stream == 2", &[11, 12, 13]);
    expect(
        &f,
        "tcp.srcport == 40000 || tcp.dstport == 40000",
        &[1, 2, 3, 4, 5, 9, 10, 11, 12, 13, 17, 18],
    );
}

#[test]
fn udp_flows_are_streams_too() {
    let f = load("streams");
    expect(&f, "udp.stream == 3", &[14, 15]);
    expect(&f, "udp.stream == 4", &[16]);
    // TCP and UDP ids come from one sequence, so a udp.stream value never
    // collides with a tcp.stream value.
    expect(&f, "tcp.stream == 3", &[]);
    expect(&f, "udp.stream == 0", &[]);
}

#[test]
fn ipv6_conversations_are_tracked_the_same_way() {
    let f = load("streams");
    expect(&f, "tcp.stream == 5", &[17, 18]);
    expect(&f, "ipv6 && tcp", &[17, 18]);
}

#[test]
fn every_transport_frame_has_a_stream() {
    let f = load("streams");
    let transport = compile("tcp || udp").expect("compile");
    let has_id = compile("tcp.stream || udp.stream").expect("compile");
    for frame in &f {
        if netscope::filter::eval::matches(&transport, frame) {
            assert!(
                netscope::filter::eval::matches(&has_id, frame),
                "frame {} has a transport layer but no stream id",
                frame.number
            );
        }
    }
}

#[test]
fn stream_ids_are_dense_and_start_at_zero() {
    // Ids are handed out in first-seen order with no gaps, so they read as
    // "the nth conversation in this capture" rather than as opaque handles.
    let f = load("streams");
    let mut seen: Vec<u64> = Vec::new();
    for frame in &f {
        for node in frame.tree.iter() {
            if matches!(node.abbrev(), "tcp.stream" | "udp.stream") {
                if let Some(v) = node.unsigned() {
                    if !seen.contains(&v) {
                        seen.push(v);
                    }
                }
            }
        }
    }
    seen.sort_unstable();
    assert_eq!(seen, vec![0, 1, 2, 3, 4, 5]);
}

#[test]
fn a_frame_with_no_network_layer_has_no_stream() {
    // The ICMP fixtures quote a transport header inside an error. The quoted
    // header is dissected, but it belongs to the original datagram, not to a
    // conversation this capture is tracking either end of.
    let f = load("link_layer");
    let has_id = compile("tcp.stream || udp.stream").expect("compile");
    assert!(
        !f.iter().any(|fr| netscope::filter::eval::matches(&has_id, fr)),
        "link-layer fixture has no transport conversations"
    );
}

/// The `tcp_analysis` fixture is one connection built so that each finding
/// lands on exactly one known frame. Its frames carry explicit microsecond
/// times, because telling an out-of-order segment from a retransmission is a
/// question of milliseconds.

#[test]
fn each_finding_lands_on_the_frame_built_for_it() {
    let f = load("tcp_analysis");
    // Frame 5 resends frame 4's bytes after 490 ms, before the server has
    // acknowledged them.
    expect(&f, "tcp.analysis.retransmission", &[5]);
    // Frame 7 resends bytes the server acknowledged in frame 6.
    expect(&f, "tcp.analysis.spurious_retransmission", &[7]);
    // Frame 9 fills the hole frame 8 skipped, half a millisecond later:
    // the network reordered them rather than the sender resending.
    expect(&f, "tcp.analysis.out_of_order", &[9]);
    // Frame 8 jumps ahead of the gap frame 9 later fills; frame 10 jumps
    // over bytes the capture never sees at all.
    expect(&f, "tcp.analysis.lost_segment", &[8, 10]);
    // Frame 15 resends 2 ms after the server's third duplicate ACK.
    expect(&f, "tcp.analysis.fast_retransmission", &[15]);
    expect(&f, "tcp.analysis.duplicate_ack", &[12, 13, 14]);
    expect(&f, "tcp.analysis.overlap", &[16]);
    expect(&f, "tcp.analysis.zero_window", &[17]);
    expect(&f, "tcp.analysis.keep_alive", &[18]);
    expect(&f, "tcp.analysis.window_full", &[20]);
    expect(&f, "tcp.analysis.ack_lost_segment", &[21]);
}

#[test]
fn duplicate_acks_are_numbered_and_point_back() {
    let f = load("tcp_analysis");
    expect(&f, "tcp.analysis.duplicate_ack_num == 1", &[12]);
    expect(&f, "tcp.analysis.duplicate_ack_num == 2", &[13]);
    expect(&f, "tcp.analysis.duplicate_ack_num == 3", &[14]);
    // All three repeat the ACK first sent in frame 11.
    expect(&f, "tcp.analysis.duplicate_ack_frame == 11", &[12, 13, 14]);
}

#[test]
fn ordinary_frames_carry_no_analysis_subtree() {
    let f = load("tcp_analysis");
    // The handshake and the first data segment are unremarkable. Frame 4
    // does have bytes in flight, which is a measurement rather than a
    // finding, so it is excluded here by naming the findings.
    expect(
        &f,
        "tcp && !tcp.analysis.retransmission && !tcp.analysis.spurious_retransmission \
         && !tcp.analysis.out_of_order && !tcp.analysis.lost_segment \
         && !tcp.analysis.fast_retransmission && !tcp.analysis.duplicate_ack \
         && !tcp.analysis.overlap && !tcp.analysis.zero_window \
         && !tcp.analysis.keep_alive && !tcp.analysis.window_full \
         && !tcp.analysis.ack_lost_segment",
        &[1, 2, 3, 4, 6, 11, 19, 22, 23],
    );
}

#[test]
fn a_clean_conversation_produces_no_findings_at_all() {
    // The `streams` fixture is ordinary traffic. If any analysis field
    // fires there, a heuristic is too eager - which is how the fixture's
    // own sequence numbers were found to be wrong.
    let f = load("streams");
    for field in [
        "tcp.analysis.retransmission",
        "tcp.analysis.spurious_retransmission",
        "tcp.analysis.out_of_order",
        "tcp.analysis.lost_segment",
        "tcp.analysis.fast_retransmission",
        "tcp.analysis.duplicate_ack",
        "tcp.analysis.overlap",
        "tcp.analysis.zero_window",
        "tcp.analysis.keep_alive",
        "tcp.analysis.window_full",
        "tcp.analysis.ack_lost_segment",
    ] {
        expect(&f, field, &[]);
    }
}

/// Every fixture numbered as one connection, except the one built for it, must
/// be free of analysis findings. A fixture that accidentally looks like a
/// retransmission storm can hide a real regression behind noise that was
/// always there.
#[test]
fn no_other_fixture_produces_analysis_findings() {
    const FINDINGS: &[&str] = &[
        "tcp.analysis.retransmission",
        "tcp.analysis.spurious_retransmission",
        "tcp.analysis.out_of_order",
        "tcp.analysis.lost_segment",
        "tcp.analysis.fast_retransmission",
        "tcp.analysis.overlap",
        "tcp.analysis.duplicate_ack",
        "tcp.analysis.zero_window",
        "tcp.analysis.window_full",
        "tcp.analysis.keep_alive",
        "tcp.analysis.ack_lost_segment",
    ];
    let mut noise = Vec::new();
    for fx in all() {
        // The segments of these were numbered for their own tests, not as one
        // connection.
        if matches!(
            fx.name,
            "tcp_analysis" | "tcp_udp" | "http" | "tls" | "malformed"
        ) {
            continue;
        }
        let frames = load(fx.name);
        for field in FINDINGS {
            let test = compile(field).expect("compile");
            let hits: Vec<u32> = frames
                .iter()
                .filter(|f| netscope::filter::eval::matches(&test, f))
                .map(|f| f.number)
                .collect();
            if !hits.is_empty() {
                noise.push(format!("{}: {field} on {hits:?}", fx.name));
            }
        }
    }
    assert!(noise.is_empty(), "fixtures are not clean:\n{noise:#?}");
}

/// Expert info: the severity and group attached to each finding, and the
/// worst-of summary the packet list renders.

#[test]
fn findings_carry_a_severity_and_a_group() {
    let f = load("tcp_analysis");
    // A resend is normal on any real network.
    expect(
        &f,
        "tcp.analysis.retransmission && _ws.expert.severity == \"Note\"",
        &[5],
    );
    // A gap or an overlap misleads anyone reading the stream.
    expect(
        &f,
        "tcp.analysis.lost_segment && _ws.expert.severity == \"Warning\"",
        &[8, 10],
    );
    expect(
        &f,
        "tcp.analysis.overlap && _ws.expert.severity == \"Warning\"",
        &[16],
    );
    // Everything the analyser raises is in the Sequence group.
    expect(&f, "_ws.expert && _ws.expert.group != \"Sequence\"", &[]);
}

#[test]
fn severity_is_comparable_so_a_filter_can_rank_frames() {
    // The point of an ordered severity: one filter finds everything worth
    // looking at, without naming each finding.
    let f = load("tcp_analysis");
    expect(
        &f,
        "_ws.expert.severity >= \"Warning\"",
        &[8, 10, 16, 17, 21],
    );
}

#[test]
fn a_bad_checksum_is_an_error_in_the_checksum_group() {
    // The ipv4 fixture's third frame has a deliberately wrong header
    // checksum. Validation is on by default in the library.
    let f = load("ipv4");
    expect(&f, "_ws.checksum.bad", &[3]);
    expect(
        &f,
        "_ws.checksum.bad && _ws.expert.severity == \"Error\" \
         && _ws.expert.group == \"Checksum\"",
        &[3],
    );
}

#[test]
fn a_malformed_frame_is_an_error_in_the_malformed_group() {
    let f = load("malformed");
    let malformed: Vec<u32> = f
        .iter()
        .filter(|fr| fr.tree.first("_ws.malformed").is_some())
        .map(|fr| fr.number)
        .collect();
    assert!(!malformed.is_empty(), "the fixture should have some");
    expect(&f, "_ws.malformed", &malformed);
    expect(
        &f,
        "_ws.malformed && _ws.expert.group == \"Malformed\"",
        &malformed,
    );
}

#[test]
fn the_summary_keeps_the_worst_finding() {
    let f = load("tcp_analysis");
    for frame in &f {
        let worst = frame
            .tree
            .find("_ws.expert.severity")
            .into_iter()
            .filter_map(|n| n.unsigned())
            .map(Severity::from_u64)
            .max();
        assert_eq!(
            frame.summary.expert.map(|e| e.severity),
            worst,
            "frame {} summary disagrees with its tree",
            frame.number
        );
    }
}

#[test]
fn a_clean_frame_has_no_expert_summary() {
    let f = load("streams");
    for frame in &f {
        assert!(
            frame.summary.expert.is_none(),
            "frame {} of an ordinary capture has an expert finding: {:?}",
            frame.number,
            frame.summary.expert
        );
    }
}

/// Desegmentation: messages that do not fit in one segment.

#[test]
fn a_split_response_is_dissected_once_it_is_whole() {
    let f = load("desegment");
    // Frames 2 and 3 carry part of a response; frame 4 completes it and
    // is where the message appears.
    expect(&f, "http.segment", &[2, 3, 6, 9]);
    expect(&f, "http.response.code == 200", &[4, 7]);
    expect(&f, "http.response.code == 404", &[10]);
    // The content length is only readable because the headers and body
    // were joined; before desegmentation frame 2 showed a truncated body
    // and frames 3 and 4 showed nothing at all.
    expect(&f, "http.content_length == 30", &[4]);
}

#[test]
fn the_reassembled_body_is_complete() {
    let f = load("desegment");
    let frame = f.iter().find(|fr| fr.number == 4).expect("frame 4");
    let data = frame
        .tree
        .first("http.file_data")
        .expect("the body node");
    // 30 bytes, from three segments of ten.
    assert_eq!(data.range().len(), 30);
    let source = frame.source(data.source()).expect("its data source");
    assert_eq!(
        &source[data.range()],
        b"0123456789abcdefghijABCDEFGHIJ",
        "the body should be the three segments joined, in order"
    );
    assert_ne!(
        data.source(),
        0,
        "a reassembled body cannot live in the captured frame, which only \
         holds the last ten bytes"
    );
}

#[test]
fn a_chunked_body_is_awaited_to_its_final_chunk() {
    let f = load("desegment");
    // Frame 6 ends mid-chunk: the length said 16 bytes and 14 arrived.
    expect(&f, "http.transfer_encoding", &[7]);
    expect(&f, "http.segment && tcp.stream == 0", &[2, 3, 6, 9]);
}

#[test]
fn pipelined_messages_in_one_segment_are_all_dissected() {
    let f = load("desegment");
    let frame = f.iter().find(|fr| fr.number == 8).expect("frame 8");
    let uris: Vec<&str> = frame
        .tree
        .find("http.request.uri")
        .into_iter()
        .filter_map(|n| n.str_value())
        .collect();
    assert_eq!(
        uris,
        vec!["/one", "/two"],
        "both requests sharing the segment must appear"
    );
}

#[test]
fn an_incomplete_first_line_is_held_too() {
    // Frame 9 is "HTTP/1.1 404 Not " - not even a whole status line.
    // Holding it is what lets frame 10 produce a 404.
    let f = load("desegment");
    expect(&f, "http.segment && frame.number == 9", &[9]);
    expect(&f, "http.response.phrase == \"Not Found\"", &[10]);
}

#[test]
fn a_held_frame_stays_tcp_in_the_protocol_column() {
    // It carries no message, so calling it HTTP would claim one.
    let f = load("desegment");
    for n in [2u32, 3, 6, 9] {
        let frame = f.iter().find(|fr| fr.number == n).expect("frame");
        assert_eq!(
            frame.summary.protocol, "tcp",
            "frame {n} carries part of a message, not a message"
        );
        assert_eq!(frame.summary.info, "[TCP segment of a reassembled PDU]");
    }
}

#[test]
fn body_bytes_with_no_message_start_are_shown_not_held() {
    // The http fixture's last frame is body data continuing a response
    // whose start this capture never saw. Holding it would wait for a
    // message that is already over, and the bytes would never appear.
    let f = load("http");
    expect(&f, "http", &[1, 2, 3, 4]);
    expect(&f, "http.segment", &[]);
}

/// TLS records split across segments.

#[test]
fn a_split_client_hello_is_parsed_once_whole() {
    let f = load("tls_desegment");
    // Frame 1 carries three bytes - not even a whole record header.
    // Frame 2 carries more of the same record. Frame 3 completes it.
    expect(&f, "tls.segment", &[1, 2, 4]);
    expect(&f, "tls", &[3, 4, 5]);
    // The SNI is the point: before desegmentation a ClientHello split
    // across segments showed a fragment with no fields at all.
    expect(
        &f,
        "tls.handshake.extensions_server_name == \"split.example.com\"",
        &[3],
    );
}

#[test]
fn a_frame_holding_only_a_fragment_stays_tcp() {
    let f = load("tls_desegment");
    for n in [1u32, 2] {
        let frame = f.iter().find(|fr| fr.number == n).expect("frame");
        assert_eq!(frame.summary.protocol, "tcp");
        assert_eq!(frame.summary.info, "[TCP segment of a reassembled PDU]");
    }
}

#[test]
fn a_complete_record_and_a_partial_one_can_share_a_segment() {
    // Frame 4 carries a whole ServerHello followed by the first ten
    // bytes of the next record. The complete one must be dissected now
    // and the partial one held, not one or the other.
    let f = load("tls_desegment");
    expect(&f, "tls.handshake.type == 2", &[4]);
    expect(&f, "tls.segment && tls.record", &[4]);
    let frame = f.iter().find(|fr| fr.number == 4).expect("frame 4");
    assert_eq!(frame.summary.protocol, "tls");
    assert!(
        frame.summary.info.starts_with("Server Hello"),
        "info was {:?}",
        frame.summary.info
    );
}

#[test]
fn the_reassembled_record_lives_in_its_own_data_source() {
    let f = load("tls_desegment");
    let frame = f.iter().find(|fr| fr.number == 3).expect("frame 3");
    let sni = frame
        .tree
        .first("tls.handshake.extensions_server_name")
        .expect("the SNI node");
    assert_ne!(
        sni.source(),
        0,
        "the name spans segments, so it cannot be in the captured frame"
    );
    let source = frame.source(sni.source()).expect("its data source");
    assert_eq!(&source[sni.range()], b"split.example.com");
}

/// Follow Stream: rebuilding a conversation's bytes from the stored frames.

/// Put a fixture's frames into a store and follow a stream from it.
fn followed(fixture: &str, id: u32) -> Stream {
    let mut store = Store::new(Limits::default());
    let frames: Vec<Arc<Frame>> =
        load(fixture).into_iter().map(Arc::new).collect();
    store.append(frames);
    follow(&store.snapshot(), id)
}

#[test]
fn a_conversation_comes_back_in_order_and_by_direction() {
    // Stream 0 of the desegment fixture: a request out, a response back
    // in three segments, then more.
    let s = followed("desegment", 0);
    let client = s.joined(Direction::Forward);
    let server = s.joined(Direction::Reverse);
    assert!(
        client.starts_with(b"GET /split HTTP/1.1\r\n"),
        "client side starts with the request"
    );
    assert!(
        server.starts_with(b"HTTP/1.1 200 OK\r\n"),
        "server side starts with the response"
    );
    // The split body is contiguous in the reassembled server side.
    let text = String::from_utf8_lossy(&server);
    assert!(
        text.contains("0123456789abcdefghijABCDEFGHIJ"),
        "the three-segment body should be joined"
    );
    assert_eq!(s.missing, 0, "nothing was dropped in this capture");
}

#[test]
fn retransmissions_do_not_appear_twice() {
    // The tcp_analysis fixture resends the same ten bytes three times.
    // A transcript showing them three times would be a lie about what
    // the application received.
    let s = followed("tcp_analysis", 0);
    let client = s.joined(Direction::Forward);
    let text = String::from_utf8_lossy(&client);
    assert_eq!(
        text.matches("0123456789").count(),
        text.len() / 10,
        "every ten-byte run should be distinct data, not a repeat"
    );
}

#[test]
fn gaps_that_are_later_filled_are_not_reported_as_missing() {
    // The fixture skips bytes twice and fills both holes: once by an
    // out-of-order segment and once by a fast retransmission. A capture
    // that recovered everything must not claim to be missing anything.
    let s = followed("tcp_analysis", 0);
    assert_eq!(s.missing, 0);
    assert!(s.chunks.iter().all(|c| c.gap_before == 0));
}

#[test]
fn both_directions_are_counted_separately() {
    let s = followed("desegment", 0);
    assert!(s.frames[0] > 0 && s.frames[1] > 0);
    assert!(s.bytes[0] > 0 && s.bytes[1] > 0);
    assert_ne!(s.bytes[0], s.bytes[1]);
}

#[test]
fn a_udp_flow_follows_in_capture_order() {
    // Stream 3 of the streams fixture is a UDP exchange. Datagrams have
    // no sequence space, so capture order is the only order there is.
    let s = followed("streams", 3);
    assert_eq!(s.joined(Direction::Forward), b"q");
    assert_eq!(s.joined(Direction::Reverse), b"a");
    assert_eq!(s.missing, 0);
}

#[test]
fn following_a_stream_that_is_not_there_gives_nothing() {
    let s = followed("streams", 999);
    assert!(s.is_empty());
    assert_eq!(s.frames, [0, 0]);
}

#[test]
fn a_handshake_only_stream_has_no_bytes_to_show() {
    // Stream 5 of the streams fixture is a SYN and a SYN/ACK over IPv6.
    // Neither carries payload, so there is nothing to follow.
    let s = followed("streams", 5);
    assert!(s.is_empty());
}

/// The conversations table.

fn rows(fixture: &str, kind: Kind) -> Vec<Row> {
    let mut store = Store::new(Limits::default());
    let frames: Vec<Arc<Frame>> =
        load(fixture).into_iter().map(Arc::new).collect();
    store.append(frames);
    conversations(&store.snapshot(), kind)
}

#[test]
fn both_directions_total_into_one_row() {
    // The streams fixture's first connection is 7 frames, 4 from the
    // client and 3 from the server. Two rows each knowing half would be
    // the classic failure.
    let tcp = rows("streams", Kind::Tcp);
    let first = tcp
        .iter()
        .find(|r| r.stream == Some(0))
        .expect("stream 0 should have a row");
    assert_eq!(first.total_packets(), 7);
    // Endpoints are stored in a canonical order, which is not the order
    // they were seen in, so the client is found by its port rather than
    // assumed to be first.
    let (client, server) = if first.port_a == 40000 {
        (first.packets[0], first.packets[1])
    } else {
        (first.packets[1], first.packets[0])
    };
    assert_eq!((client, server), (4, 3));
    assert!(first.bytes[0] > 0 && first.bytes[1] > 0);
}

#[test]
fn a_reused_port_is_its_own_conversation() {
    // Streams 0 and 2 share a 5-tuple exactly. They must not share a
    // row: adding a later connection's totals to an earlier one's would
    // describe traffic that never shared a conversation.
    let tcp = rows("streams", Kind::Tcp);
    // Stream 5 also uses port 40000, over IPv6, so narrow to the two
    // that share the exact IPv4 five-tuple.
    let reused: Vec<_> = tcp
        .iter()
        .filter(|r| matches!(r.stream, Some(0) | Some(2)))
        .collect();
    assert_eq!(reused.len(), 2, "one row each for streams 0 and 2");
    let mut totals: Vec<u64> = reused.iter().map(|r| r.total_packets()).collect();
    totals.sort_unstable();
    assert_eq!(totals, vec![3, 7]);
    for row in reused {
        let f = filter_for(row, Kind::Tcp);
        assert!(
            f.starts_with("tcp.stream == "),
            "a row with a stream id filters by it: {f}"
        );
    }
}

#[test]
fn the_layers_group_differently() {
    // Every frame shares one pair of MACs, so Ethernet collapses to one
    // row while TCP has several.
    let eth = rows("streams", Kind::Ethernet);
    let tcp = rows("streams", Kind::Tcp);
    assert_eq!(eth.len(), 1, "one MAC pair: {eth:#?}");
    assert!(tcp.len() > 1, "several TCP conversations");
    // And the Ethernet row accounts for every frame.
    assert_eq!(eth[0].total_packets(), 18);
}

#[test]
fn udp_and_tcp_are_counted_separately() {
    let udp = rows("streams", Kind::Udp);
    let tcp = rows("streams", Kind::Tcp);
    assert_eq!(udp.iter().map(|r| r.total_packets()).sum::<u64>(), 3);
    assert_eq!(tcp.iter().map(|r| r.total_packets()).sum::<u64>(), 15);
}

#[test]
fn rows_are_busiest_first() {
    let tcp = rows("desegment", Kind::Tcp);
    for pair in tcp.windows(2) {
        assert!(
            pair[0].total_bytes() >= pair[1].total_bytes(),
            "the reason to open this table is to find what is using the link"
        );
    }
}

#[test]
fn ipv6_conversations_appear_at_the_ip_layer() {
    let ip = rows("streams", Kind::Ip);
    let v6 = ip
        .iter()
        .filter(|r| matches!(r.a, Addr::Ipv6(_)))
        .count();
    assert_eq!(v6, 1, "the fixture has one IPv6 conversation");
    let row = ip
        .iter()
        .find(|r| matches!(r.a, Addr::Ipv6(_)))
        .expect("row");
    assert!(filter_for(row, Kind::Ip).starts_with("ipv6.addr == "));
}

#[test]
fn every_generated_filter_compiles() {
    // The table's "apply as filter" action is only useful if what it
    // produces is a filter the engine accepts.
    for fixture in ["streams", "desegment", "tcp_analysis", "ipv6"] {
        for kind in Kind::ALL {
            for row in rows(fixture, kind) {
                let f = filter_for(&row, kind);
                assert!(
                    compile(&f).is_ok(),
                    "{fixture}/{}: {f}",
                    kind.name()
                );
            }
        }
    }
}

#[test]
fn every_byte_is_counted_in_one_conversation() {
    let frames = load("streams");
    let bytes: u64 = frames.iter().map(|f| u64::from(f.orig_len)).sum();
    let eth = rows("streams", Kind::Ethernet);
    assert_eq!(eth.iter().map(|r| r.total_bytes()).sum::<u64>(), bytes);
    let tcp: u64 = rows("streams", Kind::Tcp)
        .iter()
        .map(|r| r.total_bytes())
        .sum();
    let udp: u64 = rows("streams", Kind::Udp)
        .iter()
        .map(|r| r.total_bytes())
        .sum();
    assert_eq!(tcp + udp, bytes);
}

/// A response whose one answer is an SOA record with the given data, and
/// whatever bytes follow the record.
fn soa_response(rdata: &[u8], after: &[u8]) -> Vec<u8> {
    let mut msg = dns_header(0x0002, 0x8180, 1, 1, 0, 0);
    msg.extend_from_slice(&dns_question(&dns_name("example.com"), 6, 1));
    msg.extend_from_slice(&dns_rr(&dns_ptr(12), 6, 1, 60, rdata));
    msg.extend_from_slice(after);
    eth(
        MAC_A,
        MAC_B,
        0x0800,
        &ipv4(IP_B, IP_A, 17, &udp4(IP_B, IP_A, 53, 53124, &msg)),
    )
}

#[test]
fn an_soa_record_is_read_within_its_data() {
    let mut rdata = [2, b'n', b's'].to_vec();
    rdata.extend_from_slice(&dns_ptr(12));
    rdata.extend_from_slice(&[5, b'a', b'd', b'm', b'i', b'n']);
    rdata.extend_from_slice(&dns_ptr(12));
    for v in [7u32, 7200, 3600, 1209600, 300] {
        rdata.extend_from_slice(&v.to_be_bytes());
    }
    let whole = dissect(
        LinkType::ethernet(),
        1,
        raw(&soa_response(&rdata, &[])),
        &mut State::new(),
    );
    check(&whole, "whole");
    assert!(!whole.tree.find("dns.soa.serial_number").is_empty());
    assert!(whole.tree.find("_ws.malformed").is_empty());
    // A record shorter than what it should hold, with the rest of it left
    // behind the record.
    for len in 0..rdata.len() {
        let cut = dissect(
            LinkType::ethernet(),
            1,
            raw(&soa_response(&rdata[..len], &rdata[len..])),
            &mut State::new(),
        );
        check(&cut, &format!("{len} bytes of data"));
        assert!(
            !cut.tree.find("_ws.malformed").is_empty(),
            "{len} bytes of data"
        );
    }
}

#[test]
fn forward_is_whoever_sent_the_first_frame() {
    // The client opens the connection and the server speaks first, so the
    // bytes that come first run backwards.
    let frames = [
        segment(true, 40000, 5001, 1000, 0, SYN, b""),
        segment(false, 40000, 5001, 5000, 1001, SYN | ACK, b""),
        segment(true, 40000, 5001, 1001, 5001, ACK, b""),
        segment(false, 40000, 5001, 5001, 1001, PSH | ACK, b"welcome"),
        segment(true, 40000, 5001, 1001, 5008, PSH | ACK, b"hello"),
    ];
    let mut state = State::new();
    let mut store = Store::new(Limits::default());
    store.append(
        frames
            .iter()
            .enumerate()
            .map(|(i, b)| {
                Arc::new(dissect(
                    LinkType::ethernet(),
                    i as u32 + 1,
                    raw(b),
                    &mut state,
                ))
            })
            .collect(),
    );
    let s = follow(&store.snapshot(), 0);
    assert_eq!(s.joined(Direction::Forward), b"hello");
    assert_eq!(s.joined(Direction::Reverse), b"welcome");
    assert_eq!(s.frames, [1, 1]);
    assert_eq!(s.frame_numbers, [4, 5]);
}

#[test]
fn too_many_extension_headers_are_malformed() {
    for (count, malformed) in [(MAX_EXT_HEADERS, false), (MAX_EXT_HEADERS + 1, true)] {
        let mut chain = Vec::new();
        for i in 0..count {
            let next = if i + 1 == count { 59 } else { 60 };
            chain.extend_from_slice(&[next, 0, 1, 4, 0, 0, 0, 0]);
        }
        let bytes = eth(MAC_B, MAC_A, 0x86dd, &ipv6(IP6_A, IP6_B, 60, 64, &chain));
        let f = dissect(LinkType::ethernet(), 1, raw(&bytes), &mut State::new());
        check(&f, "extension headers");
        assert_eq!(!f.tree.find("_ws.malformed").is_empty(), malformed, "{count}");
    }
}

//! Generated Ethernet/IPv4/TCP frames for benchmarks and the `--synthetic`
//! developer flag. Deterministic in `i`.

use vstd::prelude::*;

use crate::bytes::{be16_bytes, be32_bytes, put_all, put_be16, put_be32};
use crate::capture::{RawFrame, RawView, Timestamp};
use crate::dissect::ctx::AddrsView;
use crate::dissect::proto::{
    checksum_of, flat, inet_checksum, pseudo_header, stored_checksum_verifies,
};

verus! {

/// The lowest byte of `n`.
pub open spec fn low8(n: int) -> u8 {
    (n % 0x100) as u8
}

/// The address that frame `i` comes from.
pub open spec fn source_addr(i: u64) -> Seq<u8> {
    seq![10u8, 0, low8(i as int / 0x100), low8(i as int)]
}

/// The address that every frame goes to.
pub open spec fn target_addr() -> Seq<u8> {
    seq![93u8, 184, 216, 34]
}

/// The payload of frame `i`: `i % 1400` bytes that count up from `i`.
pub open spec fn payload(i: u64) -> Seq<u8> {
    Seq::new((i % 1400) as nat, |k: int| low8(k + i))
}

/// The Ethernet header of frame `i`.
pub open spec fn ethernet_header(i: u64) -> Seq<u8> {
    seq![0x00u8, 0x1c, 0x42, 0x00, 0x00, 0x01] + seq![
        0x00u8,
        0x1c,
        0x42,
        low8(i as int / 0x1_0000),
        low8(i as int / 0x100),
        low8(i as int),
    ] + be16_bytes(0x0800)
}

/// The IPv4 header of frame `i`, with the checksum given.
pub open spec fn ip_header(i: u64, sum: u16) -> Seq<u8> {
    seq![0x45u8, 0x00] + be16_bytes((52 + i % 1400) as u16) + be16_bytes(
        (i % 0x1_0000) as u16,
    ) + seq![0x40u8, 0x00, 64, 6] + be16_bytes(sum) + source_addr(i) + target_addr()
}

/// The TCP segment of frame `i`, with the checksum given: eight words of
/// header with the timestamps option, PSH and ACK set, and the payload. The
/// source port varies; no upper-layer dissector takes the destination port.
pub open spec fn tcp_segment(i: u64, sum: u16) -> Seq<u8> {
    be16_bytes((40000 + i % 20000) as u16) + be16_bytes(5001) + be32_bytes(
        (i * 1400 % 0x1_0000_0000) as u32,
    ) + be32_bytes(1) + seq![0x80u8, 0x18] + be16_bytes(501) + be16_bytes(sum) + seq![
        0u8,
        0,
        1,
        1,
        8,
        10,
    ] + be32_bytes((i * 7 % 0x1_0000_0000) as u32) + be32_bytes(
        (i * 3 % 0x1_0000_0000) as u32,
    ) + payload(i)
}

/// What the checksum of a segment of frame `i` covers before the segment.
pub open spec fn pseudo(i: u64) -> Seq<u8> {
    pseudo_header(AddrsView::V4(source_addr(i), target_addr()), 6, (32 + i % 1400) as nat)
}

/// The checksum of the IPv4 header of frame `i`.
pub open spec fn ip_checksum(i: u64) -> u16 {
    checksum_of(ip_header(i, 0))
}

/// The checksum of the TCP segment of frame `i`.
pub open spec fn tcp_checksum(i: u64) -> u16 {
    checksum_of(pseudo(i) + tcp_segment(i, 0))
}

/// Frame `i`: Ethernet II, IPv4 without options, TCP with the timestamps
/// option and `i % 1400` payload bytes, a millisecond after the frame before
/// it.
pub open spec fn frame_of(i: u64) -> RawView {
    RawView {
        ts: Timestamp {
            secs: (1_700_000_000 + i / 1000) as i64,
            nanos: (i % 1000 * 1_000_000) as u32,
        },
        caplen: (66 + i % 1400) as u32,
        orig_len: (66 + i % 1400) as u32,
        bytes: ethernet_header(i) + ip_header(i, ip_checksum(i)) + tcp_segment(
            i,
            tcp_checksum(i),
        ),
    }
}

/// The checksums of every generated frame verify.
pub proof fn checksums_verify(i: u64)
    ensures
        checksum_of(ip_header(i, ip_checksum(i))) == 0,
        checksum_of(pseudo(i) + tcp_segment(i, tcp_checksum(i))) == 0,
{
    let sum = ip_checksum(i);
    let b = ip_header(i, sum);
    assert(b.update(10, 0).update(11, 0) =~= ip_header(i, 0));
    stored_checksum_verifies(b, 10, sum);
    let sum = tcp_checksum(i);
    let b = pseudo(i) + tcp_segment(i, sum);
    assert(pseudo(i).len() == 12);
    assert(b.update(28, 0).update(29, 0) =~= pseudo(i) + tcp_segment(i, 0));
    stored_checksum_verifies(b, 28, sum);
}

fn put_low8(out: &mut Vec<u8>, n: u64)
    ensures
        final(out)@ == old(out)@.push(low8(n as int)),
{
    out.push((n % 0x100) as u8);
}

fn write_source(out: &mut Vec<u8>, i: u64)
    ensures
        final(out)@ == old(out)@ + source_addr(i),
{
    out.push(10);
    out.push(0);
    put_low8(out, i / 0x100);
    put_low8(out, i);
    assert(out@ =~= old(out)@ + source_addr(i));
}

fn write_target(out: &mut Vec<u8>)
    ensures
        final(out)@ == old(out)@ + target_addr(),
{
    let addr: [u8; 4] = [93, 184, 216, 34];
    assert(addr@ =~= target_addr());
    put_all(out, &addr);
}

fn write_ethernet(out: &mut Vec<u8>, i: u64)
    ensures
        final(out)@ == old(out)@ + ethernet_header(i),
{
    let ghost start = out@;
    let head: [u8; 9] = [0x00, 0x1c, 0x42, 0x00, 0x00, 0x01, 0x00, 0x1c, 0x42];
    put_all(out, &head);
    put_low8(out, i / 0x1_0000);
    put_low8(out, i / 0x100);
    put_low8(out, i);
    put_be16(out, 0x0800);
    assert(out@ =~= start + ethernet_header(i));
}

fn write_ip(out: &mut Vec<u8>, i: u64, sum: u16)
    ensures
        final(out)@ == old(out)@ + ip_header(i, sum),
{
    let ghost start = out@;
    out.push(0x45);
    out.push(0x00);
    put_be16(out, (52 + i % 1400) as u16);
    put_be16(out, (i % 0x1_0000) as u16);
    let fixed: [u8; 4] = [0x40, 0x00, 64, 6];
    put_all(out, &fixed);
    put_be16(out, sum);
    write_source(out, i);
    write_target(out);
    assert(out@ =~= start + ip_header(i, sum));
}

fn write_payload(out: &mut Vec<u8>, i: u64)
    ensures
        final(out)@ == old(out)@ + payload(i),
{
    let ghost start = out@;
    let n: u64 = i % 1400;
    let mut k: u64 = 0;
    assert(start + payload(i).take(0) =~= start);
    while k < n
        invariant
            k <= n == payload(i).len(),
            n < 1400,
            out@ == start + payload(i).take(k as int),
        decreases n - k,
    {
        out.push(((k % 0x100 + i % 0x100) % 0x100) as u8);
        assert(out@ =~= start + payload(i).take(k + 1));
        k += 1;
    }
    assert(payload(i).take(k as int) =~= payload(i));
}

fn write_tcp(out: &mut Vec<u8>, i: u64, sum: u16)
    ensures
        final(out)@ == old(out)@ + tcp_segment(i, sum),
{
    let ghost start = out@;
    put_be16(out, (40000 + i % 20000) as u16);
    put_be16(out, 5001);
    put_be32(out, (i as u128 * 1400 % 0x1_0000_0000) as u32);
    put_be32(out, 1);
    out.push(0x80);
    out.push(0x18);
    put_be16(out, 501);
    put_be16(out, sum);
    let options: [u8; 6] = [0, 0, 1, 1, 8, 10];
    put_all(out, &options);
    put_be32(out, (i as u128 * 7 % 0x1_0000_0000) as u32);
    put_be32(out, (i as u128 * 3 % 0x1_0000_0000) as u32);
    write_payload(out, i);
    assert(out@ =~= start + tcp_segment(i, sum));
}

fn sum_of(b: &[u8]) -> (r: u16)
    ensures
        r == checksum_of(b@),
{
    let parts: [&[u8]; 1] = [b];
    proof {
        reveal_with_fuel(flat, 2);
        assert(parts@.drop_last() =~= Seq::empty());
        assert(flat(parts@) =~= b@);
    }
    inet_checksum(&parts)
}

/// One synthetic frame: Ethernet II + IPv4 (no options) + TCP (with
/// timestamps option) + `i % 1400` payload bytes, with valid checksums.
pub fn raw_frame(i: u64) -> (r: RawFrame)
    ensures
        r@ == frame_of(i),
{
    let mut ip: Vec<u8> = Vec::new();
    write_ip(&mut ip, i, 0);
    assert(ip@ =~= ip_header(i, 0));
    let ip_sum: u16 = sum_of(&ip);
    let mut tcp: Vec<u8> = Vec::new();
    write_source(&mut tcp, i);
    write_target(&mut tcp);
    tcp.push(0);
    tcp.push(6);
    put_be16(&mut tcp, (32 + i % 1400) as u16);
    assert(tcp@ =~= pseudo(i));
    write_tcp(&mut tcp, i, 0);
    let tcp_sum: u16 = sum_of(&tcp);
    let mut b: Vec<u8> = Vec::new();
    write_ethernet(&mut b, i);
    write_ip(&mut b, i, ip_sum);
    write_tcp(&mut b, i, tcp_sum);
    assert(b@ =~= frame_of(i).bytes);
    let len: u32 = (66 + i % 1400) as u32;
    RawFrame {
        ts: Timestamp {
            secs: 1_700_000_000 + (i / 1000) as i64,
            nanos: (i % 1000 * 1_000_000) as u32,
        },
        caplen: len,
        orig_len: len,
        bytes: b,
    }
}

} // verus!

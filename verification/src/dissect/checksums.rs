//! What the internet checksum is, and when it is judged.

use vstd::prelude::*;

use super::ctx::{AddrsView, Model};
use super::proto::{
    checksum_of, end_around, ipv4, pseudo_header, tcp, udp, verdict, word_sum,
};
use crate::bytes::be32_bytes;

verus! {

/// The sum is over words of two bytes, the higher byte first.
pub proof fn words_of_two_bytes_are_summed(b: Seq<u8>, n: int)
    requires
        0 <= n,
        n % 2 == 0,
        n + 2 <= b.len(),
    ensures
        word_sum(b, n + 2) == word_sum(b, n) + b[n] * 256 + b[n + 1],
        word_sum(b, 0) == 0,
{
    assert(word_sum(b, n + 1) == word_sum(b, n) + 256 * b[n]);
    assert((n + 2) % 2 == 0);
}

proof fn same_sum(a: Seq<u8>, b: Seq<u8>, n: int)
    requires
        n <= a.len(),
        n <= b.len(),
        forall|i: int| 0 <= i < n ==> a[i] == b[i],
    ensures
        word_sum(a, n) == word_sum(b, n),
    decreases n,
{
    if n > 0 {
        same_sum(a, b, n - 1);
    }
}

/// An odd byte at the end counts as if a zero followed it.
pub proof fn an_odd_byte_is_followed_by_zero(b: Seq<u8>)
    requires
        b.len() % 2 == 1,
    ensures
        checksum_of(b.push(0)) == checksum_of(b),
{
    let n = b.len() as int;
    same_sum(b.push(0), b, n);
    assert(word_sum(b.push(0), n + 1) == word_sum(b.push(0), n) + 0);
}

/// The checksum is the complement of the sum with its carries brought round:
/// the two together are a multiple of 65535.
pub proof fn checksums_are_complements(b: Seq<u8>)
    ensures
        (checksum_of(b) + word_sum(b, b.len() as int)) % 65535 == 0,
{
    let sum = word_sum(b, b.len() as int);
    sum_is_positive(b, b.len() as int);
    let e = end_around(sum);
    assert(0 <= e <= 0xffff);
    assert(checksum_of(b) == 0xffff - e);
    if sum > 0 {
        assert((sum - 1) % 65535 == (sum - 1) - 65535 * ((sum - 1) / 65535));
        assert(0xffff - e + sum == 65535 * (1 + (sum - 1) / 65535));
    }
}

proof fn sum_is_positive(b: Seq<u8>, n: int)
    requires
        n <= b.len(),
    ensures
        0 <= word_sum(b, n),
    decreases n,
{
    if n > 0 {
        sum_is_positive(b, n - 1);
    }
}

/// A checksum over bytes that hold it verifies as zero; the verdict is bad,
/// good, or not given, in this order.
pub proof fn zero_is_good(sum: u16)
    ensures
        verdict(Some(sum)) == if sum == 0 {
            1u64
        } else {
            0
        },
        verdict(None) == 2,
{
}

/// The checksum of a segment also covers the addresses, the protocol and the
/// length: twelve bytes in IPv4, and forty in IPv6.
pub proof fn pseudo_headers_hold_addresses_and_length(
    src: Seq<u8>,
    dst: Seq<u8>,
    proto: u8,
    len: nat,
)
    requires
        len <= 0xffff_ffff,
    ensures
        src.len() == 4 && dst.len() == 4 && len <= 0xffff ==> ({
            let p = pseudo_header(AddrsView::V4(src, dst), proto, len);
            &&& p.len() == 12
            &&& p.subrange(0, 4) == src
            &&& p.subrange(4, 8) == dst
            &&& p[8] == 0
            &&& p[9] == proto
            &&& p[10] * 256 + p[11] == len
        }),
        src.len() == 16 && dst.len() == 16 ==> ({
            let p = pseudo_header(AddrsView::V6(src, dst), proto, len);
            &&& p.len() == 40
            &&& p.subrange(0, 16) == src
            &&& p.subrange(16, 32) == dst
            &&& p[32] * 0x100_0000 + p[33] * 0x1_0000 + p[34] * 0x100 + p[35] == len
            &&& p[36] == 0 && p[37] == 0 && p[38] == 0
            &&& p[39] == proto
        }),
{
    let v = len as u32;
    let n = be32_bytes(v);
    assert(n[0] == v / 0x100_0000 && n[1] == v / 0x1_0000 % 0x100 && n[2] == v / 0x100 % 0x100
        && n[3] == v % 0x100);
    assert(n[0] * 0x100_0000 + n[1] * 0x1_0000 + n[2] * 0x100 + n[3] == v);
    if src.len() == 4 && dst.len() == 4 {
        let p = pseudo_header(AddrsView::V4(src, dst), proto, len);
        assert(p.subrange(0, 4) =~= src);
        assert(p.subrange(4, 8) =~= dst);
    }
    if src.len() == 16 && dst.len() == 16 {
        let p = pseudo_header(AddrsView::V6(src, dst), proto, len);
        assert(p.subrange(0, 16) =~= src);
        assert(p.subrange(16, 32) =~= dst);
    }
}

/// Checksums are judged where that was asked for, over all that they cover;
/// UDP without a checksum has none, whatever was asked for.
pub proof fn checksums_are_judged_when_asked(d: Seq<u8>, m: Model, ihl: int)
    ensures
        !m.options.validate_transport_checksums ==> tcp::status_of(d, m) == 2,
        m.options.validate_transport_checksums && m.addrs is Some ==> tcp::status_of(d, m)
            == verdict(
            Some(checksum_of(pseudo_header(m.addrs->0, 6, d.len()) + d)),
        ),
        d[6] == 0 && d[7] == 0 ==> udp::status_of(d, m) == 3,
        !(d[6] == 0 && d[7] == 0) && !m.options.validate_transport_checksums ==> udp::status_of(
            d,
            m,
        ) == 2,
        !(d[6] == 0 && d[7] == 0) && m.options.validate_transport_checksums && m.addrs is Some
            && d[4] * 256 + d[5] <= d.len() ==> udp::status_of(d, m) == verdict(
            Some(
                checksum_of(
                    pseudo_header(m.addrs->0, 17, (d[4] * 256 + d[5]) as nat) + d.subrange(
                        0,
                        d[4] * 256 + d[5],
                    ),
                ),
            ),
        ),
        !m.options.validate_ip_checksums ==> ipv4::status_of(d, m, ihl) == 2,
        m.options.validate_ip_checksums && 0 <= ihl <= d.len() && (d[2] != 0 || d[3] != 0)
            ==> ipv4::status_of(d, m, ihl) == verdict(Some(checksum_of(d.subrange(0, ihl)))),
{
}

} // verus!

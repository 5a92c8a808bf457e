//! What stands where in the blocks of a pcapng file.

use vstd::prelude::*;

use super::reader::{described, enhanced, option_value, simple, time_of, SectionView};
use super::{power, units_of};
use crate::pcap::layout::number;

verus! {

/// A time is a number of units; where these divide a nanosecond count evenly,
/// nothing of it is lost.
pub proof fn times_count_units(units: u64, per_sec: u64, width: u64)
    requires
        per_sec > 0,
        width > 0,
        per_sec * width == 1_000_000_000,
        units / per_sec <= i64::MAX,
    ensures
        ({
            let t = time_of(units, per_sec);
            &&& t.secs * 1_000_000_000 + t.nanos == units * width
            &&& 0 <= t.nanos < 1_000_000_000
        }),
{
    let (p, u, w) = (per_sec as int, units as int, width as int);
    let (q, r) = (u / p, u % p);
    vstd::arithmetic::div_mod::lemma_fundamental_div_mod(u, p);
    vstd::arithmetic::div_mod::lemma_div_multiples_vanish(w, p);
    assert(p * w == w * p) by (nonlinear_arith);
    assert(1_000_000_000int / p == w);
    assert(r * w < p * w) by (nonlinear_arith)
        requires
            r < p,
            w > 0,
    ;
    assert(0 <= r * w) by (nonlinear_arith)
        requires
            0 <= r,
            w > 0,
    ;
    assert(u * w == (p * q + r) * w);
    assert((p * q + r) * w == q * (p * w) + r * w) by (nonlinear_arith);
}

/// A resolution is a power of ten, or of two where its top bit is set.
pub proof fn resolutions_are_powers(n: u8)
    ensures
        n <= 19 ==> units_of(n) == power(10, n as int),
        0x80 <= n <= 0x80 + 63 ==> units_of(n) == power(2, n - 0x80),
        units_of(0) == 1,
        units_of(3) == 1000,
        units_of(6) == 1_000_000,
        units_of(9) == 1_000_000_000,
{
    reveal_with_fuel(power, 10);
}

/// An enhanced packet names its interface, its time in two halves, the upper
/// one first, the captured length and the length on the wire, and then holds
/// the captured bytes.
pub proof fn enhanced_packets_are_read_in_order(body: Seq<u8>, little: bool, s: SectionView)
    requires
        body.len() >= 20,
        20 + number(body, 12, little) <= body.len(),
    ensures
        ({
            let p = enhanced(body, little, s);
            let i = number(body, 0, little);
            let units = number(body, 4, little) * 0x1_0000_0000 + number(body, 8, little);
            &&& p.interface == i
            &&& i < s.interfaces.len() ==> p.frame.ts == time_of(
                units as u64,
                s.interfaces[i].ts_per_sec,
            )
            &&& i >= s.interfaces.len() ==> p.frame.ts == time_of(units as u64, 1_000_000)
            &&& p.frame.caplen == number(body, 12, little)
            &&& p.frame.orig_len == number(body, 16, little)
            &&& p.frame.bytes == body.subrange(20, 20 + number(body, 12, little))
        }),
{
}

/// A simple packet has no time and no interface of its own; it holds as much
/// as the snapshot length of the first interface allows.
pub proof fn simple_packets_are_cut_to_the_snapshot(body: Seq<u8>, little: bool, s: SectionView)
    requires
        body.len() >= 4,
        4 + number(body, 0, little) <= body.len(),
    ensures
        ({
            let p = simple(body, little, s);
            let len = number(body, 0, little);
            let snap = if s.interfaces.len() > 0 {
                s.interfaces[0].snaplen as int
            } else {
                0
            };
            &&& p.interface == 0
            &&& p.frame.ts.secs == 0
            &&& p.frame.ts.nanos == 0
            &&& p.frame.orig_len == len
            &&& snap == 0 || len <= snap ==> p.frame.caplen == len
            &&& 0 < snap < len ==> p.frame.caplen == snap
            &&& p.frame.bytes == body.subrange(4, 4 + p.frame.caplen)
        }),
{
}

/// An interface is its link type, two bytes that mean nothing, its snapshot
/// length and options; without a resolution it counts microseconds.
pub proof fn interfaces_are_read_in_order(body: Seq<u8>, little: bool)
    requires
        body.len() >= 8,
    ensures
        ({
            let i = described(body, little);
            &&& i.link_type == if little {
                body[0] + 0x100 * body[1]
            } else {
                body[1] + 0x100 * body[0]
            }
            &&& i.snaplen == number(body, 4, little)
            &&& option_value(body, 8, little, 9, 1, None) is None ==> i.ts_per_sec == 1_000_000
            &&& option_value(body, 8, little, 2, 0, None) is None <==> i.name is None
        }),
{
}

} // verus!

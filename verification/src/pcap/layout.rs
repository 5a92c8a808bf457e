//! What stands where in a pcap file.

use vstd::prelude::*;

use super::reader::{header_of, nanos_of, record_at};
use super::{announced, format_of, Format, Precision};

verus! {

/// The number in the four bytes at `i`: the lowest first, or the highest.
pub open spec fn number(d: Seq<u8>, i: int, lowest_first: bool) -> int {
    if lowest_first {
        d[i] + 0x100 * d[i + 1] + 0x1_0000 * d[i + 2] + 0x100_0000 * d[i + 3]
    } else {
        d[i + 3] + 0x100 * d[i + 2] + 0x1_0000 * d[i + 1] + 0x100_0000 * d[i]
    }
}

/// The first four bytes tell the byte order and the precision apart.
pub proof fn magics_tell_order_and_precision(d: Seq<u8>)
    requires
        d.len() >= 4,
    ensures
        d.take(4) == seq![0xa1u8, 0xb2, 0xc3, 0xd4] ==> announced(d) == Some(
            (false, Precision::Micro),
        ) && format_of(d) == Format::Pcap,
        d.take(4) == seq![0xd4u8, 0xc3, 0xb2, 0xa1] ==> announced(d) == Some(
            (true, Precision::Micro),
        ) && format_of(d) == Format::Pcap,
        d.take(4) == seq![0xa1u8, 0xb2, 0x3c, 0x4d] ==> announced(d) == Some(
            (false, Precision::Nano),
        ) && format_of(d) == Format::Pcap,
        d.take(4) == seq![0x4du8, 0x3c, 0xb2, 0xa1] ==> announced(d) == Some(
            (true, Precision::Nano),
        ) && format_of(d) == Format::Pcap,
        d.take(4) == seq![0xa1u8, 0xb2, 0xcd, 0x34] || d.take(4) == seq![0x34u8, 0xcd, 0xb2, 0xa1]
            ==> format_of(d) == Format::PcapModified,
        d.take(4) == seq![0x0au8, 0x0d, 0x0d, 0x0a] ==> format_of(d) == Format::Pcapng,
{
    let t = d.take(4);
    assert(t[0] == d[0] && t[1] == d[1] && t[2] == d[2] && t[3] == d[3]);
}

/// A fraction of a second is kept as nanoseconds: a thousand to each
/// microsecond, one to each nanosecond, and never a whole second.
pub proof fn fractions_become_nanoseconds(frac: u32)
    ensures
        frac < 1_000_000 ==> nanos_of(frac, Precision::Micro) == frac * 1000,
        frac < 1_000_000_000 ==> nanos_of(frac, Precision::Nano) == frac,
        nanos_of(frac, Precision::Micro) < 1_000_000_000,
        nanos_of(frac, Precision::Nano) < 1_000_000_000,
        frac >= 1_000_000 ==> nanos_of(frac, Precision::Micro) == 999_999_999,
{
}

/// A record is four numbers, seconds, fraction, captured length and length on
/// the wire, and then the captured bytes.
pub proof fn records_are_four_numbers_and_bytes(
    d: Seq<u8>,
    at: int,
    little: bool,
    precision: Precision,
    zone: i32,
)
    requires
        0 <= at,
        at + 16 + number(d, at + 8, little) <= d.len(),
    ensures
        ({
            let r = record_at(d, at, little, precision, zone);
            let caplen = number(d, at + 8, little);
            &&& r.ts.secs == number(d, at, little) + zone
            &&& r.ts.nanos == nanos_of(number(d, at + 4, little) as u32, precision)
            &&& r.caplen == caplen
            &&& r.orig_len == number(d, at + 12, little)
            &&& r.bytes.len() == caplen
            &&& forall|k: int| 0 <= k < caplen ==> r.bytes[k] == d[at + 16 + k]
        }),
{
}

/// The file header behind its magic: version, time zone, accuracy, snapshot
/// length and link type.
pub proof fn file_headers_are_read_in_order(d: Seq<u8>, little: bool, precision: Precision)
    requires
        d.len() >= 24,
    ensures
        ({
            let h = header_of(d, little, precision);
            &&& h.version_major == if little {
                d[4] + 0x100 * d[5]
            } else {
                d[5] + 0x100 * d[4]
            }
            &&& h.version_minor == if little {
                d[6] + 0x100 * d[7]
            } else {
                d[7] + 0x100 * d[6]
            }
            &&& h.sigfigs == number(d, 12, little)
            &&& h.snaplen == number(d, 16, little)
            &&& h.link_type == number(d, 20, little)
            &&& h.ts_per_sec == if precision == Precision::Micro {
                1_000_000int
            } else {
                1_000_000_000
            }
        }),
{
}

} // verus!

//! Classic pcap writer. Always little-endian, which every reader handles;
//! the reader here accepts both because files arrive from anywhere.

use vstd::prelude::*;

use super::reader::{header_of, parsed, records, FileView, MAX_RECORD};
use super::{announced, format_of, Header, Precision};
use crate::bytes;
use crate::bytes::{
    be32, le16_bytes, le16_found, le16_takes_two, le32, le32_bytes, le32_found, le32_takes_four,
};
use crate::capture::{RawView, Timestamp};

verus! {

broadcast use {le16_takes_two, le32_takes_four};

/// A file being written, in memory.
#[derive(Debug, Clone)]
pub struct Writer {
    out: Vec<u8>,
    precision: Precision,
    snaplen: u32,
}

/// The bytes written so far, and how packets are stored.
#[verifier::ext_equal]
pub struct WriterView {
    pub out: Seq<u8>,
    pub precision: Precision,
    pub snaplen: u32,
}

impl View for Writer {
    type V = WriterView;

    closed spec fn view(&self) -> WriterView {
        WriterView { out: self.out@, precision: self.precision, snaplen: self.snaplen }
    }
}

/// The file header.
pub open spec fn header_bytes(link_type: u32, snaplen: u32, precision: Precision) -> Seq<u8> {
    le32_bytes(precision.mark()) + le16_bytes(2) + le16_bytes(4) + le32_bytes(0) + le32_bytes(0)
        + le32_bytes(snaplen) + le32_bytes(link_type)
}

/// The fractional field of a time. Truncating, not rounding: rounding
/// 999_999_999 ns up gives 1_000_000 us, a whole second in a field that
/// cannot hold one.
pub open spec fn frac_of(nanos: u32, precision: Precision) -> u32 {
    match precision {
        Precision::Micro => nanos / 1000,
        Precision::Nano => nanos,
    }
}

/// The seconds field of a time. Its type is unsigned: a negative time becomes
/// zero, and one too late the latest.
pub open spec fn secs_of(secs: i64) -> u32 {
    if secs < 0 {
        0
    } else if secs > u32::MAX {
        u32::MAX
    } else {
        secs as u32
    }
}

/// How many of `len` bytes are stored.
pub open spec fn stored_len(len: int, snaplen: u32) -> u32 {
    if len < snaplen {
        len as u32
    } else {
        snaplen
    }
}

/// The wire length as stored, never below the stored bytes.
pub open spec fn wire_len(orig_len: u32, caplen: u32) -> u32 {
    if orig_len < caplen {
        caplen
    } else {
        orig_len
    }
}

/// A packet to be written.
#[verifier::ext_equal]
pub struct PacketView {
    pub ts: Timestamp,
    pub orig_len: u32,
    pub bytes: Seq<u8>,
}

/// The record of a packet.
pub open spec fn record_bytes(p: PacketView, snaplen: u32, precision: Precision) -> Seq<u8> {
    let caplen = stored_len(p.bytes.len() as int, snaplen);
    le32_bytes(secs_of(p.ts.secs)) + le32_bytes(frac_of(p.ts.nanos, precision)) + le32_bytes(caplen)
        + le32_bytes(wire_len(p.orig_len, caplen)) + p.bytes.take(caplen as int)
}

impl Writer {
    /// Write the file header. One link type applies to the whole file: that
    /// is the format's limitation, and why pcapng is the default for saving.
    pub fn new(out: Vec<u8>, link_type: u32, snaplen: u32, precision: Precision) -> (r: Writer)
        ensures
            r@.out == out@ + header_bytes(link_type, snaplen, precision),
            r@.precision == precision,
            r@.snaplen == snaplen,
    {
        let mut w: Vec<u8> = out;
        bytes::put_le32(&mut w, precision.magic());
        bytes::put_le16(&mut w, 2);  // version major
        bytes::put_le16(&mut w, 4);  // version minor
        bytes::put_le32(&mut w, 0);  // thiszone: always UTC
        bytes::put_le32(&mut w, 0);  // sigfigs: unused everywhere
        bytes::put_le32(&mut w, snaplen);
        bytes::put_le32(&mut w, link_type);
        assert(w@ =~= out@ + header_bytes(link_type, snaplen, precision));
        Writer { out: w, precision, snaplen }
    }

    /// Append one packet.
    ///
    /// `orig_len` is the length on the wire, which may exceed the bytes
    /// given when the capture was snapped short.
    pub fn packet(&mut self, ts: Timestamp, orig_len: u32, data: &[u8])
        ensures
            final(self)@.out == old(self)@.out + record_bytes(
                (PacketView { ts, orig_len, bytes: data@ }),
                old(self)@.snaplen,
                old(self)@.precision,
            ),
            final(self)@.precision == old(self)@.precision,
            final(self)@.snaplen == old(self)@.snaplen,
    {
        let frac: u32 = match self.precision {
            Precision::Micro => ts.nanos / 1000,
            Precision::Nano => ts.nanos,
        };
        let caplen: u32 = if (data.len() as u64) < self.snaplen as u64 {
            data.len() as u32
        } else {
            self.snaplen
        };
        let secs: u32 = if ts.secs < 0 {
            0
        } else if ts.secs > u32::MAX as i64 {
            u32::MAX
        } else {
            ts.secs as u32
        };
        let wire: u32 = if orig_len < caplen {
            caplen
        } else {
            orig_len
        };
        bytes::put_le32(&mut self.out, secs);
        bytes::put_le32(&mut self.out, frac);
        bytes::put_le32(&mut self.out, caplen);
        bytes::put_le32(&mut self.out, wire);
        bytes::put_all(&mut self.out, bytes::part(data, 0, caplen as usize));
        proof {
            let p = PacketView { ts, orig_len, bytes: data@ };
            assert(data@.subrange(0, caplen as int) =~= p.bytes.take(caplen as int));
            assert(self@.out =~= old(self)@.out + record_bytes(
                p,
                old(self)@.snaplen,
                old(self)@.precision,
            ));
        }
    }

    /// The finished file.
    pub fn finish(self) -> (r: Vec<u8>)
        ensures
            r@ == self@.out,
    {
        self.out
    }
}

/// The precision a set of timestamps needs.
///
/// Microsecond unless something carries sub-microsecond detail, in which
/// case writing microseconds would silently discard it.
pub fn precision_for(times: &[Timestamp]) -> (r: Precision)
    ensures
        r == Precision::Nano <==> exists|i: int|
            0 <= i < times@.len() && (#[trigger] times@[i]).nanos % 1000 != 0,
{
    let mut i: usize = 0;
    while i < times.len()
        invariant
            i <= times@.len(),
            forall|j: int| 0 <= j < i ==> (#[trigger] times@[j]).nanos % 1000 == 0,
        decreases times.len() - i,
    {
        if times[i].nanos % 1000 != 0 {
            return Precision::Nano;
        }
        i += 1;
    }
    Precision::Micro
}

// ---- what was written reads back ------------------------------------------------

/// The records of several packets.
pub open spec fn all_records(ps: Seq<PacketView>, snaplen: u32, precision: Precision) -> Seq<u8>
    decreases ps.len(),
{
    if ps.len() == 0 {
        Seq::empty()
    } else {
        record_bytes(ps[0], snaplen, precision) + all_records(
            ps.drop_first(),
            snaplen,
            precision,
        )
    }
}

/// A whole file.
pub open spec fn file_bytes(
    link_type: u32,
    snaplen: u32,
    precision: Precision,
    ps: Seq<PacketView>,
) -> Seq<u8> {
    header_bytes(link_type, snaplen, precision) + all_records(ps, snaplen, precision)
}

/// A packet as the file keeps it: the time in the file's units and range, the
/// bytes up to the snapshot length.
pub open spec fn as_stored(p: PacketView, snaplen: u32, precision: Precision) -> RawView {
    let caplen = stored_len(p.bytes.len() as int, snaplen);
    RawView {
        ts: Timestamp {
            secs: secs_of(p.ts.secs) as i64,
            nanos: super::reader::nanos_of(frac_of(p.ts.nanos, precision), precision),
        },
        caplen,
        orig_len: wire_len(p.orig_len, caplen),
        bytes: p.bytes.take(caplen as int),
    }
}

proof fn lemma_record(d: Seq<u8>, at: int, p: PacketView, snaplen: u32, precision: Precision)
    requires
        0 <= at,
        at + record_bytes(p, snaplen, precision).len() <= d.len(),
        d.subrange(at, at + record_bytes(p, snaplen, precision).len()) == record_bytes(
            p,
            snaplen,
            precision,
        ),
    ensures
        record_bytes(p, snaplen, precision).len() == 16 + stored_len(
            p.bytes.len() as int,
            snaplen,
        ),
        super::reader::record_at(d, at, true, precision, 0) == as_stored(p, snaplen, precision),
        le32(d, at + 8) == stored_len(p.bytes.len() as int, snaplen),
        le32(d, at + 12) == wire_len(p.orig_len, stored_len(p.bytes.len() as int, snaplen)),
{
    let rec = record_bytes(p, snaplen, precision);
    let caplen = stored_len(p.bytes.len() as int, snaplen);
    let n = rec.len() as int;
    let s = d.subrange(at, at + n);
    assert(n == 16 + caplen);
    assert(d.subrange(at, at + 4) =~= s.subrange(0, 4));
    assert(s.subrange(0, 4) =~= le32_bytes(secs_of(p.ts.secs)));
    le32_found(d, at, secs_of(p.ts.secs));
    assert(d.subrange(at + 4, at + 8) =~= s.subrange(4, 8));
    assert(s.subrange(4, 8) =~= le32_bytes(frac_of(p.ts.nanos, precision)));
    le32_found(d, at + 4, frac_of(p.ts.nanos, precision));
    assert(d.subrange(at + 8, at + 12) =~= s.subrange(8, 12));
    assert(s.subrange(8, 12) =~= le32_bytes(caplen));
    le32_found(d, at + 8, caplen);
    assert(d.subrange(at + 12, at + 16) =~= s.subrange(12, 16));
    assert(s.subrange(12, 16) =~= le32_bytes(wire_len(p.orig_len, caplen)));
    le32_found(d, at + 12, wire_len(p.orig_len, caplen));
    assert(d.subrange(at + 16, at + 16 + caplen) =~= s.subrange(16, n));
    assert(s.subrange(16, n) =~= p.bytes.take(caplen as int));
}

proof fn lemma_records(
    d: Seq<u8>,
    at: int,
    ps: Seq<PacketView>,
    snaplen: u32,
    precision: Precision,
    got: Seq<RawView>,
)
    requires
        0 <= at <= d.len() <= usize::MAX,
        d.subrange(at, d.len() as int) == all_records(ps, snaplen, precision),
        forall|i: int|
            0 <= i < ps.len() ==> stored_len((#[trigger] ps[i]).bytes.len() as int, snaplen)
                <= MAX_RECORD,
    ensures
        records(d, at, true, precision, 0, got) == Ok::<
            (Seq<RawView>, Option<usize>),
            super::ReadError,
        >((got + ps.map_values(|p: PacketView| as_stored(p, snaplen, precision)), None)),
    decreases ps.len(),
{
    let view = |p: PacketView| as_stored(p, snaplen, precision);
    if ps.len() == 0 {
        assert(d.subrange(at, d.len() as int).len() == 0);
        assert(got + ps.map_values(view) =~= got);
    } else {
        let rec = record_bytes(ps[0], snaplen, precision);
        let rest = all_records(ps.drop_first(), snaplen, precision);
        let all = d.subrange(at, d.len() as int);
        assert(all =~= rec + rest);
        assert(d.subrange(at, at + rec.len()) =~= all.subrange(0, rec.len() as int));
        assert(all.subrange(0, rec.len() as int) =~= rec);
        lemma_record(d, at, ps[0], snaplen, precision);
        let end = at + rec.len();
        assert(d.subrange(end, d.len() as int) =~= all.subrange(
            rec.len() as int,
            all.len() as int,
        ));
        assert(all.subrange(rec.len() as int, all.len() as int) =~= rest);
        let next = got.push(as_stored(ps[0], snaplen, precision));
        assert forall|i: int| 0 <= i < ps.drop_first().len() implies stored_len(
            (#[trigger] ps.drop_first()[i]).bytes.len() as int,
            snaplen,
        ) <= MAX_RECORD by {
            assert(ps.drop_first()[i] == ps[i + 1]);
        }
        assert(stored_len(ps[0].bytes.len() as int, snaplen) <= MAX_RECORD);
        lemma_records(d, end, ps.drop_first(), snaplen, precision, next);
        assert(next + ps.drop_first().map_values(view) =~= got + ps.map_values(view));
    }
}

proof fn lemma_header(d: Seq<u8>, link_type: u32, snaplen: u32, precision: Precision)
    requires
        24 <= d.len(),
        d.take(24) == header_bytes(link_type, snaplen, precision),
    ensures
        le32(d, 0) == precision.mark(),
        header_of(d, true, precision) == (Header {
            little_endian: true,
            version_major: 2,
            version_minor: 4,
            thiszone: 0,
            sigfigs: 0,
            snaplen,
            link_type,
            ts_per_sec: precision.units(),
        }),
{
    let head = d.take(24);
    assert(d.subrange(0, 4) =~= head.subrange(0, 4));
    assert(head.subrange(0, 4) =~= le32_bytes(precision.mark()));
    le32_found(d, 0, precision.mark());
    assert(d.subrange(4, 6) =~= head.subrange(4, 6));
    assert(head.subrange(4, 6) =~= le16_bytes(2));
    le16_found(d, 4, 2);
    assert(d.subrange(6, 8) =~= head.subrange(6, 8));
    assert(head.subrange(6, 8) =~= le16_bytes(4));
    le16_found(d, 6, 4);
    assert(d.subrange(8, 12) =~= head.subrange(8, 12));
    assert(head.subrange(8, 12) =~= le32_bytes(0));
    le32_found(d, 8, 0);
    assert(d.subrange(12, 16) =~= head.subrange(12, 16));
    assert(head.subrange(12, 16) =~= le32_bytes(0));
    le32_found(d, 12, 0);
    assert(d.subrange(16, 20) =~= head.subrange(16, 20));
    assert(head.subrange(16, 20) =~= le32_bytes(snaplen));
    le32_found(d, 16, snaplen);
    assert(d.subrange(20, 24) =~= head.subrange(20, 24));
    assert(head.subrange(20, 24) =~= le32_bytes(link_type));
    le32_found(d, 20, link_type);
}

/// The magic written least significant byte first announces that order.
proof fn lemma_magic(d: Seq<u8>, precision: Precision)
    requires
        4 <= d.len(),
        le32(d, 0) == precision.mark(),
    ensures
        announced(d) == Some((true, precision)),
        format_of(d) is Pcap,
{
    // Read the other way round, the magic is none of those known.
    assert(d[3] == 0xa1);
    assert(d[2] == 0xb2);
    assert(be32(d, 0) % 0x100 == 0xa1);
}

/// A written file reads back: the header as given, and every packet as the
/// file keeps it, with nothing cut short.
pub proof fn written_file_reads_back(
    link_type: u32,
    snaplen: u32,
    precision: Precision,
    ps: Seq<PacketView>,
)
    requires
        file_bytes(link_type, snaplen, precision, ps).len() <= usize::MAX,
        forall|i: int|
            0 <= i < ps.len() ==> stored_len((#[trigger] ps[i]).bytes.len() as int, snaplen)
                <= MAX_RECORD,
    ensures
        parsed(file_bytes(link_type, snaplen, precision, ps)) == Ok::<FileView, super::ReadError>(
            FileView {
                header: Header {
                    little_endian: true,
                    version_major: 2,
                    version_minor: 4,
                    thiszone: 0,
                    sigfigs: 0,
                    snaplen,
                    link_type,
                    ts_per_sec: precision.units(),
                },
                frames: ps.map_values(|p: PacketView| as_stored(p, snaplen, precision)),
                truncated_at: None,
            },
        ),
{
    let d = file_bytes(link_type, snaplen, precision, ps);
    assert(header_bytes(link_type, snaplen, precision).len() == 24);
    assert(d.take(24) =~= header_bytes(link_type, snaplen, precision));
    lemma_header(d, link_type, snaplen, precision);
    lemma_magic(d, precision);
    assert(d.subrange(24, d.len() as int) =~= all_records(ps, snaplen, precision));
    lemma_records(d, 24, ps, snaplen, precision, Seq::empty());
    assert(Seq::<RawView>::empty() + ps.map_values(
        |p: PacketView| as_stored(p, snaplen, precision),
    ) =~= ps.map_values(|p: PacketView| as_stored(p, snaplen, precision)));
}

} // verus!

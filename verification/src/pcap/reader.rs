//! Classic pcap reader. Every length is bounds-checked and every field is
//! treated as adversarial: a savefile is untrusted input like any other.

use vstd::prelude::*;

use super::{announced, announcement, format_of, sniff, Format, Header, Precision};
use crate::bytes;
use crate::bytes::{word16, word32};
use crate::capture::{RawFrame, RawView, Timestamp};
use crate::text;

verus! {

/// A record header is four 32-bit fields.
pub const RECORD_HEADER: usize = 16;

/// The fixed part of the file.
pub const FILE_HEADER: usize = 24;

/// Refuse a record claiming more bytes than this. libpcap's own limit is
/// 262,144; files in the wild occasionally carry more, so the cap is
/// generous, but a record claiming four gigabytes is a corrupt length field
/// and allocating for it would be the bug the field was aiming for.
pub const MAX_RECORD: u32 = 16 * 1024 * 1024;

#[derive(Debug, Clone, Copy, PartialEq, Eq)]
pub enum ReadError {
    NotPcap,
    /// The Kuznetsov variant, which shares pcap's shape but not its record
    /// layout. Named rather than misread.
    Modified,
    Truncated { at: usize },
    BadRecord { at: usize, what: &'static str },
}

/// What the modified format is refused with.
pub const MODIFIED: &'static str =
    "this is a modified-format pcap (magic a1b2cd34), which netscope cannot read; convert it with `editcap` or `tcpdump -r`";

impl ReadError {
    /// The message shown for an error.
    pub open spec fn message(self) -> Seq<char> {
        match self {
            ReadError::NotPcap => "not a pcap file"@,
            ReadError::Modified => MODIFIED@,
            ReadError::Truncated { at } => "file truncated at byte "@ + text::dec(at as int) + ""@,
            ReadError::BadRecord { at, what } => "bad record at byte "@ + text::dec(at as int)
                + ": "@ + what@,
        }
    }

    /// The message shown for this error.
    pub fn text(&self) -> (r: String)
        ensures
            r@ == self.message(),
    {
        match *self {
            ReadError::NotPcap => text::owned("not a pcap file"),
            ReadError::Modified => text::owned(MODIFIED),
            ReadError::Truncated { at } => text::cat_dec("file truncated at byte ", at as u64, ""),
            ReadError::BadRecord { at, what } => {
                let mut out: String = text::cat_dec("bad record at byte ", at as u64, ": ");
                out.push_str(what);
                out
            },
        }
    }
}

/// A parsed file: one link type for every packet, which is what makes this
/// format simpler than pcapng and less able to describe a real capture.
#[derive(Debug, Clone)]
pub struct File {
    pub header: Header,
    pub frames: Vec<RawFrame>,
    /// The record that could not be read. A file truncated mid-capture is
    /// ordinary, since the writer was killed, so the packets before the
    /// damage are returned rather than the whole read failing.
    pub truncated_at: Option<usize>,
}

/// What a file holds.
#[verifier::ext_equal]
pub struct FileView {
    pub header: Header,
    pub frames: Seq<RawView>,
    pub truncated_at: Option<usize>,
}

/// What captured frames hold.
pub open spec fn raw_views(v: Seq<RawFrame>) -> Seq<RawView> {
    v.map_values(|f: RawFrame| f@)
}

impl View for File {
    type V = FileView;

    open spec fn view(&self) -> FileView {
        FileView {
            header: self.header,
            frames: raw_views(self.frames@),
            truncated_at: self.truncated_at,
        }
    }
}

/// The file header.
pub open spec fn header_of(d: Seq<u8>, little: bool, precision: Precision) -> Header {
    Header {
        little_endian: little,
        version_major: word16(d, 4, little),
        version_minor: word16(d, 6, little),
        thiszone: word32(d, 8, little) as i32,
        sigfigs: word32(d, 12, little),
        snaplen: word32(d, 16, little),
        link_type: word32(d, 20, little),
        ts_per_sec: precision.units(),
    }
}

/// The nanoseconds that a fractional field stands for. It counts whatever
/// unit the magic declared, and a value beyond one second is clamped.
pub open spec fn nanos_of(frac: u32, precision: Precision) -> u32 {
    let n = match precision {
        Precision::Micro => frac * 1000,
        Precision::Nano => frac as int,
    };
    (if n > 999_999_999 {
        999_999_999
    } else {
        n
    }) as u32
}

fn read_nanos(frac: u32, precision: Precision) -> (r: u32)
    ensures
        r == nanos_of(frac, precision),
{
    let n: u64 = match precision {
        Precision::Micro => frac as u64 * 1000,
        Precision::Nano => frac as u64,
    };
    if n > 999_999_999 {
        999_999_999
    } else {
        n as u32
    }
}

/// The record at `at`, whose header and bytes are there.
pub open spec fn record_at(
    d: Seq<u8>,
    at: int,
    little: bool,
    precision: Precision,
    zone: i32,
) -> RawView {
    let caplen = word32(d, at + 8, little);
    RawView {
        ts: Timestamp {
            secs: (word32(d, at, little) + zone) as i64,
            nanos: nanos_of(word32(d, at + 4, little), precision),
        },
        caplen,
        orig_len: word32(d, at + 12, little),
        bytes: d.subrange(at + 16, at + 16 + caplen),
    }
}

/// The records from `at` on, behind the frames read so far, and where the file
/// was cut short.
pub open spec fn records(
    d: Seq<u8>,
    at: int,
    little: bool,
    precision: Precision,
    zone: i32,
    got: Seq<RawView>,
) -> Result<(Seq<RawView>, Option<usize>), ReadError>
    decreases d.len() - at,
{
    let caplen = word32(d, at + 8, little);
    let orig_len = word32(d, at + 12, little);
    let end = at + RECORD_HEADER + caplen;
    if at >= d.len() {
        Ok((got, None))
    } else if at + RECORD_HEADER > d.len() {
        // A partial record header is a file cut short, not a corrupt one.
        Ok((got, Some(at as usize)))
    } else if caplen > MAX_RECORD {
        Err(
            ReadError::BadRecord {
                at: at as usize,
                what: "captured length is implausibly large",
            },
        )
    } else if caplen > orig_len && orig_len != 0 {
        // A capture cannot hold more bytes than the wire carried.
        Err(
            ReadError::BadRecord {
                at: at as usize,
                what: "captured length exceeds original length",
            },
        )
    } else if end > usize::MAX {
        Err(ReadError::BadRecord { at: at as usize, what: "record length overflows" })
    } else if end > d.len() {
        Ok((got, Some(at as usize)))
    } else {
        records(
            d,
            end,
            little,
            precision,
            zone,
            got.push(record_at(d, at, little, precision, zone)),
        )
    }
}

/// What a file says.
pub open spec fn parsed(d: Seq<u8>) -> Result<FileView, ReadError> {
    match format_of(d) {
        Format::Pcap => {
            let (little, precision) = announced(d)->0;
            if d.len() < FILE_HEADER {
                Err(ReadError::Truncated { at: d.len() as usize })
            } else {
                let header = header_of(d, little, precision);
                match records(
                    d,
                    FILE_HEADER as int,
                    little,
                    precision,
                    header.thiszone,
                    Seq::empty(),
                ) {
                    Ok((frames, truncated_at)) => Ok(FileView { header, frames, truncated_at }),
                    Err(e) => Err(e),
                }
            }
        },
        Format::PcapModified => Err(ReadError::Modified),
        _ => Err(ReadError::NotPcap),
    }
}

/// The outcome of a read, by what it holds.
pub open spec fn outcome_of(r: Result<File, ReadError>) -> Result<FileView, ReadError> {
    match r {
        Ok(f) => Ok(f@),
        Err(e) => Err(e),
    }
}

/// Parse a pcap file.
pub fn read(data: &[u8]) -> (r: Result<File, ReadError>)
    ensures
        outcome_of(r) == parsed(data@),
{
    match sniff(data) {
        Format::Pcap => {},
        Format::PcapModified => {
            return Err(ReadError::Modified);
        },
        _ => {
            return Err(ReadError::NotPcap);
        },
    }
    let (little, precision) = match announcement(data) {
        Some(found) => found,
        None => {
            return Err(ReadError::NotPcap);
        },
    };
    let n: usize = data.len();
    if n < FILE_HEADER {
        return Err(ReadError::Truncated { at: n });
    }
    let header = Header {
        little_endian: little,
        version_major: bytes::get_word16(data, 4, little),
        version_minor: bytes::get_word16(data, 6, little),
        thiszone: bytes::get_word32(data, 8, little) as i32,
        sigfigs: bytes::get_word32(data, 12, little),
        snaplen: bytes::get_word32(data, 16, little),
        link_type: bytes::get_word32(data, 20, little),
        ts_per_sec: precision.per_sec(),
    };
    let zone: i32 = header.thiszone;
    let mut frames: Vec<RawFrame> = Vec::new();
    let mut truncated_at: Option<usize> = None;
    let mut at: usize = FILE_HEADER;
    assert(raw_views(frames@) =~= Seq::empty());
    let ghost all = records(
        data@,
        FILE_HEADER as int,
        little,
        precision,
        zone,
        Seq::empty(),
    );
    while at < n && truncated_at.is_none()
        invariant
            n == data@.len(),
            at <= n,
            match truncated_at {
                None => all == records(
                    data@,
                    at as int,
                    little,
                    precision,
                    zone,
                    raw_views(frames@),
                ),
                Some(_) => all == Ok::<(Seq<RawView>, Option<usize>), ReadError>(
                    (raw_views(frames@), truncated_at),
                ),
            },
            header == header_of(data@, little, precision),
            header.thiszone == zone,
            parsed(data@) == (match all {
                Ok((frames, truncated_at)) => Ok::<FileView, ReadError>(
                    FileView { header, frames, truncated_at },
                ),
                Err(e) => Err(e),
            }),
        decreases n - at, (if truncated_at is None {
            1int
        } else {
            0int
        }),
    {
        if n - at < RECORD_HEADER {
            truncated_at = Some(at);
        } else {
            let secs: u32 = bytes::get_word32(data, at, little);
            let frac: u32 = bytes::get_word32(data, at + 4, little);
            let caplen: u32 = bytes::get_word32(data, at + 8, little);
            let orig_len: u32 = bytes::get_word32(data, at + 12, little);
            if caplen > MAX_RECORD {
                return Err(
                    ReadError::BadRecord { at, what: "captured length is implausibly large" },
                );
            }
            if caplen > orig_len && orig_len != 0 {
                return Err(
                    ReadError::BadRecord { at, what: "captured length exceeds original length" },
                );
            }
            let body: usize = at + RECORD_HEADER;
            match body.checked_add(caplen as usize) {
                None => {
                    return Err(ReadError::BadRecord { at, what: "record length overflows" });
                },
                Some(end) => {
                    if end > n {
                        truncated_at = Some(at);
                    } else {
                        let ghost before = raw_views(frames@);
                        let frame = RawFrame {
                            ts: Timestamp {
                                secs: secs as i64 + zone as i64,
                                nanos: read_nanos(frac, precision),
                            },
                            caplen,
                            orig_len,
                            bytes: bytes::copy_of(bytes::part(data, body, end)),
                        };
                        proof {
                            assert(frame@ == record_at(
                                data@,
                                at as int,
                                little,
                                precision,
                                zone,
                            ));
                        }
                        frames.push(frame);
                        proof {
                            assert(raw_views(frames@) =~= before.push(
                                record_at(data@, at as int, little, precision, zone),
                            ));
                        }
                        at = end;
                    }
                },
            }
        }
    }
    Ok(File { header, frames, truncated_at })
}

// ---- files cut short ------------------------------------------------------------

/// `a` is the beginning of `b`.
pub open spec fn leads<A>(a: Seq<A>, b: Seq<A>) -> bool {
    a.len() <= b.len() && b.take(a.len() as int) == a
}

proof fn lemma_same_words(d: Seq<u8>, n: int, i: int, little: bool)
    requires
        0 <= i,
        i + 4 <= n <= d.len(),
    ensures
        word32(d.take(n), i, little) == word32(d, i, little),
        word16(d.take(n), i, little) == word16(d, i, little),
{
    let t = d.take(n);
    assert(t[i] == d[i] && t[i + 1] == d[i + 1] && t[i + 2] == d[i + 2] && t[i + 3] == d[i + 3]);
}

/// What was read already stays in front.
proof fn lemma_grows(
    d: Seq<u8>,
    at: int,
    little: bool,
    precision: Precision,
    zone: i32,
    got: Seq<RawView>,
)
    ensures
        records(d, at, little, precision, zone, got) matches Ok((frames, _)) ==> leads(got, frames),
    decreases d.len() - at,
{
    let caplen = word32(d, at + 8, little);
    let end = at + RECORD_HEADER + caplen;
    assert(got.take(got.len() as int) =~= got);
    if at < d.len() && end <= d.len() {
        let next = got.push(record_at(d, at, little, precision, zone));
        lemma_grows(d, end, little, precision, zone, next);
        if let Ok((frames, _)) = records(d, end, little, precision, zone, next) {
            if leads(next, frames) {
                assert(frames.take(got.len() as int) =~= frames.take(next.len() as int).take(
                    got.len() as int,
                ));
                assert(next.take(got.len() as int) =~= got);
            }
        }
    }
}

/// Where record `k` of a file starts, and record `k - 1` ends.
pub open spec fn boundary(d: Seq<u8>, little: bool, k: int) -> int
    decreases k,
{
    if k <= 0 {
        FILE_HEADER as int
    } else {
        let at = boundary(d, little, k - 1);
        at + RECORD_HEADER + word32(d, at + 8, little)
    }
}

/// The frames read from the first `n` bytes of a file, of which `all` are the
/// frames: those whose records end in these bytes. Where a record is cut, it
/// is named.
pub open spec fn cut_right(
    d: Seq<u8>,
    little: bool,
    n: int,
    all: Seq<RawView>,
    frames: Seq<RawView>,
    truncated_at: Option<usize>,
) -> bool {
    let k = frames.len() as int;
    &&& leads(frames, all)
    &&& boundary(d, little, k) <= n
    &&& k < all.len() ==> n < boundary(d, little, k + 1)
    &&& truncated_at == (if boundary(d, little, k) == n {
        None::<usize>
    } else {
        Some(boundary(d, little, k) as usize)
    })
}

proof fn lemma_cut(
    d: Seq<u8>,
    n: int,
    at: int,
    little: bool,
    precision: Precision,
    zone: i32,
    got: Seq<RawView>,
)
    requires
        0 <= at <= n <= d.len() <= usize::MAX,
        at == boundary(d, little, got.len() as int),
        records(d, at, little, precision, zone, got) is Ok,
    ensures
        records(d.take(n), at, little, precision, zone, got) matches Ok((frames, cut)) && cut_right(
            d,
            little,
            n,
            (records(d, at, little, precision, zone, got)->Ok_0).0,
            frames,
            cut,
        ),
    decreases d.len() - at,
{
    let t = d.take(n);
    lemma_grows(d, at, little, precision, zone, got);
    if at + RECORD_HEADER <= n {
        lemma_same_words(d, n, at, little);
        lemma_same_words(d, n, at + 4, little);
        lemma_same_words(d, n, at + 8, little);
        lemma_same_words(d, n, at + 12, little);
        let caplen = word32(d, at + 8, little);
        let end = at + RECORD_HEADER + caplen;
        if end <= n {
            assert(t.subrange(at + 16, end) =~= d.subrange(at + 16, end));
            lemma_cut(
                d,
                n,
                end,
                little,
                precision,
                zone,
                got.push(record_at(d, at, little, precision, zone)),
            );
        }
    }
}

/// A file cut anywhere behind its header still reads, and yields exactly the
/// packets whose records are whole. Unless the cut falls between two records,
/// the first record that is not whole is named.
pub proof fn cutting_keeps_earlier_packets(d: Seq<u8>, n: int)
    requires
        FILE_HEADER <= n <= d.len() <= usize::MAX,
        parsed(d) is Ok,
    ensures
        parsed(d.take(n)) matches Ok(f) && f.header == (parsed(d)->Ok_0).header && cut_right(
            d,
            f.header.little_endian,
            n,
            (parsed(d)->Ok_0).frames,
            f.frames,
            f.truncated_at,
        ),
{
    let (little, precision) = announced(d)->0;
    lemma_same_words(d, n, 0, true);
    lemma_same_words(d, n, 0, false);
    lemma_same_words(d, n, 4, little);
    lemma_same_words(d, n, 6, little);
    lemma_same_words(d, n, 8, little);
    lemma_same_words(d, n, 12, little);
    lemma_same_words(d, n, 16, little);
    lemma_same_words(d, n, 20, little);
    lemma_cut(
        d,
        n,
        FILE_HEADER as int,
        little,
        precision,
        header_of(d, little, precision).thiszone,
        Seq::empty(),
    );
}

} // verus!

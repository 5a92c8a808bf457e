//! Classic pcap (the libpcap savefile format) reading and writing, hand
//! written against the layout.
//!
//! The format is a 24-byte header and then, for each packet, a 16-byte
//! record header and its bytes. What makes it fiddly is that four things
//! vary and only the magic number says which: byte order, timestamp
//! precision, and, in two variants that are not this format but share its
//! shape, the meaning of the record header's fields.
//!
//! | magic (as written) | meaning |
//! |---|---|
//! | `a1b2c3d4` | big-endian, microsecond timestamps |
//! | `d4c3b2a1` | little-endian, microsecond timestamps |
//! | `a1b23c4d` | big-endian, nanosecond timestamps |
//! | `4d3cb2a1` | little-endian, nanosecond timestamps |
//! | `a1b2cd34` | Alexey Kuznetsov's modified format, refused |
//! | `34cdb2a1` | the same, byte-swapped, refused |
//!
//! The modified format inserts four extra fields into every record header.
//! Reading it as ordinary pcap does not fail; it silently yields packets
//! whose lengths and timestamps are nonsense. Refusing it by name is the
//! only honest option, so `ReadError::Modified` says what the file is.

use vstd::prelude::*;

use crate::bytes;
use crate::bytes::{be32, le32};
use crate::pcapng::BLOCK_SHB;

pub mod layout;
pub mod reader;
pub mod writer;

pub use reader::{read, File, ReadError};
pub use writer::Writer;

verus! {

/// Written first in the file, in the writer's byte order.
pub const MAGIC_MICROS: u32 = 0xa1b2_c3d4;

/// Same, but record timestamps count nanoseconds (libpcap 1.5 and later).
pub const MAGIC_NANOS: u32 = 0xa1b2_3c4d;

/// Kuznetsov's modified format, which is not read.
pub const MAGIC_MODIFIED: u32 = 0xa1b2_cd34;

/// The fixed part of the file, before any packet.
#[derive(Debug, Clone, Copy, PartialEq, Eq)]
pub struct Header {
    /// True when the file was written little-endian.
    pub little_endian: bool,
    pub version_major: u16,
    pub version_minor: u16,
    /// Seconds the capturing host's clock was offset from UTC. Universally
    /// zero in practice, and kept only so a round trip preserves it.
    pub thiszone: i32,
    pub sigfigs: u32,
    pub snaplen: u32,
    pub link_type: u32,
    /// Timestamp units per second: 1e6 or 1e9.
    pub ts_per_sec: u64,
}

/// How precise the timestamps in a file are.
#[derive(Debug, Clone, Copy, PartialEq, Eq, Structural)]
pub enum Precision {
    Micro,
    Nano,
}

impl Default for Precision {
    fn default() -> (r: Precision)
        ensures
            r == Precision::Micro,
    {
        Precision::Micro
    }
}

impl Precision {
    /// Timestamp units per second.
    pub open spec fn units(self) -> u64 {
        match self {
            Precision::Micro => 1_000_000,
            Precision::Nano => 1_000_000_000,
        }
    }

    /// The number that announces this precision.
    pub open spec fn mark(self) -> u32 {
        match self {
            Precision::Micro => MAGIC_MICROS,
            Precision::Nano => MAGIC_NANOS,
        }
    }

    /// Timestamp units per second.
    pub fn per_sec(self) -> (r: u64)
        ensures
            r == self.units(),
    {
        match self {
            Precision::Micro => 1_000_000,
            Precision::Nano => 1_000_000_000,
        }
    }

    /// The number that announces this precision.
    pub fn magic(self) -> (r: u32)
        ensures
            r == self.mark(),
    {
        match self {
            Precision::Micro => MAGIC_MICROS,
            Precision::Nano => MAGIC_NANOS,
        }
    }

    pub fn name(self) -> (r: &'static str)
        ensures
            r@ == (match self {
                Precision::Micro => "microsecond"@,
                Precision::Nano => "nanosecond"@,
            }),
    {
        match self {
            Precision::Micro => "microsecond",
            Precision::Nano => "nanosecond",
        }
    }
}

/// Which format a file is, judged by its first four bytes.
#[derive(Debug, Clone, Copy, PartialEq, Eq, Structural)]
pub enum Format {
    Pcap,
    Pcapng,
    /// Looks like pcap but is a variant that is not read.
    PcapModified,
    Unknown,
}

/// The byte order and the precision that the first four bytes announce. A
/// file whose magic reads correctly big-endian is big-endian.
pub open spec fn announced(d: Seq<u8>) -> Option<(bool, Precision)> {
    if d.len() < 4 {
        None
    } else if be32(d, 0) == MAGIC_MICROS {
        Some((false, Precision::Micro))
    } else if be32(d, 0) == MAGIC_NANOS {
        Some((false, Precision::Nano))
    } else if le32(d, 0) == MAGIC_MICROS {
        Some((true, Precision::Micro))
    } else if le32(d, 0) == MAGIC_NANOS {
        Some((true, Precision::Nano))
    } else {
        None
    }
}

/// What a file is, by its first four bytes.
pub open spec fn format_of(d: Seq<u8>) -> Format {
    if d.len() < 4 {
        Format::Unknown
    } else if be32(d, 0) == BLOCK_SHB {
        Format::Pcapng
    } else if announced(d) is Some {
        Format::Pcap
    } else if be32(d, 0) == MAGIC_MODIFIED || le32(d, 0) == MAGIC_MODIFIED {
        Format::PcapModified
    } else {
        Format::Unknown
    }
}

/// The byte order and the precision that the first four bytes announce.
pub(crate) fn announcement(data: &[u8]) -> (r: Option<(bool, Precision)>)
    ensures
        r == announced(data@),
{
    if data.len() < 4 {
        return None;
    }
    let be: u32 = bytes::get_be32(data, 0);
    let le: u32 = bytes::get_le32(data, 0);
    if be == MAGIC_MICROS {
        Some((false, Precision::Micro))
    } else if be == MAGIC_NANOS {
        Some((false, Precision::Nano))
    } else if le == MAGIC_MICROS {
        Some((true, Precision::Micro))
    } else if le == MAGIC_NANOS {
        Some((true, Precision::Nano))
    } else {
        None
    }
}

/// Identify a file from its first bytes.
///
/// By content, never by file name. A `.pcap` that is really pcapng is
/// common, since tcpdump has written pcapng by default for years on some
/// systems, and choosing a parser from the extension turns that into a
/// parse error, or worse, a misparse.
pub fn sniff(data: &[u8]) -> (r: Format)
    ensures
        r == format_of(data@),
{
    if data.len() < 4 {
        return Format::Unknown;
    }
    let be: u32 = bytes::get_be32(data, 0);
    let le: u32 = bytes::get_le32(data, 0);
    if be == BLOCK_SHB {
        return Format::Pcapng;
    }
    match announcement(data) {
        Some(_) => Format::Pcap,
        None => if be == MAGIC_MODIFIED || le == MAGIC_MODIFIED {
            Format::PcapModified
        } else {
            Format::Unknown
        },
    }
}

} // verus!

//! What a capture source hands over: timestamps, link types and raw frames.

use vstd::prelude::*;

verus! {

/// Wall-clock time of a frame.
#[derive(Debug, Clone, Copy, PartialEq, Eq, PartialOrd, Ord, Hash, Structural)]
pub struct Timestamp {
    pub secs: i64,
    pub nanos: u32,
}

impl Default for Timestamp {
    fn default() -> (r: Timestamp)
        ensures
            r == (Timestamp { secs: 0, nanos: 0 }),
    {
        Timestamp { secs: 0, nanos: 0 }
    }
}

impl Timestamp {
    /// Seconds first, then nanoseconds.
    pub open spec fn earlier_than(self, other: Timestamp) -> bool {
        self.secs < other.secs || (self.secs == other.secs && self.nanos < other.nanos)
    }

    /// Whether this time comes strictly before `other`.
    pub fn earlier(self, other: Timestamp) -> (r: bool)
        ensures
            r == self.earlier_than(other),
    {
        self.secs < other.secs || (self.secs == other.secs && self.nanos < other.nanos)
    }
}

/// The link-layer header type of a capture.
#[derive(Debug, Clone, Copy, PartialEq, Eq, Hash, Structural)]
pub struct LinkType(pub i32);

/// BSD loopback.
pub const LINK_NULL: i32 = 0;

/// Ethernet.
pub const LINK_ETHERNET: i32 = 1;

/// Raw IP, no link header.
pub const LINK_RAW: i32 = 12;

impl LinkType {
    /// Ethernet.
    pub fn ethernet() -> (r: LinkType)
        ensures
            r == LinkType(LINK_ETHERNET),
    {
        LinkType(LINK_ETHERNET)
    }

    /// BSD loopback.
    pub fn null() -> (r: LinkType)
        ensures
            r == LinkType(LINK_NULL),
    {
        LinkType(LINK_NULL)
    }

    /// Raw IP.
    pub fn raw() -> (r: LinkType)
        ensures
            r == LinkType(LINK_RAW),
    {
        LinkType(LINK_RAW)
    }
}

/// One frame as captured.
#[derive(Debug, Clone, PartialEq, Eq)]
pub struct RawFrame {
    pub ts: Timestamp,
    /// Bytes captured.
    pub caplen: u32,
    /// Bytes on the wire.
    pub orig_len: u32,
    pub bytes: Vec<u8>,
}

/// What a captured frame holds.
#[verifier::ext_equal]
pub struct RawView {
    pub ts: Timestamp,
    pub caplen: u32,
    pub orig_len: u32,
    pub bytes: Seq<u8>,
}

impl View for RawFrame {
    type V = RawView;

    open spec fn view(&self) -> RawView {
        RawView {
            ts: self.ts,
            caplen: self.caplen,
            orig_len: self.orig_len,
            bytes: self.bytes@,
        }
    }
}

} // verus!

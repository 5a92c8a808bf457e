//! Minimal pcapng reader: SHB (either endianness), IDB with `if_tsresol`,
//! EPB and SPB. Other blocks are skipped. Every length is bounds-checked.

use vstd::prelude::*;

use super::{
    chars_of, pad4, padded_len, units_of, Interface, InterfaceView, BLOCK_EPB, BLOCK_IDB,
    BLOCK_SHB, BLOCK_SPB, BYTE_ORDER_MAGIC, OPT_ENDOFOPT, OPT_IF_NAME, OPT_IF_TSRESOL,
    OPT_SHB_USERAPPL,
};
use crate::bytes;
use crate::bytes::{be32, le32, word16, word32};
use crate::capture::{RawFrame, RawView, Timestamp};
use crate::text;
use crate::text::utf8_lossy;

verus! {

#[derive(Debug, Clone, Copy, PartialEq, Eq)]
pub enum ReadError {
    NotPcapng,
    Truncated { at: usize },
    BadBlock { at: usize, what: &'static str },
}

impl ReadError {
    /// The message shown for an error.
    pub open spec fn message(self) -> Seq<char> {
        match self {
            ReadError::NotPcapng => "not a pcapng file"@,
            ReadError::Truncated { at } => "file truncated at byte "@ + text::dec(at as int) + ""@,
            ReadError::BadBlock { at, what } => "bad block at byte "@ + text::dec(at as int)
                + ": "@ + what@,
        }
    }

    /// The message shown for this error.
    pub fn text(&self) -> (r: String)
        ensures
            r@ == self.message(),
    {
        match *self {
            ReadError::NotPcapng => text::owned("not a pcapng file"),
            ReadError::Truncated { at } => text::cat_dec("file truncated at byte ", at as u64, ""),
            ReadError::BadBlock { at, what } => {
                let mut out: String = text::cat_dec("bad block at byte ", at as u64, ": ");
                out.push_str(what);
                out
            },
        }
    }
}

/// One packet with the interface it was captured on.
#[derive(Debug, Clone)]
pub struct Packet {
    pub interface: u32,
    pub frame: RawFrame,
}

/// What a packet holds.
#[verifier::ext_equal]
pub struct PacketView {
    pub interface: u32,
    pub frame: RawView,
}

impl View for Packet {
    type V = PacketView;

    open spec fn view(&self) -> PacketView {
        PacketView { interface: self.interface, frame: self.frame@ }
    }
}

/// A parsed section (files with multiple sections are concatenated).
#[derive(Debug)]
pub struct Section {
    pub interfaces: Vec<Interface>,
    pub packets: Vec<Packet>,
    pub user_appl: Option<String>,
}

/// What a section holds.
#[verifier::ext_equal]
pub struct SectionView {
    pub interfaces: Seq<InterfaceView>,
    pub packets: Seq<PacketView>,
    pub user_appl: Option<Seq<char>>,
}

/// What interfaces are described as.
pub open spec fn interface_views(v: Seq<Interface>) -> Seq<InterfaceView> {
    v.map_values(|i: Interface| i@)
}

/// What packets hold.
pub open spec fn packet_views(v: Seq<Packet>) -> Seq<PacketView> {
    v.map_values(|p: Packet| p@)
}

impl View for Section {
    type V = SectionView;

    open spec fn view(&self) -> SectionView {
        SectionView {
            interfaces: interface_views(self.interfaces@),
            packets: packet_views(self.packets@),
            user_appl: chars_of(self.user_appl),
        }
    }
}

/// Nothing read yet.
pub open spec fn nothing() -> SectionView {
    SectionView { interfaces: Seq::empty(), packets: Seq::empty(), user_appl: None }
}

impl Default for Section {
    fn default() -> (r: Section)
        ensures
            r@ == nothing(),
    {
        let r = Section { interfaces: Vec::new(), packets: Vec::new(), user_appl: None };
        assert(r@ =~= nothing());
        r
    }
}

// ---- options --------------------------------------------------------------------

/// The value of the last option `code` from `at` on that has at least `least`
/// bytes, or `found` if there is none. The list ends at the end-of-options
/// mark, or where an option does not fit.
pub open spec fn option_value(
    body: Seq<u8>,
    at: int,
    little: bool,
    code: u16,
    least: int,
    found: Option<Seq<u8>>,
) -> Option<Seq<u8>>
    decreases body.len() - at,
{
    let here = word16(body, at, little);
    let len = word16(body, at + 2, little);
    if at < 0 || at + 4 > body.len() || here == OPT_ENDOFOPT || at + 4 + len > body.len() {
        found
    } else {
        let next = at + 4 + padded_len(len as int);
        let found = if here == code && len >= least {
            Some(body.subrange(at + 4, at + 4 + len))
        } else {
            found
        };
        if next > body.len() {
            found
        } else {
            option_value(body, next, little, code, least, found)
        }
    }
}

/// The last option `code` with at least `least` bytes.
fn find_option(body: &[u8], from: usize, little: bool, code: u16, least: usize) -> (r: Option<
    &[u8],
>)
    ensures
        match r {
            Some(v) => option_value(body@, from as int, little, code, least as int, None) == Some(
                v@,
            ) && v@.len() >= least,
            None => option_value(body@, from as int, little, code, least as int, None) is None,
        },
{
    let n: usize = body.len();
    let mut at: usize = from;
    let mut found: Option<&[u8]> = None;
    let ghost all = option_value(body@, from as int, little, code, least as int, None);
    while at <= n && n - at >= 4
        invariant
            n == body@.len(),
            all == option_value(body@, from as int, little, code, least as int, None),
            all == option_value(
                body@,
                at as int,
                little,
                code,
                least as int,
                match found {
                    Some(v) => Some(v@),
                    None => None,
                },
            ),
            found matches Some(v) ==> v@.len() >= least,
        decreases n - at,
    {
        let here: u16 = bytes::get_word16(body, at, little);
        let len: usize = bytes::get_word16(body, at + 2, little) as usize;
        if here == OPT_ENDOFOPT || len > n - at - 4 {
            return found;
        }
        if here == code && len >= least {
            found = Some(bytes::part(body, at + 4, at + 4 + len));
        }
        let step: usize = 4 + pad4(len);
        if step > n - at {
            return found;
        }
        at = at + step;
    }
    found
}

// ---- blocks ---------------------------------------------------------------------

/// The 32 bits at `i`, or zero where the body is too short.
pub open spec fn field(body: Seq<u8>, i: int, little: bool) -> u32 {
    if i + 4 <= body.len() {
        word32(body, i, little)
    } else {
        0
    }
}

fn read_field(body: &[u8], i: usize, little: bool) -> (r: u32)
    requires
        i <= 16,
    ensures
        r == field(body@, i as int, little),
{
    if i + 4 <= body.len() {
        bytes::get_word32(body, i, little)
    } else {
        0
    }
}

/// A new section: the interfaces restart.
pub open spec fn with_header(body: Seq<u8>, little: bool, s: SectionView) -> SectionView {
    SectionView {
        interfaces: Seq::empty(),
        user_appl: match option_value(body, 16, little, OPT_SHB_USERAPPL, 0, None) {
            Some(v) => Some(utf8_lossy(v)),
            None => s.user_appl,
        },
        ..s
    }
}

/// One more interface.
pub open spec fn described(body: Seq<u8>, little: bool) -> InterfaceView {
    InterfaceView {
        link_type: word16(body, 0, little),
        snaplen: field(body, 4, little),
        name: match option_value(body, 8, little, OPT_IF_NAME, 0, None) {
            Some(v) => Some(utf8_lossy(v)),
            None => None,
        },
        ts_per_sec: match option_value(body, 8, little, OPT_IF_TSRESOL, 1, None) {
            Some(v) => units_of(v[0]) as u64,
            None => 1_000_000,
        },
    }
}

/// The time that `units` of `per_sec` to the second stand for.
pub open spec fn time_of(units: u64, per_sec: u64) -> Timestamp {
    Timestamp {
        secs: (units / per_sec) as i64,
        nanos: (units % per_sec * (1_000_000_000u64 / per_sec)) as u32,
    }
}

/// The units of interface `i`, or the default for one that was not described.
pub open spec fn per_sec_of(s: SectionView, i: u32) -> u64 {
    if i < s.interfaces.len() {
        s.interfaces[i as int].ts_per_sec
    } else {
        1_000_000
    }
}

/// An enhanced packet.
pub open spec fn enhanced(body: Seq<u8>, little: bool, s: SectionView) -> PacketView {
    let interface = word32(body, 0, little);
    let caplen = field(body, 12, little);
    PacketView {
        interface,
        frame: RawView {
            ts: time_of(
                (field(body, 4, little) * 0x1_0000_0000 + field(body, 8, little)) as u64,
                per_sec_of(s, interface),
            ),
            caplen,
            orig_len: field(body, 16, little),
            bytes: body.subrange(20, 20 + caplen),
        },
    }
}

/// How many bytes a simple packet holds: the snapshot length of the first
/// interface bounds them.
pub open spec fn simple_len(body: Seq<u8>, little: bool, s: SectionView) -> u32 {
    let orig_len = field(body, 0, little);
    let snaplen = if s.interfaces.len() > 0 {
        s.interfaces[0].snaplen
    } else {
        0
    };
    if 0 < snaplen < orig_len {
        snaplen
    } else {
        orig_len
    }
}

/// A simple packet.
pub open spec fn simple(body: Seq<u8>, little: bool, s: SectionView) -> PacketView {
    let caplen = simple_len(body, little, s);
    PacketView {
        interface: 0,
        frame: RawView {
            ts: Timestamp { secs: 0, nanos: 0 },
            caplen,
            orig_len: field(body, 0, little),
            bytes: body.subrange(4, 4 + caplen),
        },
    }
}

/// What a block of kind `kind` at `at` adds.
pub open spec fn with_block(
    kind: u32,
    body: Seq<u8>,
    at: int,
    little: bool,
    s: SectionView,
) -> Result<
    SectionView,
    ReadError,
> {
    if kind == BLOCK_SHB {
        Ok(with_header(body, little, s))
    } else if kind == BLOCK_IDB {
        if body.len() < 2 {
            Err(ReadError::BadBlock { at: at as usize, what: "IDB too short" })
        } else {
            Ok(SectionView { interfaces: s.interfaces.push(described(body, little)), ..s })
        }
    } else if kind == BLOCK_EPB {
        if body.len() < 4 {
            Err(ReadError::BadBlock { at: at as usize, what: "EPB too short" })
        } else if 20 + field(body, 12, little) > body.len() {
            Err(
                ReadError::BadBlock {
                    at: at as usize,
                    what: "EPB captured length exceeds block",
                },
            )
        } else {
            Ok(SectionView { packets: s.packets.push(enhanced(body, little, s)), ..s })
        }
    } else if kind == BLOCK_SPB {
        if 4 + simple_len(body, little, s) > body.len() {
            Err(ReadError::BadBlock { at: at as usize, what: "SPB length exceeds block" })
        } else {
            Ok(SectionView { packets: s.packets.push(simple(body, little, s)), ..s })
        }
    } else {
        Ok(s)
    }
}

/// The byte order in force at a block: a section header says so, and a file
/// that does not begin with one is none.
pub open spec fn order_at(d: Seq<u8>, at: int, order: Option<bool>) -> Option<bool> {
    if le32(d, at) == BLOCK_SHB || be32(d, at) == BLOCK_SHB {
        if le32(d, at + 8) == BYTE_ORDER_MAGIC {
            Some(true)
        } else if be32(d, at + 8) == BYTE_ORDER_MAGIC {
            Some(false)
        } else {
            None
        }
    } else {
        order
    }
}

/// The blocks from `at` on, behind what was read so far.
pub open spec fn blocks(d: Seq<u8>, at: int, order: Option<bool>, s: SectionView) -> Result<
    SectionView,
    ReadError,
>
    decreases d.len() - at,
{
    if at < 0 || at + 12 > d.len() {
        if order is Some {
            Ok(s)
        } else {
            Err(ReadError::NotPcapng)
        }
    } else {
        match order_at(d, at, order) {
            None => Err(ReadError::NotPcapng),
            Some(little) => {
                let total = word32(d, at + 4, little);
                if total < 12 || total % 4 != 0 {
                    Err(ReadError::BadBlock { at: at as usize, what: "block length" })
                } else if at + total > d.len() {
                    Err(ReadError::Truncated { at: at as usize })
                } else if word32(d, at + total - 4, little) != total {
                    Err(
                        ReadError::BadBlock {
                            at: at as usize,
                            what: "trailing block length mismatch",
                        },
                    )
                } else {
                    match with_block(
                        word32(d, at, little),
                        d.subrange(at + 8, at + total - 4),
                        at,
                        little,
                        s,
                    ) {
                        Ok(s) => blocks(d, at + total, Some(little), s),
                        Err(e) => Err(e),
                    }
                }
            },
        }
    }
}

/// What a file says.
pub open spec fn parsed(d: Seq<u8>) -> Result<SectionView, ReadError> {
    blocks(d, 0, None, nothing())
}

/// The outcome of a read, by what it holds.
pub open spec fn outcome_of(r: Result<Section, ReadError>) -> Result<SectionView, ReadError> {
    match r {
        Ok(s) => Ok(s@),
        Err(e) => Err(e),
    }
}

/// Every interface has a resolution.
pub open spec fn resolved(v: Seq<Interface>) -> bool {
    forall|i: int| 0 <= i < v.len() ==> (#[trigger] v[i]).ts_per_sec >= 1
}

fn read_text(v: Option<&[u8]>, otherwise: Option<String>) -> (r: Option<String>)
    ensures
        chars_of(r) == (match v {
            Some(v) => Some(utf8_lossy(v@)),
            None => chars_of(otherwise),
        }),
{
    match v {
        Some(v) => Some(text::from_utf8_lossy(v)),
        None => otherwise,
    }
}

fn read_interface(body: &[u8], little: bool) -> (r: Interface)
    requires
        2 <= body@.len(),
    ensures
        r@ == described(body@, little),
        r.ts_per_sec >= 1,
{
    let name: Option<String> = read_text(find_option(body, 8, little, OPT_IF_NAME, 0), None);
    let ts_per_sec: u64 = match find_option(body, 8, little, OPT_IF_TSRESOL, 1) {
        Some(v) => Interface::ts_per_sec_from_tsresol(v[0]),
        None => 1_000_000,
    };
    Interface {
        link_type: bytes::get_word16(body, 0, little),
        snaplen: read_field(body, 4, little),
        name,
        ts_per_sec,
    }
}

fn read_time(units: u64, per_sec: u64) -> (r: Timestamp)
    requires
        per_sec >= 1,
    ensures
        r == time_of(units, per_sec),
{
    let left: u64 = units % per_sec;
    let each: u64 = 1_000_000_000 / per_sec;
    proof {
        assert(each * per_sec <= 1_000_000_000) by (nonlinear_arith)
            requires
                each == 1_000_000_000u64 / per_sec,
                per_sec >= 1,
        ;
        assert(left * each <= 1_000_000_000) by (nonlinear_arith)
            requires
                left < per_sec,
                each * per_sec <= 1_000_000_000,
        ;
    }
    Timestamp { secs: (units / per_sec) as i64, nanos: (left * each) as u32 }
}

fn read_enhanced(body: &[u8], little: bool, section: &Section) -> (r: Packet)
    requires
        4 <= body@.len(),
        20 + field(body@, 12, little) <= body@.len(),
        resolved(section.interfaces@),
    ensures
        r@ == enhanced(body@, little, section@),
{
    assert(body@.len() == body.len());
    let interface: u32 = bytes::get_word32(body, 0, little);
    let hi: u32 = read_field(body, 4, little);
    let lo: u32 = read_field(body, 8, little);
    let caplen: u32 = read_field(body, 12, little);
    let i: usize = interface as usize;
    let per_sec: u64 = if i < section.interfaces.len() {
        section.interfaces[i].ts_per_sec
    } else {
        1_000_000
    };
    let frame = RawFrame {
        ts: read_time(hi as u64 * 0x1_0000_0000 + lo as u64, per_sec),
        caplen,
        orig_len: read_field(body, 16, little),
        bytes: bytes::copy_of(bytes::part(body, 20, 20 + caplen as usize)),
    };
    Packet { interface, frame }
}

/// Take in one block.
fn read_block(kind: u32, body: &[u8], at: usize, little: bool, section: &mut Section) -> (r: Result<
    (),
    ReadError,
>)
    requires
        resolved(old(section).interfaces@),
    ensures
        resolved(final(section).interfaces@),
        match r {
            Ok(()) => with_block(kind, body@, at as int, little, old(section)@) == Ok::<
                SectionView,
                ReadError,
            >(final(section)@),
            Err(e) => with_block(kind, body@, at as int, little, old(section)@) == Err::<
                SectionView,
                ReadError,
            >(e),
        },
{
    let ghost s = section@;
    if kind == BLOCK_SHB {
        let mut user_appl: Option<String> = None;
        std::mem::swap(&mut user_appl, &mut section.user_appl);
        section.user_appl =
        read_text(find_option(body, 16, little, OPT_SHB_USERAPPL, 0), user_appl);
        section.interfaces = Vec::new();
        assert(section@ =~= with_header(body@, little, s));
    } else if kind == BLOCK_IDB {
        if body.len() < 2 {
            return Err(ReadError::BadBlock { at, what: "IDB too short" });
        }
        section.interfaces.push(read_interface(body, little));
        assert(section@ =~= SectionView {
            interfaces: s.interfaces.push(described(body@, little)),
            ..s
        });
    } else if kind == BLOCK_EPB {
        if body.len() < 4 {
            return Err(ReadError::BadBlock { at, what: "EPB too short" });
        }
        let caplen: usize = read_field(body, 12, little) as usize;
        if body.len() < 20 || caplen > body.len() - 20 {
            return Err(ReadError::BadBlock { at, what: "EPB captured length exceeds block" });
        }
        let packet = read_enhanced(body, little, section);
        section.packets.push(packet);
        assert(section@ =~= SectionView {
            packets: s.packets.push(enhanced(body@, little, s)),
            ..s
        });
    } else if kind == BLOCK_SPB {
        let orig_len: u32 = read_field(body, 0, little);
        let snaplen: u32 = if section.interfaces.len() > 0 {
            section.interfaces[0].snaplen
        } else {
            0
        };
        let caplen: u32 = if 0 < snaplen && snaplen < orig_len {
            snaplen
        } else {
            orig_len
        };
        if body.len() < 4 || caplen as usize > body.len() - 4 {
            return Err(ReadError::BadBlock { at, what: "SPB length exceeds block" });
        }
        let frame = RawFrame {
            ts: Timestamp { secs: 0, nanos: 0 },
            caplen,
            orig_len,
            bytes: bytes::copy_of(bytes::part(body, 4, 4 + caplen as usize)),
        };
        section.packets.push(Packet { interface: 0, frame });
        assert(section@ =~= SectionView {
            packets: s.packets.push(simple(body@, little, s)),
            ..s
        });
    }
    Ok(())
}

fn read_order(data: &[u8], at: usize, order: Option<bool>) -> (r: Option<bool>)
    requires
        at + 12 <= data@.len(),
    ensures
        r == order_at(data@, at as int, order),
{
    assert(data@.len() == data.len());
    if bytes::get_le32(data, at) == BLOCK_SHB || bytes::get_be32(data, at) == BLOCK_SHB {
        if bytes::get_le32(data, at + 8) == BYTE_ORDER_MAGIC {
            Some(true)
        } else if bytes::get_be32(data, at + 8) == BYTE_ORDER_MAGIC {
            Some(false)
        } else {
            None
        }
    } else {
        order
    }
}

/// Parse a whole file held in memory.
pub fn read(data: &[u8]) -> (r: Result<Section, ReadError>)
    ensures
        outcome_of(r) == parsed(data@),
{
    let n: usize = data.len();
    let mut section = Section::default();
    let mut order: Option<bool> = None;
    let mut at: usize = 0;
    while n - at >= 12
        invariant
            n == data@.len(),
            at <= n,
            resolved(section.interfaces@),
            parsed(data@) == blocks(data@, at as int, order, section@),
        decreases n - at,
    {
        let little: bool = match read_order(data, at, order) {
            Some(little) => little,
            None => {
                return Err(ReadError::NotPcapng);
            },
        };
        let total: u32 = bytes::get_word32(data, at + 4, little);
        if total < 12 || total % 4 != 0 {
            return Err(ReadError::BadBlock { at, what: "block length" });
        }
        let size: usize = total as usize;
        if size > n - at {
            return Err(ReadError::Truncated { at });
        }
        if bytes::get_word32(data, at + size - 4, little) != total {
            return Err(ReadError::BadBlock { at, what: "trailing block length mismatch" });
        }
        let kind: u32 = bytes::get_word32(data, at, little);
        let body: &[u8] = bytes::part(data, at + 8, at + size - 4);
        match read_block(kind, body, at, little, &mut section) {
            Ok(()) => {},
            Err(e) => {
                return Err(e);
            },
        }
        order = Some(little);
        at = at + size;
    }
    match order {
        Some(_) => Ok(section),
        None => Err(ReadError::NotPcapng),
    }
}

// ---- what reading promises ----------------------------------------------------------

/// Whole blocks from `at` to the end of `d`: the byte order then in force and
/// what was read, or nothing where `d` is no row of whole blocks.
pub open spec fn whole_blocks(d: Seq<u8>, at: int, order: Option<bool>, s: SectionView) -> Option<
    (Option<bool>, SectionView),
>
    decreases d.len() - at,
{
    if at == d.len() {
        Some((order, s))
    } else if at < 0 || at + 12 > d.len() {
        None
    } else {
        match order_at(d, at, order) {
            None => None,
            Some(little) => {
                let total = word32(d, at + 4, little);
                if total < 12 || total % 4 != 0 || at + total > d.len() || word32(
                    d,
                    at + total - 4,
                    little,
                ) != total {
                    None
                } else {
                    match with_block(
                        word32(d, at, little),
                        d.subrange(at + 8, at + total - 4),
                        at,
                        little,
                        s,
                    ) {
                        Ok(s) => whole_blocks(d, at + total, Some(little), s),
                        Err(_) => None,
                    }
                }
            },
        }
    }
}

/// A well-formed block of a kind that is not read.
pub open spec fn is_unknown_block(b: Seq<u8>, little: bool) -> bool {
    let kind = word32(b, 0, little);
    &&& 12 <= b.len()
    &&& b.len() % 4 == 0
    &&& word32(b, 4, little) == b.len()
    &&& word32(b, b.len() - 4, little) == b.len()
    &&& kind != BLOCK_IDB && kind != BLOCK_EPB && kind != BLOCK_SPB
    &&& le32(b, 0) != BLOCK_SHB && be32(b, 0) != BLOCK_SHB
}

proof fn lemma_words_agree(d: Seq<u8>, i: int, e: Seq<u8>, j: int)
    requires
        0 <= i && i + 4 <= d.len(),
        0 <= j && j + 4 <= e.len(),
        d.subrange(i, i + 4) == e.subrange(j, j + 4),
    ensures
        le32(d, i) == le32(e, j),
        be32(d, i) == be32(e, j),
        forall|little: bool| #[trigger] word32(d, i, little) == word32(e, j, little),
{
    let (p, q) = (d.subrange(i, i + 4), e.subrange(j, j + 4));
    assert(p[0] == q[0] && p[1] == q[1] && p[2] == q[2] && p[3] == q[3]);
    assert(d[i] == e[j] && d[i + 1] == e[j + 1] && d[i + 2] == e[j + 2] && d[i + 3] == e[j + 3]);
}

proof fn lemma_block_agrees(d: Seq<u8>, i: int, e: Seq<u8>, j: int, order: Option<bool>, n: int)
    requires
        0 <= i && 12 <= n && i + n <= d.len(),
        0 <= j && j + n <= e.len(),
        d.subrange(i, i + n) == e.subrange(j, j + n),
    ensures
        order_at(d, i, order) == order_at(e, j, order),
        forall|little: bool| #[trigger] word32(d, i, little) == word32(e, j, little),
        forall|little: bool| #[trigger] word32(d, i + 4, little) == word32(e, j + 4, little),
        forall|little: bool|
            #[trigger] word32(d, i + n - 4, little) == word32(e, j + n - 4, little),
        d.subrange(i + 8, i + n - 4) == e.subrange(j + 8, j + n - 4),
{
    let (p, q) = (d.subrange(i, i + n), e.subrange(j, j + n));
    assert forall|o: int, m: int| 0 <= o <= m <= n implies #[trigger] d.subrange(i + o, i + m)
        == e.subrange(j + o, j + m) by {
        assert(d.subrange(i + o, i + m) =~= p.subrange(o, m));
        assert(e.subrange(j + o, j + m) =~= q.subrange(o, m));
    }
    assert(d.subrange(i + 0, i + 4) == e.subrange(j + 0, j + 4));
    assert(d.subrange(i + 4, i + 8) == e.subrange(j + 4, j + 8));
    assert(d.subrange(i + 8, i + 12) == e.subrange(j + 8, j + 12));
    assert(d.subrange(i + (n - 4), i + n) == e.subrange(j + (n - 4), j + n));
    assert(d.subrange(i + 8, i + (n - 4)) == e.subrange(j + 8, j + (n - 4)));
    lemma_words_agree(d, i, e, j);
    lemma_words_agree(d, i + 4, e, j + 4);
    lemma_words_agree(d, i + 8, e, j + 8);
    lemma_words_agree(d, i + n - 4, e, j + n - 4);
}

/// Reading whole blocks and then the rest.
proof fn lemma_read_on(a: Seq<u8>, rest: Seq<u8>, at: int, order: Option<bool>, s: SectionView)
    requires
        0 <= at <= a.len(),
        whole_blocks(a, at, order, s) is Some,
    ensures
        ({
            let (then, t) = whole_blocks(a, at, order, s)->0;
            blocks(a + rest, at, order, s) == blocks(a + rest, a.len() as int, then, t)
        }),
    decreases a.len() - at,
{
    let d = a + rest;
    if at < a.len() {
        assert(d.subrange(at, at + 12) =~= a.subrange(at, at + 12));
        lemma_block_agrees(a, at, d, at, order, 12);
        let little = order_at(a, at, order)->0;
        let n = word32(a, at + 4, little) as int;
        assert(d.subrange(at, at + n) =~= a.subrange(at, at + n));
        lemma_block_agrees(a, at, d, at, order, n);
        let t = with_block(
            word32(a, at, little),
            a.subrange(at + 8, at + n - 4),
            at,
            little,
            s,
        )->Ok_0;
        lemma_read_on(a, rest, at + n, Some(little), t);
    }
}

/// The same bytes read the same wherever they stand.
proof fn lemma_read_anywhere(
    d: Seq<u8>,
    i: int,
    e: Seq<u8>,
    j: int,
    order: Option<bool>,
    s: SectionView,
)
    requires
        0 <= i <= d.len(),
        0 <= j <= e.len(),
        d.skip(i) == e.skip(j),
        blocks(d, i, order, s) is Ok,
    ensures
        blocks(e, j, order, s) == blocks(d, i, order, s),
    decreases d.len() - i,
{
    assert(d.len() - i == e.len() - j) by {
        assert(d.skip(i).len() == e.skip(j).len());
    }
    if i + 12 <= d.len() {
        assert(d.subrange(i, i + 12) =~= d.skip(i).subrange(0, 12));
        assert(e.subrange(j, j + 12) =~= e.skip(j).subrange(0, 12));
        lemma_block_agrees(d, i, e, j, order, 12);
        let little = order_at(d, i, order)->0;
        let n = word32(d, i + 4, little) as int;
        assert(d.subrange(i, i + n) =~= d.skip(i).subrange(0, n));
        assert(e.subrange(j, j + n) =~= e.skip(j).subrange(0, n));
        lemma_block_agrees(d, i, e, j, order, n);
        let t = with_block(
            word32(d, i, little),
            d.subrange(i + 8, i + n - 4),
            i,
            little,
            s,
        )->Ok_0;
        assert(d.skip(i + n) =~= d.skip(i).skip(n));
        assert(e.skip(j + n) =~= e.skip(j).skip(n));
        lemma_read_anywhere(d, i + n, e, j + n, Some(little), t);
    }
}

/// A block of an unknown kind is passed over: behind any whole blocks that
/// begin with a section header, it changes nothing of what is read.
pub proof fn unknown_blocks_change_nothing(a: Seq<u8>, block: Seq<u8>, b: Seq<u8>, little: bool)
    requires
        whole_blocks(a, 0, None, nothing()) matches Some((order, _)) && order == Some(little),
        is_unknown_block(block, little),
        parsed(a + b) is Ok,
    ensures
        parsed(a + block + b) == parsed(a + b),
{
    let (order, s) = whole_blocks(a, 0, None, nothing())->0;
    let (d, e) = (a + b, a + block + b);
    let i = a.len() as int;
    let n = block.len() as int;
    lemma_read_on(a, b, 0, None, nothing());
    assert(e =~= a + (block + b));
    lemma_read_on(a, block + b, 0, None, nothing());
    assert(e.subrange(i, i + n) =~= block.subrange(0, n));
    lemma_block_agrees(e, i, block, 0, order, n);
    assert(e.skip(i + n) =~= b && d.skip(i) =~= b);
    lemma_read_anywhere(d, i, e, i + n, order, s);
}

} // verus!

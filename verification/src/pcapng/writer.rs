//! Minimal pcapng writer: one section, one or more interfaces, EPBs.
//! Little-endian; nanosecond timestamps (`if_tsresol = 9`).

use vstd::prelude::*;
use vstd::utf8::*;

use super::reader::{
    blocks, described, enhanced, field, nothing, option_value, order_at, parsed, time_of,
    with_block, with_header, PacketView, ReadError, SectionView,
};
use super::{
    padded_len, power, units_of, InterfaceView, BLOCK_EPB, BLOCK_IDB, BLOCK_SHB,
    BYTE_ORDER_MAGIC, OPT_ENDOFOPT, OPT_IF_NAME, OPT_IF_TSRESOL, OPT_SHB_USERAPPL,
};
use crate::bytes;
use crate::bytes::{
    be32, le16_bytes, le16_found, le16_takes_two, le32, le32_bytes, le32_found, le32_takes_four,
    le64_bytes, word32,
};
use crate::capture::{RawView, Timestamp};
use crate::text;

verus! {

broadcast use {le16_takes_two, le32_takes_four};

/// A file being written, in memory.
#[derive(Debug, Clone)]
pub struct Writer {
    out: Vec<u8>,
    interfaces: u32,
}

/// The bytes written so far, and how many interfaces they describe.
#[verifier::ext_equal]
pub struct WriterView {
    pub out: Seq<u8>,
    pub interfaces: u32,
}

impl View for Writer {
    type V = WriterView;

    closed spec fn view(&self) -> WriterView {
        WriterView { out: self.out@, interfaces: self.interfaces }
    }
}

/// How many bytes fill `len` up to a multiple of four.
pub open spec fn gap(len: int) -> int {
    padded_len(len) - len
}

/// `n` zero bytes.
pub open spec fn zeros(n: int) -> Seq<u8> {
    Seq::new(n as nat, |i: int| 0u8)
}

/// An option.
pub open spec fn option_bytes(code: u16, value: Seq<u8>) -> Seq<u8> {
    le16_bytes(code) + le16_bytes(value.len() as u16) + value + zeros(gap(value.len() as int))
}

/// The length that a block of `len` bytes announces.
pub open spec fn block_len(len: int) -> u32 {
    (12 + padded_len(len)) as u32
}

/// A block.
#[verifier::opaque]
pub open spec fn block_bytes(kind: u32, body: Seq<u8>) -> Seq<u8> {
    le32_bytes(kind) + le32_bytes(block_len(body.len() as int)) + body + zeros(
        gap(body.len() as int),
    ) + le32_bytes(block_len(body.len() as int))
}

/// The body of the section header.
#[verifier::opaque]
pub open spec fn section_body(user_appl: Seq<char>) -> Seq<u8> {
    le32_bytes(BYTE_ORDER_MAGIC) + le16_bytes(1) + le16_bytes(0) + le64_bytes(u64::MAX)
        + option_bytes(OPT_SHB_USERAPPL, encode_utf8(user_appl)) + option_bytes(
        OPT_ENDOFOPT,
        Seq::empty(),
    )
}

/// The body of an interface description.
#[verifier::opaque]
pub open spec fn interface_body(link_type: u16, snaplen: u32, name: Seq<char>) -> Seq<u8> {
    le16_bytes(link_type) + le16_bytes(0) + le32_bytes(snaplen) + (if name.len() == 0 {
        Seq::empty()
    } else {
        option_bytes(OPT_IF_NAME, encode_utf8(name))
    }) + option_bytes(OPT_IF_TSRESOL, seq![9u8]) + option_bytes(OPT_ENDOFOPT, Seq::empty())
}

/// A time in nanoseconds, as 64 bits hold it.
pub open spec fn nanos_since_epoch(ts: Timestamp) -> u64 {
    ((ts.secs * 1_000_000_000 + ts.nanos) % 0x1_0000_0000_0000_0000) as u64
}

/// The body of a packet.
#[verifier::opaque]
pub open spec fn packet_body(
    interface: u32,
    ts: Timestamp,
    orig_len: u32,
    data: Seq<u8>,
) -> Seq<u8> {
    let t = nanos_since_epoch(ts);
    le32_bytes(interface) + le32_bytes((t / 0x1_0000_0000) as u32) + le32_bytes(
        (t % 0x1_0000_0000) as u32,
    ) + le32_bytes(data.len() as u32) + le32_bytes(orig_len) + data + zeros(gap(data.len() as int))
}

/// Append the bytes that fill `len` up to a multiple of four.
fn put_gap(out: &mut Vec<u8>, len: usize)
    ensures
        final(out)@ == old(out)@ + zeros(gap(len as int)),
{
    let n: usize = (4 - len % 4) % 4;
    assert(n == gap(len as int));
    let mut i: usize = 0;
    while i < n
        invariant
            i <= n,
            out@ =~= old(out)@ + zeros(i as int),
        decreases n - i,
    {
        out.push(0);
        i += 1;
    }
}

fn option(out: &mut Vec<u8>, code: u16, value: &[u8])
    ensures
        final(out)@ == old(out)@ + option_bytes(code, value@),
{
    bytes::put_le16(out, code);
    bytes::put_le16(out, value.len() as u16);
    bytes::put_all(out, value);
    put_gap(out, value.len());
    assert(out@ =~= old(out)@ + option_bytes(code, value@));
}

fn block(out: &mut Vec<u8>, kind: u32, body: &[u8])
    ensures
        final(out)@ == old(out)@ + block_bytes(kind, body@),
{
    let n: u128 = body.len() as u128;
    let total: u32 = (12 + (n + 3) / 4 * 4) as u32;
    bytes::put_le32(out, kind);
    bytes::put_le32(out, total);
    bytes::put_all(out, body);
    put_gap(out, body.len());
    bytes::put_le32(out, total);
    reveal(block_bytes);
    assert(out@ =~= old(out)@ + block_bytes(kind, body@));
}

/// A time in nanoseconds, wrapped to 64 bits.
fn to_nanos(ts: Timestamp) -> (r: u64)
    ensures
        r == nanos_since_epoch(ts),
{
    let t: i128 = ts.secs as i128 * 1_000_000_000 + ts.nanos as i128;
    let wrap: i128 = 0x1_0000_0000_0000_0000;
    // Far enough above zero whatever the seconds are.
    let lifted: i128 = t + wrap * 0x4000_0000;
    assert(lifted % wrap == (ts.secs * 1_000_000_000 + ts.nanos) % 0x1_0000_0000_0000_0000);
    (lifted % wrap) as u64
}

impl Writer {
    /// Write the Section Header Block.
    pub fn new(out: Vec<u8>, user_appl: &str) -> (r: Writer)
        ensures
            r@.out == out@ + block_bytes(BLOCK_SHB, section_body(user_appl@)),
            r@.interfaces == 0,
    {
        let mut body: Vec<u8> = Vec::new();
        bytes::put_le32(&mut body, BYTE_ORDER_MAGIC);
        bytes::put_le16(&mut body, 1);  // major
        bytes::put_le16(&mut body, 0);  // minor
        bytes::put_le64(&mut body, u64::MAX);  // section length unknown
        option(&mut body, OPT_SHB_USERAPPL, user_appl.as_bytes());
        let none: [u8; 0] = [];
        option(&mut body, OPT_ENDOFOPT, &none);
        proof {
            assert(none@ =~= Seq::empty());
            reveal(section_body);
            assert(body@ =~= section_body(user_appl@));
        }
        let mut out = out;
        block(&mut out, BLOCK_SHB, body.as_slice());
        Writer { out, interfaces: 0 }
    }

    /// Write an Interface Description Block; returns its interface id.
    pub fn interface(&mut self, link_type: u16, snaplen: u32, name: &str) -> (id: u32)
        requires
            old(self)@.interfaces < u32::MAX,
        ensures
            final(self)@.out == old(self)@.out + block_bytes(
                BLOCK_IDB,
                interface_body(link_type, snaplen, name@),
            ),
            id == old(self)@.interfaces,
            final(self)@.interfaces == id + 1,
    {
        let mut body: Vec<u8> = Vec::new();
        bytes::put_le16(&mut body, link_type);
        bytes::put_le16(&mut body, 0);
        bytes::put_le32(&mut body, snaplen);
        if !text::is_empty(name) {
            option(&mut body, OPT_IF_NAME, name.as_bytes());
        }
        let nanoseconds: [u8; 1] = [9];
        option(&mut body, OPT_IF_TSRESOL, &nanoseconds);
        let none: [u8; 0] = [];
        option(&mut body, OPT_ENDOFOPT, &none);
        proof {
            assert(nanoseconds@ =~= seq![9u8]);
            assert(none@ =~= Seq::empty());
            reveal(interface_body);
            assert(body@ =~= interface_body(link_type, snaplen, name@));
        }
        block(&mut self.out, BLOCK_IDB, body.as_slice());
        let id: u32 = self.interfaces;
        self.interfaces = id + 1;
        id
    }

    /// Write an Enhanced Packet Block.
    pub fn packet(&mut self, interface: u32, ts: Timestamp, orig_len: u32, data: &[u8])
        ensures
            final(self)@.out == old(self)@.out + block_bytes(
                BLOCK_EPB,
                packet_body(interface, ts, orig_len, data@),
            ),
            final(self)@.interfaces == old(self)@.interfaces,
    {
        let t: u64 = to_nanos(ts);
        let mut body: Vec<u8> = Vec::new();
        bytes::put_le32(&mut body, interface);
        bytes::put_le32(&mut body, (t / 0x1_0000_0000) as u32);
        bytes::put_le32(&mut body, (t % 0x1_0000_0000) as u32);
        bytes::put_le32(&mut body, data.len() as u32);
        bytes::put_le32(&mut body, orig_len);
        bytes::put_all(&mut body, data);
        put_gap(&mut body, data.len());
        proof {
            reveal(packet_body);
            assert(body@ =~= packet_body(interface, ts, orig_len, data@));
        }
        block(&mut self.out, BLOCK_EPB, body.as_slice());
    }

    /// The finished file.
    pub fn finish(self) -> (r: Vec<u8>)
        ensures
            r@ == self@.out,
    {
        self.out
    }
}

// ---- what was written reads back ------------------------------------------------

/// Something to be written behind the section header.
#[verifier::ext_equal]
pub enum Item {
    Interface { link_type: u16, snaplen: u32, name: Seq<char> },
    Packet { interface: u32, ts: Timestamp, orig_len: u32, data: Seq<u8> },
}

/// The block of an item.
pub open spec fn item_bytes(item: Item) -> Seq<u8> {
    match item {
        Item::Interface { link_type, snaplen, name } => block_bytes(
            BLOCK_IDB,
            interface_body(link_type, snaplen, name),
        ),
        Item::Packet { interface, ts, orig_len, data } => block_bytes(
            BLOCK_EPB,
            packet_body(interface, ts, orig_len, data),
        ),
    }
}

/// The blocks of several items.
pub open spec fn all_items(items: Seq<Item>) -> Seq<u8>
    decreases items.len(),
{
    if items.len() == 0 {
        Seq::empty()
    } else {
        item_bytes(items[0]) + all_items(items.drop_first())
    }
}

/// A section with an item more.
pub open spec fn with_item(s: SectionView, item: Item) -> SectionView {
    match item {
        Item::Interface { link_type, snaplen, name } => SectionView {
            interfaces: s.interfaces.push(
                InterfaceView {
                    link_type,
                    snaplen,
                    name: if name.len() == 0 {
                        None
                    } else {
                        Some(name)
                    },
                    ts_per_sec: 1_000_000_000,
                },
            ),
            ..s
        },
        Item::Packet { interface, ts, orig_len, data } => SectionView {
            packets: s.packets.push(
                PacketView {
                    interface,
                    frame: RawView { ts, caplen: data.len() as u32, orig_len, bytes: data },
                },
            ),
            ..s
        },
    }
}

/// A section with several items more.
pub open spec fn with_items(s: SectionView, items: Seq<Item>) -> SectionView
    decreases items.len(),
{
    if items.len() == 0 {
        s
    } else {
        with_items(with_item(s, items[0]), items.drop_first())
    }
}

/// What the format can hold: names and packets whose lengths fit their fields,
/// packets on interfaces described before them, times from the epoch on that
/// 64 bits of nanoseconds reach.
pub open spec fn storable(item: Item, interfaces: int) -> bool {
    match item {
        Item::Interface { name, .. } => encode_utf8(name).len() <= 0xffff,
        Item::Packet { interface, ts, data, .. } => {
            &&& interface < interfaces
            &&& data.len() + 36 <= u32::MAX
            &&& 0 <= ts.secs
            &&& ts.nanos < 1_000_000_000
            &&& ts.secs * 1_000_000_000 + ts.nanos <= u64::MAX
        },
    }
}

/// Every item can be held behind those in front of it.
pub open spec fn all_storable(items: Seq<Item>, interfaces: int) -> bool
    decreases items.len(),
{
    items.len() > 0 ==> storable(items[0], interfaces) && all_storable(
        items.drop_first(),
        if items[0] is Interface {
            interfaces + 1
        } else {
            interfaces
        },
    )
}

proof fn lemma_option(
    body: Seq<u8>,
    at: int,
    code: u16,
    value: Seq<u8>,
    wanted: u16,
    least: int,
    found: Option<Seq<u8>>,
)
    requires
        0 <= at,
        at + option_bytes(code, value).len() <= body.len(),
        body.subrange(at, at + option_bytes(code, value).len()) == option_bytes(code, value),
        value.len() <= 0xffff,
        code != OPT_ENDOFOPT,
    ensures
        option_bytes(code, value).len() == 4 + padded_len(value.len() as int),
        option_value(body, at, true, wanted, least, found) == option_value(
            body,
            at + 4 + padded_len(value.len() as int),
            true,
            wanted,
            least,
            if code == wanted && value.len() >= least {
                Some(value)
            } else {
                found
            },
        ),
{
    let all = option_bytes(code, value);
    let n = value.len() as int;
    let s = body.subrange(at, at + all.len());
    assert(body.subrange(at, at + 2) =~= s.subrange(0, 2));
    assert(s.subrange(0, 2) =~= le16_bytes(code));
    le16_found(body, at, code);
    assert(body.subrange(at + 2, at + 4) =~= s.subrange(2, 4));
    assert(s.subrange(2, 4) =~= le16_bytes(n as u16));
    le16_found(body, at + 2, n as u16);
    assert(body.subrange(at + 4, at + 4 + n) =~= s.subrange(4, 4 + n));
    assert(s.subrange(4, 4 + n) =~= value);
}

proof fn lemma_last_option(body: Seq<u8>, at: int, wanted: u16, least: int, found: Option<Seq<u8>>)
    requires
        0 <= at,
        at + 4 <= body.len(),
        body.subrange(at, at + 4) == option_bytes(OPT_ENDOFOPT, Seq::empty()),
    ensures
        option_value(body, at, true, wanted, least, found) == found,
{
    let s = body.subrange(at, at + 4);
    assert(body.subrange(at, at + 2) =~= s.subrange(0, 2));
    assert(s.subrange(0, 2) =~= le16_bytes(OPT_ENDOFOPT));
    le16_found(body, at, OPT_ENDOFOPT);
}

proof fn lemma_block(d: Seq<u8>, at: int, kind: u32, body: Seq<u8>)
    requires
        0 <= at,
        at + block_bytes(kind, body).len() <= d.len(),
        d.subrange(at, at + block_bytes(kind, body).len()) == block_bytes(kind, body),
        body.len() % 4 == 0,
        body.len() + 12 <= u32::MAX,
    ensures
        block_bytes(kind, body).len() == body.len() + 12,
        le32(d, at) == kind,
        le32(d, at + 4) == body.len() + 12,
        le32(d, at + body.len() + 8) == body.len() + 12,
        d.subrange(at + 8, at + 8 + body.len()) == body,
{
    let all = block_bytes(kind, body);
    reveal(block_bytes);
    let n = body.len() as int;
    assert(gap(n) == 0);
    assert(all.len() == n + 12);
    let s = d.subrange(at, at + all.len());
    let total = block_len(n);
    assert(total == n + 12);
    assert(d.subrange(at, at + 4) =~= s.subrange(0, 4));
    assert(s.subrange(0, 4) =~= le32_bytes(kind));
    le32_found(d, at, kind);
    assert(d.subrange(at + 4, at + 8) =~= s.subrange(4, 8));
    assert(s.subrange(4, 8) =~= le32_bytes(total));
    le32_found(d, at + 4, total);
    assert(d.subrange(at + n + 8, at + n + 12) =~= s.subrange(n + 8, n + 12));
    assert(s.subrange(n + 8, n + 12) =~= le32_bytes(total));
    le32_found(d, at + n + 8, total);
    assert(d.subrange(at + 8, at + 8 + n) =~= s.subrange(8, 8 + n));
    assert(s.subrange(8, 8 + n) =~= body);
}

proof fn lemma_section(user_appl: Seq<char>, s: SectionView)
    requires
        encode_utf8(user_appl).len() <= 0xffff,
    ensures
        section_body(user_appl).len() % 4 == 0,
        16 <= section_body(user_appl).len() <= 0x2_0000,
        le32(section_body(user_appl), 0) == BYTE_ORDER_MAGIC,
        with_header(section_body(user_appl), true, s) == (SectionView {
            interfaces: Seq::empty(),
            user_appl: Some(user_appl),
            ..s
        }),
{
    reveal(section_body);
    let body = section_body(user_appl);
    let value = encode_utf8(user_appl);
    let option = option_bytes(OPT_SHB_USERAPPL, value);
    let mark = option_bytes(OPT_ENDOFOPT, Seq::empty());
    assert(body.subrange(0, 4) =~= le32_bytes(BYTE_ORDER_MAGIC));
    le32_found(body, 0, BYTE_ORDER_MAGIC);
    assert(body.subrange(16, 16 + option.len() as int) =~= option);
    lemma_option(body, 16, OPT_SHB_USERAPPL, value, OPT_SHB_USERAPPL, 0, None);
    let end = 16 + option.len() as int;
    assert(mark.len() == 4);
    assert(body.subrange(end, end + 4) =~= mark);
    lemma_last_option(body, end, OPT_SHB_USERAPPL, 0, Some(value));
    encode_utf8_valid_utf8(user_appl);
    encode_utf8_decode_utf8(user_appl);
}

proof fn lemma_interface(link_type: u16, snaplen: u32, name: Seq<char>)
    requires
        encode_utf8(name).len() <= 0xffff,
    ensures
        interface_body(link_type, snaplen, name).len() % 4 == 0,
        8 <= interface_body(link_type, snaplen, name).len() <= 0x2_0000,
        described(interface_body(link_type, snaplen, name), true) == (InterfaceView {
            link_type,
            snaplen,
            name: if name.len() == 0 {
                None
            } else {
                Some(name)
            },
            ts_per_sec: 1_000_000_000,
        }),
{
    reveal(interface_body);
    let body = interface_body(link_type, snaplen, name);
    let value = encode_utf8(name);
    let tsresol = option_bytes(OPT_IF_TSRESOL, seq![9u8]);
    let mark = option_bytes(OPT_ENDOFOPT, Seq::empty());
    assert(tsresol.len() == 8);
    assert(mark.len() == 4);
    assert(body.subrange(0, 2) =~= le16_bytes(link_type));
    le16_found(body, 0, link_type);
    assert(body.subrange(4, 8) =~= le32_bytes(snaplen));
    le32_found(body, 4, snaplen);
    let at = if name.len() == 0 {
        8
    } else {
        8 + option_bytes(OPT_IF_NAME, value).len() as int
    };
    let got = if name.len() == 0 {
        None
    } else {
        Some(value)
    };
    if name.len() > 0 {
        let option = option_bytes(OPT_IF_NAME, value);
        assert(body.subrange(8, 8 + option.len() as int) =~= option);
        lemma_option(body, 8, OPT_IF_NAME, value, OPT_IF_NAME, 0, None);
        lemma_option(body, 8, OPT_IF_NAME, value, OPT_IF_TSRESOL, 1, None);
    }
    assert(body.subrange(at, at + 8) =~= tsresol);
    lemma_option(body, at, OPT_IF_TSRESOL, seq![9u8], OPT_IF_NAME, 0, got);
    lemma_option(body, at, OPT_IF_TSRESOL, seq![9u8], OPT_IF_TSRESOL, 1, None);
    assert(body.subrange(at + 8, at + 12) =~= mark);
    lemma_last_option(body, at + 8, OPT_IF_NAME, 0, got);
    lemma_last_option(body, at + 8, OPT_IF_TSRESOL, 1, Some(seq![9u8]));
    encode_utf8_valid_utf8(name);
    encode_utf8_decode_utf8(name);
    assert(units_of(9) == 1_000_000_000) by {
        reveal_with_fuel(power, 10);
    }
}

proof fn lemma_packet(interface: u32, ts: Timestamp, orig_len: u32, data: Seq<u8>, s: SectionView)
    requires
        storable(Item::Packet { interface, ts, orig_len, data }, s.interfaces.len() as int),
        s.interfaces[interface as int].ts_per_sec == 1_000_000_000,
    ensures
        packet_body(interface, ts, orig_len, data).len() == 20 + padded_len(data.len() as int),
        20 + field(packet_body(interface, ts, orig_len, data), 12, true) <= packet_body(
            interface,
            ts,
            orig_len,
            data,
        ).len(),
        enhanced(packet_body(interface, ts, orig_len, data), true, s) == (PacketView {
            interface,
            frame: RawView { ts, caplen: data.len() as u32, orig_len, bytes: data },
        }),
{
    reveal(packet_body);
    let body = packet_body(interface, ts, orig_len, data);
    let t = nanos_since_epoch(ts);
    let n = data.len() as int;
    assert(t == ts.secs * 1_000_000_000 + ts.nanos);
    assert(body.subrange(0, 4) =~= le32_bytes(interface));
    le32_found(body, 0, interface);
    assert(body.subrange(4, 8) =~= le32_bytes((t / 0x1_0000_0000) as u32));
    le32_found(body, 4, (t / 0x1_0000_0000) as u32);
    assert(body.subrange(8, 12) =~= le32_bytes((t % 0x1_0000_0000) as u32));
    le32_found(body, 8, (t % 0x1_0000_0000) as u32);
    assert(body.subrange(12, 16) =~= le32_bytes(n as u32));
    le32_found(body, 12, n as u32);
    assert(body.subrange(16, 20) =~= le32_bytes(orig_len));
    le32_found(body, 16, orig_len);
    assert(body.subrange(20, 20 + n) =~= data);
    assert((t / 0x1_0000_0000) as u32 * 0x1_0000_0000 + (t % 0x1_0000_0000) as u32 == t);
    assert(t / 1_000_000_000 == ts.secs);
    assert(t % 1_000_000_000 == ts.nanos);
    assert(1_000_000_000u64 / 1_000_000_000u64 == 1);
    assert(time_of(t, 1_000_000_000) == ts) by {
        assert(t % 1_000_000_000 * 1 == ts.nanos);
    }
}

/// A block that is there is taken in.
proof fn lemma_step(
    d: Seq<u8>,
    at: int,
    order: Option<bool>,
    kind: u32,
    body: Seq<u8>,
    s: SectionView,
    next: SectionView,
)
    requires
        0 <= at,
        at + body.len() + 12 <= d.len(),
        body.len() % 4 == 0,
        body.len() + 12 <= u32::MAX,
        le32(d, at) == kind,
        le32(d, at + 4) == body.len() + 12,
        le32(d, at + body.len() + 8) == body.len() + 12,
        d.subrange(at + 8, at + 8 + body.len()) == body,
        order_at(d, at, order) == Some(true),
        with_block(kind, body, at, true, s) == Ok::<SectionView, ReadError>(next),
    ensures
        blocks(d, at, order, s) == blocks(d, at + body.len() + 12, Some(true), next),
{
    let total = word32(d, at + 4, true);
    let n = body.len() as int;
    assert(word32(d, at, true) == kind);
    assert(total == n + 12);
    assert(total % 4 == 0);
    assert(word32(d, at + total - 4, true) == total) by {
        assert(at + total - 4 == at + n + 8);
    }
    assert(d.subrange(at + 8, at + total - 4) == body);
}

proof fn lemma_item(d: Seq<u8>, at: int, item: Item, s: SectionView)
    requires
        0 <= at,
        at + item_bytes(item).len() <= d.len(),
        d.subrange(at, at + item_bytes(item).len()) == item_bytes(item),
        storable(item, s.interfaces.len() as int),
        forall|i: int|
            0 <= i < s.interfaces.len() ==> (#[trigger] s.interfaces[i]).ts_per_sec
                == 1_000_000_000,
    ensures
        item_bytes(item).len() >= 12,
        blocks(d, at, Some(true), s) == blocks(
            d,
            at + item_bytes(item).len(),
            Some(true),
            with_item(s, item),
        ),
{
    let next = with_item(s, item);
    match item {
        Item::Interface { link_type, snaplen, name } => {
            let body = interface_body(link_type, snaplen, name);
            lemma_interface(link_type, snaplen, name);
            lemma_block(d, at, BLOCK_IDB, body);
            lemma_kind(d, at, BLOCK_IDB);
            lemma_step(d, at, Some(true), BLOCK_IDB, body, s, next);
        },
        Item::Packet { interface, ts, orig_len, data } => {
            let body = packet_body(interface, ts, orig_len, data);
            lemma_packet(interface, ts, orig_len, data, s);
            lemma_block(d, at, BLOCK_EPB, body);
            lemma_kind(d, at, BLOCK_EPB);
            lemma_step(d, at, Some(true), BLOCK_EPB, body, s, next);
        },
    }
}

proof fn lemma_items(d: Seq<u8>, at: int, items: Seq<Item>, s: SectionView)
    requires
        0 <= at <= d.len(),
        d.subrange(at, d.len() as int) == all_items(items),
        all_storable(items, s.interfaces.len() as int),
        forall|i: int|
            0 <= i < s.interfaces.len() ==> (#[trigger] s.interfaces[i]).ts_per_sec
                == 1_000_000_000,
    ensures
        blocks(d, at, Some(true), s) == Ok::<SectionView, ReadError>(with_items(s, items)),
    decreases items.len(),
{
    let rest = d.subrange(at, d.len() as int);
    if items.len() == 0 {
        assert(rest.len() == 0);
    } else {
        let head = item_bytes(items[0]);
        let tail = all_items(items.drop_first());
        assert(rest =~= head + tail);
        assert(d.subrange(at, at + head.len()) =~= rest.subrange(0, head.len() as int));
        assert(rest.subrange(0, head.len() as int) =~= head);
        let next = with_item(s, items[0]);
        lemma_item(d, at, items[0], s);
        let total = head.len() as int;
        assert(d.subrange(at + total, d.len() as int) =~= rest.subrange(
            head.len() as int,
            rest.len() as int,
        ));
        assert(rest.subrange(head.len() as int, rest.len() as int) =~= tail);
        lemma_items(d, at + total, items.drop_first(), next);
    }
}

/// An interface or a packet is no section header in either byte order.
proof fn lemma_kind(d: Seq<u8>, at: int, kind: u32)
    requires
        0 <= at,
        at + 4 <= d.len(),
        le32(d, at) == kind,
        kind == BLOCK_IDB || kind == BLOCK_EPB,
    ensures
        be32(d, at) != BLOCK_SHB,
{
    assert(d[at] == kind);
    assert(be32(d, at) >= 0x100_0000 * kind);
    assert(be32(d, at) < 0x100_0000 * (kind + 1));
}

/// A written file reads back: the application, every interface with its name
/// and nanosecond resolution, and every packet with its time to the
/// nanosecond, its wire length and its bytes.
pub proof fn written_file_reads_back(user_appl: Seq<char>, items: Seq<Item>)
    requires
        encode_utf8(user_appl).len() <= 0xffff,
        all_storable(items, 0),
    ensures
        parsed(block_bytes(BLOCK_SHB, section_body(user_appl)) + all_items(items)) == Ok::<
            SectionView,
            ReadError,
        >(with_items((SectionView { user_appl: Some(user_appl), ..nothing() }), items)),
{
    let body = section_body(user_appl);
    let head = block_bytes(BLOCK_SHB, body);
    let d = head + all_items(items);
    let s = SectionView { user_appl: Some(user_appl), ..nothing() };
    lemma_section(user_appl, nothing());
    assert(d.subrange(0, head.len() as int) =~= head);
    lemma_block(d, 0, BLOCK_SHB, body);
    assert(le32(d, 8) == le32(body, 0)) by {
        let b = d.subrange(8, 8 + body.len() as int);
        assert(b[0] == d[8] && b[1] == d[9] && b[2] == d[10] && b[3] == d[11]);
    }
    let total = body.len() + 12;
    assert(with_header(body, true, nothing()) =~= s);
    lemma_step(d, 0, None, BLOCK_SHB, body, nothing(), s);
    assert(d.subrange(total as int, d.len() as int) =~= all_items(items));
    lemma_items(d, total as int, items, s);
}

} // verus!

//! The conversations table: one row per 5-tuple, totalled from a snapshot.
//!
//! Built on demand from the frames already held, for the same reason Follow
//! Stream is: totals kept incrementally would have to be maintained by the
//! dissection worker, and would then disagree with the store as soon as the
//! ring evicted anything. Counting what is held means the table always
//! describes exactly the frames the packet list is showing.

use vstd::prelude::*;

use super::order::{arranged, is_order, order_by, stable_order};
use super::Snapshot;
use crate::bytes::{be16_bytes, order_bytes, order_from, order_is_total, Order};
use crate::capture::Timestamp;
use crate::dissect::node::{first_named, Row as TreeRow, Value, ValueView};
use crate::dissect::{addr_text, Addr, AddrView, Frame, FrameView};
use crate::text;

verus! {

/// Which layer a row is about.
#[derive(Debug, Clone, Copy, PartialEq, Eq, PartialOrd, Ord, Hash, Structural)]
pub enum Kind {
    /// Link layer: MAC to MAC.
    Ethernet,
    /// Network layer: address to address, ports ignored.
    Ip,
    Tcp,
    Udp,
}

impl Kind {
    pub const ALL: [Kind; 4] = [Kind::Ethernet, Kind::Ip, Kind::Tcp, Kind::Udp];

    pub fn name(self) -> (r: &'static str)
        ensures
            r@ == (match self {
                Kind::Ethernet => "Ethernet"@,
                Kind::Ip => "IPv4 · IPv6"@,
                Kind::Tcp => "TCP"@,
                Kind::Udp => "UDP"@,
            }),
    {
        match self {
            Kind::Ethernet => "Ethernet",
            Kind::Ip => "IPv4 · IPv6",
            Kind::Tcp => "TCP",
            Kind::Udp => "UDP",
        }
    }
}

/// What makes two frames one conversation.
#[derive(Debug, Clone, Copy, PartialEq, Eq, Hash)]
pub struct Key {
    pub a: Addr,
    pub b: Addr,
    pub port_a: u16,
    pub port_b: u16,
    /// Part of the identity at the transport layers. Ports are reused, and
    /// two connections between the same pair are two conversations - the
    /// same reason the stream table starts a new id on a SYN. Without this
    /// they would share a row and their totals would be added together.
    pub stream: Option<u32>,
}

/// The addresses, ports and stream of a key.
#[verifier::ext_equal]
pub struct KeyView {
    pub a: AddrView,
    pub b: AddrView,
    pub port_a: u16,
    pub port_b: u16,
    pub stream: Option<u32>,
}

impl View for Key {
    type V = KeyView;

    open spec fn view(&self) -> KeyView {
        KeyView {
            a: self.a@,
            b: self.b@,
            port_a: self.port_a,
            port_b: self.port_b,
            stream: self.stream,
        }
    }
}

/// One conversation's totals.
#[derive(Debug, Clone, Copy)]
pub struct Row {
    pub a: Addr,
    pub b: Addr,
    /// Zero for the layers that have no ports.
    pub port_a: u16,
    pub port_b: u16,
    /// Packets and bytes A to B, then B to A.
    pub packets: [u64; 2],
    pub bytes: [u64; 2],
    pub first: Timestamp,
    pub last: Timestamp,
    /// Stream id, for the layers that have one.
    pub stream: Option<u32>,
}

/// A conversation and its totals, A to B and B to A.
#[verifier::ext_equal]
pub struct RowView {
    pub key: KeyView,
    pub packets: (u64, u64),
    pub bytes: (u64, u64),
    pub first: Timestamp,
    pub last: Timestamp,
}

impl View for Row {
    type V = RowView;

    open spec fn view(&self) -> RowView {
        RowView {
            key: KeyView {
                a: self.a@,
                b: self.b@,
                port_a: self.port_a,
                port_b: self.port_b,
                stream: self.stream,
            },
            packets: (self.packets@[0], self.packets@[1]),
            bytes: (self.bytes@[0], self.bytes@[1]),
            first: self.first,
            last: self.last,
        }
    }
}

/// Rows as totals.
pub open spec fn row_views(v: Seq<Row>) -> Seq<RowView> {
    v.map_values(|r: Row| r@)
}

/// A sum that stops at the largest number.
pub open spec fn plus(a: u64, b: u64) -> u64 {
    if a + b > u64::MAX {
        u64::MAX
    } else {
        (a + b) as u64
    }
}

fn sum(a: u64, b: u64) -> (r: u64)
    ensures
        r == plus(a, b),
{
    if b > u64::MAX - a {
        u64::MAX
    } else {
        a + b
    }
}

impl Row {
    pub fn total_packets(&self) -> (r: u64)
        ensures
            r == plus(self@.packets.0, self@.packets.1),
    {
        sum(self.packets[0], self.packets[1])
    }

    pub fn total_bytes(&self) -> (r: u64)
        ensures
            r == plus(self@.bytes.0, self@.bytes.1),
    {
        sum(self.bytes[0], self.bytes[1])
    }
}

// ---- endpoints ------------------------------------------------------------------

/// `b`, made up to 16 bytes with zeros.
pub open spec fn widened(b: Seq<u8>) -> Seq<u8> {
    Seq::new(16, |i: int| if i < b.len() { b[i] } else { 0u8 })
}

/// The place of an address in the order of endpoints: its family, then its
/// bytes.
pub open spec fn rank(a: AddrView) -> (u8, Seq<u8>) {
    match a {
        AddrView::Absent => (0, widened(Seq::empty())),
        AddrView::Mac(m) => (1, widened(m)),
        AddrView::Ipv4(v) => (2, widened(v)),
        AddrView::Ipv6(v) => (3, widened(v)),
    }
}

/// Addresses have the width of their family.
pub open spec fn addr_valid(a: AddrView) -> bool {
    match a {
        AddrView::Absent => true,
        AddrView::Mac(m) => m.len() == 6,
        AddrView::Ipv4(v) => v.len() == 4,
        AddrView::Ipv6(v) => v.len() == 16,
    }
}

/// An endpoint as bytes, so that endpoints compare as byte strings do.
pub open spec fn endpoint(a: AddrView, port: u16) -> Seq<u8> {
    seq![rank(a).0] + rank(a).1 + be16_bytes(port)
}

/// The key of a frame from `a` to `b`, lower endpoint first, and whether the
/// frame ran in that order.
pub open spec fn ordered_key(
    a: AddrView,
    pa: u16,
    b: AddrView,
    pb: u16,
    stream: Option<u32>,
) -> (KeyView, bool) {
    if order_from(endpoint(a, pa), endpoint(b, pb), 0) != Order::Greater {
        (KeyView { a, b, port_a: pa, port_b: pb, stream }, true)
    } else {
        (KeyView { a: b, b: a, port_a: pb, port_b: pa, stream }, false)
    }
}

/// A sortable form of an address, so endpoint ordering is deterministic.
pub fn addr_key(a: Addr) -> (r: (u8, [u8; 16]))
    ensures
        (r.0, r.1@) == rank(a@),
{
    match a {
        Addr::Absent => {
            let b: [u8; 16] = [0, 0, 0, 0, 0, 0, 0, 0, 0, 0, 0, 0, 0, 0, 0, 0];
            assert(b@ =~= widened(Seq::empty()));
            (0, b)
        },
        Addr::Mac(m) => {
            let b: [u8; 16] = [m[0], m[1], m[2], m[3], m[4], m[5], 0, 0, 0, 0, 0, 0, 0, 0, 0, 0];
            assert(b@ =~= widened(m@));
            (1, b)
        },
        Addr::Ipv4(v) => {
            let b: [u8; 16] = [v[0], v[1], v[2], v[3], 0, 0, 0, 0, 0, 0, 0, 0, 0, 0, 0, 0];
            assert(b@ =~= widened(v@));
            (2, b)
        },
        Addr::Ipv6(v) => {
            assert(v@ =~= widened(v@));
            (3, v)
        },
    }
}

fn endpoint_bytes(a: Addr, port: u16) -> (r: Vec<u8>)
    ensures
        r@ == endpoint(a@, port),
{
    let (family, bytes) = addr_key(a);
    let mut out: Vec<u8> = Vec::new();
    out.push(family);
    let mut i: usize = 0;
    while i < 16
        invariant
            i <= 16,
            out@ == seq![family] + bytes@.take(i as int),
        decreases 16 - i,
    {
        out.push(bytes[i]);
        i += 1;
    }
    assert(bytes@.take(16) =~= bytes@);
    crate::bytes::put_be16(&mut out, port);
    out
}

/// The key of a frame between two endpoints. Sorting the endpoints makes
/// both directions land on one row; the flag says whether this frame ran in
/// the stored order or the other way.
pub fn ordered(a: Addr, pa: u16, b: Addr, pb: u16, stream: Option<u32>) -> (r: (Key, bool))
    ensures
        (r.0@, r.1) == ordered_key(a@, pa, b@, pb, stream),
{
    let x: Vec<u8> = endpoint_bytes(a, pa);
    let y: Vec<u8> = endpoint_bytes(b, pb);
    match order_bytes(&x, &y) {
        Order::Greater => (Key { a: b, b: a, port_a: pb, port_b: pa, stream }, false),
        _ => (Key { a, b, port_a: pa, port_b: pb, stream }, true),
    }
}

/// The two ends of a frame at one layer.
#[verifier::ext_equal]
pub struct Ends {
    pub src: AddrView,
    pub src_port: u16,
    pub dst: AddrView,
    pub dst_port: u16,
    pub stream: Option<u32>,
}

/// The number that the first row called `name` holds.
pub open spec fn number_at(rows: Seq<TreeRow>, name: Seq<char>) -> Option<u64> {
    match first_named(rows, name, 0) {
        Some(k) => match rows[k].value {
            ValueView::Unsigned(v) => Some(v),
            _ => None,
        },
        None => None,
    }
}

/// The address that the first row called `name` holds, whatever family it is.
pub open spec fn addr_at(rows: Seq<TreeRow>, name: Seq<char>) -> Option<AddrView> {
    match first_named(rows, name, 0) {
        Some(k) => match rows[k].value {
            ValueView::Mac(m) => Some(AddrView::Mac(m)),
            ValueView::Ipv4(v) => Some(AddrView::Ipv4(v)),
            ValueView::Ipv6(v) => Some(AddrView::Ipv6(v)),
            _ => None,
        },
        None => None,
    }
}

/// The hardware address that the first row called `name` holds.
pub open spec fn mac_at(rows: Seq<TreeRow>, name: Seq<char>) -> Option<AddrView> {
    match addr_at(rows, name) {
        Some(AddrView::Mac(m)) => Some(AddrView::Mac(m)),
        _ => None,
    }
}

/// The addresses of the network layer: those of IPv4, or else of IPv6.
pub open spec fn hosts_of(rows: Seq<TreeRow>) -> Option<(AddrView, AddrView)> {
    match (addr_at(rows, "ip.src"@), addr_at(rows, "ip.dst"@)) {
        (Some(s), Some(d)) => Some((s, d)),
        _ => match (addr_at(rows, "ipv6.src"@), addr_at(rows, "ipv6.dst"@)) {
            (Some(s), Some(d)) => Some((s, d)),
            _ => None,
        },
    }
}

/// A frame's endpoints between two ports, under the field names given.
pub open spec fn ports_of(
    rows: Seq<TreeRow>,
    src: Seq<char>,
    dst: Seq<char>,
    stream: Seq<char>,
) -> Option<Ends> {
    match (hosts_of(rows), number_at(rows, src), number_at(rows, dst)) {
        (Some((s, d)), Some(sp), Some(dp)) => Some(
            Ends {
                src: s,
                src_port: sp as u16,
                dst: d,
                dst_port: dp as u16,
                stream: match number_at(rows, stream) {
                    Some(v) => Some(v as u32),
                    None => None,
                },
            },
        ),
        _ => None,
    }
}

/// A frame's endpoints at one layer, if it has them.
pub open spec fn ends_of(rows: Seq<TreeRow>, kind: Kind) -> Option<Ends> {
    match kind {
        Kind::Ethernet => match (mac_at(rows, "eth.src"@), mac_at(rows, "eth.dst"@)) {
            (Some(s), Some(d)) => Some(
                Ends { src: s, src_port: 0, dst: d, dst_port: 0, stream: None },
            ),
            _ => None,
        },
        Kind::Ip => match hosts_of(rows) {
            Some((s, d)) => Some(
                Ends { src: s, src_port: 0, dst: d, dst_port: 0, stream: None },
            ),
            None => None,
        },
        Kind::Tcp => ports_of(rows, "tcp.srcport"@, "tcp.dstport"@, "tcp.stream"@),
        Kind::Udp => ports_of(rows, "udp.srcport"@, "udp.dstport"@, "udp.stream"@),
    }
}

fn field_of(frame: &Frame, name: &str) -> (r: Option<u64>)
    ensures
        r == number_at(frame@.rows, name@),
{
    match frame.tree.first(name) {
        Some(n) => n.unsigned(),
        None => None,
    }
}

fn addr_of(frame: &Frame, name: &str) -> (r: Option<Addr>)
    ensures
        match r {
            Some(a) => addr_at(frame@.rows, name@) == Some(a@),
            None => addr_at(frame@.rows, name@) is None,
        },
{
    match frame.tree.first(name) {
        Some(n) => match n.value() {
            Value::Mac(m) => Some(Addr::Mac(m)),
            Value::Ipv4(v) => Some(Addr::Ipv4(v)),
            Value::Ipv6(v) => Some(Addr::Ipv6(v)),
            _ => None,
        },
        None => None,
    }
}

fn mac_of(frame: &Frame, name: &str) -> (r: Option<Addr>)
    ensures
        match r {
            Some(a) => mac_at(frame@.rows, name@) == Some(a@),
            None => mac_at(frame@.rows, name@) is None,
        },
{
    match addr_of(frame, name) {
        Some(Addr::Mac(m)) => Some(Addr::Mac(m)),
        _ => None,
    }
}

fn net_addrs(frame: &Frame) -> (r: Option<(Addr, Addr)>)
    ensures
        match r {
            Some((s, d)) => hosts_of(frame@.rows) == Some((s@, d@)),
            None => hosts_of(frame@.rows) is None,
        },
{
    let src = addr_of(frame, "ip.src");
    let dst = addr_of(frame, "ip.dst");
    if let Some(s) = src {
        if let Some(d) = dst {
            return Some((s, d));
        }
    }
    let src = addr_of(frame, "ipv6.src");
    let dst = addr_of(frame, "ipv6.dst");
    if let Some(s) = src {
        if let Some(d) = dst {
            return Some((s, d));
        }
    }
    None
}

/// The two ends found in a frame: addresses, ports and stream.
struct Found {
    src: Addr,
    src_port: u16,
    dst: Addr,
    dst_port: u16,
    stream: Option<u32>,
}

impl View for Found {
    type V = Ends;

    closed spec fn view(&self) -> Ends {
        Ends {
            src: self.src@,
            src_port: self.src_port,
            dst: self.dst@,
            dst_port: self.dst_port,
            stream: self.stream,
        }
    }
}

fn ports_in(frame: &Frame, src: &str, dst: &str, stream: &str) -> (r: Option<Found>)
    ensures
        match r {
            Some(f) => ports_of(frame@.rows, src@, dst@, stream@) == Some(f@),
            None => ports_of(frame@.rows, src@, dst@, stream@) is None,
        },
{
    let (s, d) = match net_addrs(frame) {
        Some((s, d)) => (s, d),
        None => return None,
    };
    let sp: u64 = match field_of(frame, src) {
        Some(v) => v,
        None => return None,
    };
    let dp: u64 = match field_of(frame, dst) {
        Some(v) => v,
        None => return None,
    };
    let id: Option<u32> = match field_of(frame, stream) {
        Some(v) => Some(v as u32),
        None => None,
    };
    Some(Found { src: s, src_port: sp as u16, dst: d, dst_port: dp as u16, stream: id })
}

/// A frame's endpoints at one layer, if it has them.
fn endpoints_at(frame: &Frame, kind: Kind) -> (r: Option<Found>)
    ensures
        match r {
            Some(f) => ends_of(frame@.rows, kind) == Some(f@),
            None => ends_of(frame@.rows, kind) is None,
        },
{
    match kind {
        Kind::Ethernet => {
            let src = mac_of(frame, "eth.src");
            let dst = mac_of(frame, "eth.dst");
            if let Some(s) = src {
                if let Some(d) = dst {
                    return Some(
                        Found { src: s, src_port: 0, dst: d, dst_port: 0, stream: None },
                    );
                }
            }
            None
        },
        Kind::Ip => match net_addrs(frame) {
            Some((s, d)) => Some(
                Found { src: s, src_port: 0, dst: d, dst_port: 0, stream: None },
            ),
            None => None,
        },
        Kind::Tcp => ports_in(frame, "tcp.srcport", "tcp.dstport", "tcp.stream"),
        Kind::Udp => ports_in(frame, "udp.srcport", "udp.dstport", "udp.stream"),
    }
}

// ---- the table --------------------------------------------------------------------

/// The place of the row with `key`, from `i` on.
pub open spec fn row_with(rows: Seq<RowView>, key: KeyView, i: int) -> Option<int>
    decreases rows.len() - i,
{
    if i < 0 || i >= rows.len() {
        None
    } else if rows[i].key == key {
        Some(i)
    } else {
        row_with(rows, key, i + 1)
    }
}

/// A row after one more frame, in its own order or the other way.
pub open spec fn counted(r: RowView, forward: bool, f: FrameView) -> RowView {
    let bytes = f.orig_len as u64;
    if forward {
        RowView {
            packets: (plus(r.packets.0, 1), r.packets.1),
            bytes: (plus(r.bytes.0, bytes), r.bytes.1),
            last: f.ts,
            ..r
        }
    } else {
        RowView {
            packets: (r.packets.0, plus(r.packets.1, 1)),
            bytes: (r.bytes.0, plus(r.bytes.1, bytes)),
            last: f.ts,
            ..r
        }
    }
}

/// A row that nothing was counted in yet.
pub open spec fn fresh(key: KeyView, ts: Timestamp) -> RowView {
    RowView { key, packets: (0, 0), bytes: (0, 0), first: ts, last: ts }
}

/// The rows after one more frame.
pub open spec fn with_frame(rows: Seq<RowView>, kind: Kind, f: FrameView) -> Seq<RowView> {
    match ends_of(f.rows, kind) {
        None => rows,
        Some(e) => {
            let (key, forward) = ordered_key(e.src, e.src_port, e.dst, e.dst_port, e.stream);
            match row_with(rows, key, 0) {
                Some(k) => rows.update(k, counted(rows[k], forward, f)),
                None => rows.push(counted(fresh(key, f.ts), forward, f)),
            }
        },
    }
}

/// The conversations among the first `n` frames, in the order they began.
pub open spec fn tally(frames: Seq<FrameView>, kind: Kind, n: int) -> Seq<RowView>
    decreases n,
{
    if n <= 0 {
        Seq::empty()
    } else {
        with_frame(tally(frames, kind, n - 1), kind, frames[n - 1])
    }
}

/// How quiet each conversation is.
pub open spec fn quiet(rows: Seq<RowView>) -> Seq<u64> {
    rows.map_values(|r: RowView| (u64::MAX - plus(r.bytes.0, r.bytes.1)) as u64)
}

/// The rows of `all`, the one with the most bytes first, and those with as
/// many in the order they stood.
pub open spec fn busiest_first(all: Seq<RowView>) -> Seq<RowView> {
    arranged(all, stable_order(quiet(all)))
}

/// Whether two addresses are the same.
pub fn same_addr(a: &Addr, b: &Addr) -> (r: bool)
    ensures
        r == (a@ == b@),
{
    match (a, b) {
        (Addr::Absent, Addr::Absent) => true,
        (Addr::Mac(x), Addr::Mac(y)) => crate::bytes::same(x, y),
        (Addr::Ipv4(x), Addr::Ipv4(y)) => crate::bytes::same(x, y),
        (Addr::Ipv6(x), Addr::Ipv6(y)) => crate::bytes::same(x, y),
        _ => false,
    }
}

fn same_stream(a: Option<u32>, b: Option<u32>) -> (r: bool)
    ensures
        r == (a == b),
{
    match (a, b) {
        (Some(x), Some(y)) => x == y,
        (None, None) => true,
        _ => false,
    }
}

impl Row {
    fn is_for(&self, key: &Key) -> (r: bool)
        ensures
            r == (self@.key == key@),
    {
        self.port_a == key.port_a && self.port_b == key.port_b && same_stream(
            self.stream,
            key.stream,
        ) && same_addr(&self.a, &key.a) && same_addr(&self.b, &key.b)
    }

    fn opened(key: &Key, ts: Timestamp) -> (r: Row)
        ensures
            r@ == fresh(key@, ts),
    {
        Row {
            a: key.a,
            b: key.b,
            port_a: key.port_a,
            port_b: key.port_b,
            packets: [0, 0],
            bytes: [0, 0],
            first: ts,
            last: ts,
            stream: key.stream,
        }
    }

    fn count(&self, forward: bool, frame: &Frame) -> (r: Row)
        ensures
            r@ == counted(self@, forward, frame@),
    {
        let more: u64 = frame.orig_len as u64;
        let (packets, bytes) = if forward {
            (
                [sum(self.packets[0], 1), self.packets[1]],
                [sum(self.bytes[0], more), self.bytes[1]],
            )
        } else {
            (
                [self.packets[0], sum(self.packets[1], 1)],
                [self.bytes[0], sum(self.bytes[1], more)],
            )
        };
        Row {
            a: self.a,
            b: self.b,
            port_a: self.port_a,
            port_b: self.port_b,
            packets,
            bytes,
            first: self.first,
            last: frame.ts,
            stream: self.stream,
        }
    }
}

fn find_row(rows: &Vec<Row>, key: &Key) -> (r: Option<usize>)
    ensures
        match r {
            Some(k) => k < rows@.len() && row_with(row_views(rows@), key@, 0) == Some(k as int),
            None => row_with(row_views(rows@), key@, 0) is None,
        },
{
    let mut i: usize = 0;
    while i < rows.len()
        invariant
            i <= rows@.len(),
            row_with(row_views(rows@), key@, 0) == row_with(row_views(rows@), key@, i as int),
        decreases rows.len() - i,
    {
        assert(row_views(rows@)[i as int] == rows@[i as int]@);
        if rows[i].is_for(key) {
            return Some(i);
        }
        i += 1;
    }
    None
}

fn count_frame(rows: &mut Vec<Row>, kind: Kind, frame: &Frame)
    ensures
        row_views(final(rows)@) == with_frame(row_views(old(rows)@), kind, frame@),
{
    let ghost before = rows@;
    if let Some(e) = endpoints_at(frame, kind) {
        let (key, forward) = ordered(e.src, e.src_port, e.dst, e.dst_port, e.stream);
        match find_row(rows, &key) {
            Some(k) => {
                let row: Row = rows[k].count(forward, frame);
                rows.set(k, row);
                assert(row_views(rows@) =~= row_views(before).update(k as int, row@));
            },
            None => {
                let row: Row = Row::opened(&key, frame.ts).count(forward, frame);
                rows.push(row);
                assert(row_views(rows@) =~= row_views(before).push(row@));
            },
        }
    }
}

/// Total every conversation at `kind` across the snapshot, busiest first:
/// the reason to open this table is to find what is using the link.
pub fn conversations(snapshot: &Snapshot, kind: Kind) -> (r: Vec<Row>)
    ensures
        row_views(r@) == busiest_first(
            tally(snapshot@.frames, kind, snapshot@.frames.len() as int),
        ),
{
    let n: usize = snapshot.len();
    let ghost frames = snapshot@.frames;
    let mut rows: Vec<Row> = Vec::new();
    assert(row_views(rows@) =~= tally(frames, kind, 0));
    let mut at: usize = 0;
    while at < n
        invariant
            at <= n == frames.len(),
            frames == snapshot@.frames,
            row_views(rows@) == tally(frames, kind, at as int),
        decreases n - at,
    {
        if let Some(frame) = snapshot.get(at) {
            count_frame(&mut rows, kind, frame);
        }
        at += 1;
    }
    let ghost all = row_views(rows@);
    let mut keys: Vec<u64> = Vec::new();
    let mut i: usize = 0;
    while i < rows.len()
        invariant
            i <= rows@.len(),
            all == row_views(rows@),
            keys@ == quiet(all).take(i as int),
        decreases rows.len() - i,
    {
        keys.push(u64::MAX - rows[i].total_bytes());
        assert(keys@ =~= quiet(all).take(i + 1));
        i += 1;
    }
    assert(keys@ =~= quiet(all));
    let order: Vec<usize> = order_by(&keys);
    let mut out: Vec<Row> = Vec::new();
    let mut i: usize = 0;
    assert(row_views(out@) =~= arranged(all, order@).take(0));
    while i < order.len()
        invariant
            i <= order@.len(),
            all == row_views(rows@),
            is_order(quiet(all), order@),
            row_views(out@) == arranged(all, order@).take(i as int),
        decreases order.len() - i,
    {
        let ghost before = row_views(out@);
        out.push(rows[order[i]]);
        assert(row_views(out@) =~= before.push(rows@[order@[i as int] as int]@));
        assert(row_views(out@) =~= arranged(all, order@).take(i + 1));
        i += 1;
    }
    assert(row_views(out@) =~= arranged(all, order@));
    out
}

/// Both directions of a conversation have one key, and frames that run
/// opposite ways are counted in opposite columns.
pub proof fn directions_share_a_row(
    a: AddrView,
    pa: u16,
    b: AddrView,
    pb: u16,
    stream: Option<u32>,
)
    requires
        addr_valid(a),
        addr_valid(b),
    ensures
        ordered_key(a, pa, b, pb, stream).0 == ordered_key(b, pb, a, pa, stream).0,
        (a, pa) != (b, pb) ==> ordered_key(a, pa, b, pb, stream).1 != ordered_key(
            b,
            pb,
            a,
            pa,
            stream,
        ).1,
{
    order_is_total(endpoint(a, pa), endpoint(b, pb));
    if endpoint(a, pa) == endpoint(b, pb) {
        lemma_endpoint(a, pa, b, pb);
    }
}

proof fn lemma_endpoint(a: AddrView, pa: u16, b: AddrView, pb: u16)
    requires
        addr_valid(a),
        addr_valid(b),
        endpoint(a, pa) == endpoint(b, pb),
    ensures
        a == b,
        pa == pb,
{
    let x = endpoint(a, pa);
    let y = endpoint(b, pb);
    assert(x[0] == rank(a).0 && y[0] == rank(b).0);
    assert(x[17] == pa / 0x100 && x[18] == pa % 0x100);
    assert(y[17] == pb / 0x100 && y[18] == pb % 0x100);
    assert forall|i: int| 0 <= i < 16 implies rank(a).1[i] == rank(b).1[i] by {
        assert(x[i + 1] == rank(a).1[i]);
        assert(y[i + 1] == rank(b).1[i]);
    }
    match (a, b) {
        (AddrView::Mac(m), AddrView::Mac(n)) => {
            assert forall|i: int| 0 <= i < 6 implies m[i] == n[i] by {
                assert(rank(a).1[i] == rank(b).1[i]);
            }
            assert(m =~= n);
        },
        (AddrView::Ipv4(m), AddrView::Ipv4(n)) => {
            assert forall|i: int| 0 <= i < 4 implies m[i] == n[i] by {
                assert(rank(a).1[i] == rank(b).1[i]);
            }
            assert(m =~= n);
        },
        (AddrView::Ipv6(m), AddrView::Ipv6(n)) => {
            assert forall|i: int| 0 <= i < 16 implies m[i] == n[i] by {
                assert(rank(a).1[i] == rank(b).1[i]);
            }
            assert(m =~= n);
        },
        _ => {},
    }
}

/// The packets of all rows.
pub open spec fn packets_in(rows: Seq<RowView>) -> int
    decreases rows.len(),
{
    if rows.len() == 0 {
        0
    } else {
        packets_in(rows.drop_last()) + rows.last().packets.0 + rows.last().packets.1
    }
}

/// How many of the first `n` frames have endpoints at a layer.
pub open spec fn with_ends(frames: Seq<FrameView>, kind: Kind, n: int) -> int
    decreases n,
{
    if n <= 0 {
        0
    } else {
        with_ends(frames, kind, n - 1) + if ends_of(frames[n - 1].rows, kind) is Some {
            1int
        } else {
            0
        }
    }
}

proof fn lemma_packets_updated(rows: Seq<RowView>, k: int, r: RowView)
    requires
        0 <= k < rows.len(),
    ensures
        packets_in(rows.update(k, r)) == packets_in(rows) - rows[k].packets.0 - rows[k].packets.1
            + r.packets.0 + r.packets.1,
        rows[k].packets.0 + rows[k].packets.1 <= packets_in(rows),
    decreases rows.len(),
{
    lemma_packets_positive(rows.drop_last());
    if k == rows.len() - 1 {
        assert(rows.update(k, r).drop_last() =~= rows.drop_last());
    } else {
        lemma_packets_updated(rows.drop_last(), k, r);
        assert(rows.update(k, r).drop_last() =~= rows.drop_last().update(k, r));
    }
}

proof fn lemma_packets_positive(rows: Seq<RowView>)
    ensures
        packets_in(rows) >= 0,
    decreases rows.len(),
{
    if rows.len() > 0 {
        lemma_packets_positive(rows.drop_last());
    }
}

proof fn lemma_row_with(rows: Seq<RowView>, key: KeyView, i: int)
    requires
        0 <= i,
    ensures
        row_with(rows, key, i) matches Some(k) ==> i <= k < rows.len() && rows[k].key == key,
        row_with(rows, key, i) is None ==> forall|k: int|
            i <= k < rows.len() ==> (#[trigger] rows[k]).key != key,
    decreases rows.len() - i,
{
    if i < rows.len() && rows[i].key != key {
        lemma_row_with(rows, key, i + 1);
    }
}

/// Every frame that has endpoints at a layer is counted in exactly one row,
/// and no other frame is.
pub proof fn every_frame_is_counted_once(frames: Seq<FrameView>, kind: Kind, n: int)
    requires
        n <= u64::MAX,
    ensures
        packets_in(tally(frames, kind, n)) == with_ends(frames, kind, n),
        with_ends(frames, kind, n) <= if n < 0 {
            0
        } else {
            n
        },
    decreases n,
{
    if n > 0 {
        every_frame_is_counted_once(frames, kind, n - 1);
        let before = tally(frames, kind, n - 1);
        let f = frames[n - 1];
        if let Some(e) = ends_of(f.rows, kind) {
            let (key, forward) = ordered_key(e.src, e.src_port, e.dst, e.dst_port, e.stream);
            lemma_row_with(before, key, 0);
            match row_with(before, key, 0) {
                Some(k) => {
                    lemma_packets_updated(before, k, counted(before[k], forward, f));
                },
                None => {
                    let r = counted(fresh(key, f.ts), forward, f);
                    assert(before.push(r).drop_last() =~= before);
                },
            }
        }
    }
}

/// The bytes counted in rows, both ways.
pub open spec fn bytes_in(rows: Seq<RowView>) -> int
    decreases rows.len(),
{
    if rows.len() == 0 {
        0
    } else {
        bytes_in(rows.drop_last()) + rows.last().bytes.0 + rows.last().bytes.1
    }
}

/// The bytes of those of the first `n` frames that have endpoints at a layer.
pub open spec fn bytes_with_ends(frames: Seq<FrameView>, kind: Kind, n: int) -> int
    decreases n,
{
    if n <= 0 {
        0
    } else {
        bytes_with_ends(frames, kind, n - 1) + if ends_of(frames[n - 1].rows, kind) is Some {
            frames[n - 1].orig_len as int
        } else {
            0
        }
    }
}

proof fn lemma_bytes_positive(rows: Seq<RowView>)
    ensures
        bytes_in(rows) >= 0,
    decreases rows.len(),
{
    if rows.len() > 0 {
        lemma_bytes_positive(rows.drop_last());
    }
}

proof fn lemma_bytes_updated(rows: Seq<RowView>, k: int, r: RowView)
    requires
        0 <= k < rows.len(),
    ensures
        bytes_in(rows.update(k, r)) == bytes_in(rows) - rows[k].bytes.0 - rows[k].bytes.1
            + r.bytes.0 + r.bytes.1,
        rows[k].bytes.0 + rows[k].bytes.1 <= bytes_in(rows),
    decreases rows.len(),
{
    lemma_bytes_positive(rows.drop_last());
    if k == rows.len() - 1 {
        assert(rows.update(k, r).drop_last() =~= rows.drop_last());
    } else {
        lemma_bytes_updated(rows.drop_last(), k, r);
        assert(rows.update(k, r).drop_last() =~= rows.drop_last().update(k, r));
    }
}

/// The bytes of every frame that has endpoints at a layer are counted in
/// exactly one row, as long as the counters hold them.
pub proof fn every_byte_is_counted_once(frames: Seq<FrameView>, kind: Kind, n: int)
    requires
        bytes_with_ends(frames, kind, n) <= u64::MAX,
    ensures
        bytes_in(tally(frames, kind, n)) == bytes_with_ends(frames, kind, n),
        bytes_with_ends(frames, kind, n) >= 0,
    decreases n,
{
    if n > 0 {
        every_byte_is_counted_once(frames, kind, n - 1);
        let before = tally(frames, kind, n - 1);
        let f = frames[n - 1];
        if let Some(e) = ends_of(f.rows, kind) {
            let (key, forward) = ordered_key(e.src, e.src_port, e.dst, e.dst_port, e.stream);
            lemma_row_with(before, key, 0);
            match row_with(before, key, 0) {
                Some(k) => {
                    lemma_bytes_updated(before, k, counted(before[k], forward, f));
                },
                None => {
                    let r = counted(fresh(key, f.ts), forward, f);
                    assert(before.push(r).drop_last() =~= before);
                },
            }
        }
    }
}

/// No two rows are the same conversation.
pub proof fn rows_are_distinct(frames: Seq<FrameView>, kind: Kind, n: int)
    ensures
        forall|i: int, j: int|
            0 <= i < j < tally(frames, kind, n).len() ==> (#[trigger] tally(
                frames,
                kind,
                n,
            )[i]).key != (#[trigger] tally(frames, kind, n)[j]).key,
    decreases n,
{
    if n > 0 {
        rows_are_distinct(frames, kind, n - 1);
        let before = tally(frames, kind, n - 1);
        let f = frames[n - 1];
        if let Some(e) = ends_of(f.rows, kind) {
            let (key, forward) = ordered_key(e.src, e.src_port, e.dst, e.dst_port, e.stream);
            lemma_row_with(before, key, 0);
        }
    }
}

// ---- selecting one --------------------------------------------------------------------

/// `field == a && field == b`.
pub open spec fn both(field: Seq<char>, a: Seq<char>, b: Seq<char>) -> Seq<char> {
    field + " == "@ + a + " && "@ + field + " == "@ + b
}

/// The name of the address field of the family of `a`.
pub open spec fn addr_field(a: AddrView) -> Seq<char> {
    match a {
        AddrView::Ipv6(_) => "ipv6.addr"@,
        _ => "ip.addr"@,
    }
}

/// The filter between two ports of a transport without a stream id.
pub open spec fn ports_filter(k: KeyView, port: Seq<char>) -> Seq<char> {
    both(addr_field(k.a), addr_text(k.a), addr_text(k.b)) + " && "@ + both(
        port,
        text::dec(k.port_a as int),
        text::dec(k.port_b as int),
    )
}

/// The display filter that selects a conversation.
pub open spec fn filter_text(k: KeyView, kind: Kind) -> Seq<char> {
    match kind {
        Kind::Ethernet => both("eth.addr"@, addr_text(k.a), addr_text(k.b)),
        Kind::Ip => both(addr_field(k.a), addr_text(k.a), addr_text(k.b)),
        Kind::Tcp => match k.stream {
            Some(id) => "tcp.stream == "@ + text::dec(id as int),
            None => ports_filter(k, "tcp.port"@),
        },
        Kind::Udp => match k.stream {
            Some(id) => "udp.stream == "@ + text::dec(id as int),
            None => ports_filter(k, "udp.port"@),
        },
    }
}

fn write_both(out: &mut String, field: &str, a: &str, b: &str)
    ensures
        final(out)@ == old(out)@ + both(field@, a@, b@),
{
    let ghost start = out@;
    out.push_str(field);
    out.push_str(" == ");
    out.push_str(a);
    out.push_str(" && ");
    out.push_str(field);
    out.push_str(" == ");
    out.push_str(b);
    assert(out@ =~= start + both(field@, a@, b@));
}

impl Row {
    fn addr_field(&self) -> (r: &'static str)
        ensures
            r@ == addr_field(self@.key.a),
    {
        match self.a {
            Addr::Ipv6(_) => "ipv6.addr",
            _ => "ip.addr",
        }
    }

    fn ports_filter(&self, port: &str) -> (r: String)
        ensures
            r@ == ports_filter(self@.key, port@),
    {
        let mut out = String::new();
        let (a, b) = (self.a.text(), self.b.text());
        write_both(&mut out, self.addr_field(), &a, &b);
        out.push_str(" && ");
        let (a, b) = (text::dec_text(self.port_a as u64), text::dec_text(self.port_b as u64));
        write_both(&mut out, port, &a, &b);
        assert(out@ =~= ports_filter(self@.key, port@));
        out
    }
}

/// A display filter selecting this conversation, for the "apply as filter"
/// action.
pub fn filter_for(row: &Row, kind: Kind) -> (r: String)
    ensures
        r@ == filter_text(row@.key, kind),
{
    let (a, b) = (row.a.text(), row.b.text());
    let mut out = String::new();
    match kind {
        Kind::Ethernet => {
            write_both(&mut out, "eth.addr", &a, &b);
            assert(out@ =~= filter_text(row@.key, kind));
            out
        },
        Kind::Ip => {
            write_both(&mut out, row.addr_field(), &a, &b);
            assert(out@ =~= filter_text(row@.key, kind));
            out
        },
        Kind::Tcp => match row.stream {
            Some(id) => text::cat("tcp.stream == ", &text::dec_text(id as u64)),
            None => row.ports_filter("tcp.port"),
        },
        Kind::Udp => match row.stream {
            Some(id) => text::cat("udp.stream == ", &text::dec_text(id as u64)),
            None => row.ports_filter("udp.port"),
        },
    }
}

} // verus!

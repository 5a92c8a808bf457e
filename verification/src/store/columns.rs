//! What stands in each column of the conversations table.

use vstd::prelude::*;

use super::conversations::{
    addr_valid, busiest_first, directions_share_a_row, ends_of, endpoint, ordered_key, quiet,
    row_with, rows_are_distinct, tally, with_frame, Ends, KeyView, Kind, RowView,
};
use super::order::{is_order, order_exists, order_lists_everything, stable_order};
use crate::bytes::order_is_total;
use crate::dissect::node::{first_named, Row as TreeRow, ValueView};
use crate::dissect::{AddrView, FrameView};
use crate::filter::meaning::{bytes_are_ordered_as_in_a_dictionary, parts_at};

verus! {

// ---- both ends of a frame -------------------------------------------------------

/// Row `i` is the first one called `name`.
pub open spec fn leads_as(rows: Seq<TreeRow>, name: Seq<char>, i: int) -> bool {
    &&& 0 <= i < rows.len()
    &&& rows[i].abbrev == name
    &&& forall|j: int| 0 <= j < i ==> (#[trigger] rows[j]).abbrev != name
}

pub proof fn lemma_leads(rows: Seq<TreeRow>, name: Seq<char>, i: int, k: int)
    requires
        leads_as(rows, name, k),
        0 <= i <= k,
    ensures
        first_named(rows, name, i) == Some(k),
    decreases k - i,
{
    if i < k {
        assert(rows[i].abbrev != name);
        lemma_leads(rows, name, i + 1, k);
    }
}

/// A TCP or UDP frame runs from its source port at its source address to its
/// destination port at its destination address.
pub proof fn ends_of_a_transport_are_its_ports(
    rows: Seq<TreeRow>,
    kind: Kind,
    src: int,
    dst: int,
    from: int,
    to: int,
    a: Seq<u8>,
    b: Seq<u8>,
    sp: u16,
    dp: u16,
)
    requires
        kind is Tcp || kind is Udp,
        leads_as(rows, "ip.src"@, src),
        leads_as(rows, "ip.dst"@, dst),
        rows[src].value == ValueView::Ipv4(a),
        rows[dst].value == ValueView::Ipv4(b),
        leads_as(
            rows,
            if kind is Tcp {
                "tcp.srcport"@
            } else {
                "udp.srcport"@
            },
            from,
        ),
        leads_as(
            rows,
            if kind is Tcp {
                "tcp.dstport"@
            } else {
                "udp.dstport"@
            },
            to,
        ),
        rows[from].value == ValueView::Unsigned(sp as u64),
        rows[to].value == ValueView::Unsigned(dp as u64),
    ensures
        ends_of(rows, kind) matches Some(e) && e.src == AddrView::Ipv4(a) && e.dst
            == AddrView::Ipv4(b) && e.src_port == sp && e.dst_port == dp,
{
    lemma_leads(rows, "ip.src"@, 0, src);
    lemma_leads(rows, "ip.dst"@, 0, dst);
    lemma_leads(
        rows,
        if kind is Tcp {
            "tcp.srcport"@
        } else {
            "udp.srcport"@
        },
        0,
        from,
    );
    lemma_leads(
        rows,
        if kind is Tcp {
            "tcp.dstport"@
        } else {
            "udp.dstport"@
        },
        0,
        to,
    );
}

/// The stream is the one its own layer names.
pub proof fn the_stream_is_that_of_the_layer(rows: Seq<TreeRow>, kind: Kind, at: int, id: u32)
    requires
        kind is Tcp || kind is Udp,
        leads_as(
            rows,
            if kind is Tcp {
                "tcp.stream"@
            } else {
                "udp.stream"@
            },
            at,
        ),
        rows[at].value == ValueView::Unsigned(id as u64),
    ensures
        ends_of(rows, kind) matches Some(e) ==> e.stream == Some(id),
{
    lemma_leads(
        rows,
        if kind is Tcp {
            "tcp.stream"@
        } else {
            "udp.stream"@
        },
        0,
        at,
    );
}

/// At the link layer a frame runs between its hardware addresses, and at the
/// network layer between its IP addresses, without ports or a stream.
pub proof fn ends_below_the_transport_are_addresses(
    rows: Seq<TreeRow>,
    kind: Kind,
    src: int,
    dst: int,
    a: Seq<u8>,
    b: Seq<u8>,
)
    requires
        kind is Ethernet || kind is Ip,
        leads_as(
            rows,
            if kind is Ethernet {
                "eth.src"@
            } else {
                "ip.src"@
            },
            src,
        ),
        leads_as(
            rows,
            if kind is Ethernet {
                "eth.dst"@
            } else {
                "ip.dst"@
            },
            dst,
        ),
        rows[src].value == if kind is Ethernet {
            ValueView::Mac(a)
        } else {
            ValueView::Ipv4(a)
        },
        rows[dst].value == if kind is Ethernet {
            ValueView::Mac(b)
        } else {
            ValueView::Ipv4(b)
        },
    ensures
        ends_of(rows, kind) == Some(
            Ends {
                src: if kind is Ethernet {
                    AddrView::Mac(a)
                } else {
                    AddrView::Ipv4(a)
                },
                src_port: 0,
                dst: if kind is Ethernet {
                    AddrView::Mac(b)
                } else {
                    AddrView::Ipv4(b)
                },
                dst_port: 0,
                stream: None,
            },
        ),
{
    lemma_leads(
        rows,
        if kind is Ethernet {
            "eth.src"@
        } else {
            "ip.src"@
        },
        0,
        src,
    );
    lemma_leads(
        rows,
        if kind is Ethernet {
            "eth.dst"@
        } else {
            "ip.dst"@
        },
        0,
        dst,
    );
}

/// No row is called `name`.
pub open spec fn missing(rows: Seq<TreeRow>, name: Seq<char>) -> bool {
    forall|j: int| 0 <= j < rows.len() ==> (#[trigger] rows[j]).abbrev != name
}

pub proof fn lemma_missing(rows: Seq<TreeRow>, name: Seq<char>, i: int)
    requires
        missing(rows, name),
        0 <= i,
    ensures
        first_named(rows, name, i) is None,
    decreases rows.len() - i,
{
    if i < rows.len() {
        assert(rows[i].abbrev != name);
        lemma_missing(rows, name, i + 1);
    }
}

/// A frame without IPv4 runs between its IPv6 addresses.
pub proof fn ends_without_ipv4_are_those_of_ipv6(
    rows: Seq<TreeRow>,
    src: int,
    dst: int,
    a: Seq<u8>,
    b: Seq<u8>,
)
    requires
        missing(rows, "ip.src"@),
        leads_as(rows, "ipv6.src"@, src),
        leads_as(rows, "ipv6.dst"@, dst),
        rows[src].value == ValueView::Ipv6(a),
        rows[dst].value == ValueView::Ipv6(b),
    ensures
        ends_of(rows, Kind::Ip) == Some(
            Ends {
                src: AddrView::Ipv6(a),
                src_port: 0,
                dst: AddrView::Ipv6(b),
                dst_port: 0,
                stream: None,
            },
        ),
        ends_of(rows, Kind::Tcp) matches Some(e) ==> e.src == AddrView::Ipv6(a) && e.dst
            == AddrView::Ipv6(b),
        ends_of(rows, Kind::Udp) matches Some(e) ==> e.src == AddrView::Ipv6(a) && e.dst
            == AddrView::Ipv6(b),
{
    lemma_missing(rows, "ip.src"@, 0);
    lemma_leads(rows, "ipv6.src"@, 0, src);
    lemma_leads(rows, "ipv6.dst"@, 0, dst);
}

/// A frame without ports is in no conversation of TCP or UDP, and one without
/// hardware addresses in none of Ethernet.
pub proof fn ends_that_are_missing_make_no_conversation(rows: Seq<TreeRow>)
    ensures
        missing(rows, "tcp.srcport"@) || missing(rows, "tcp.dstport"@) ==> ends_of(
            rows,
            Kind::Tcp,
        ) is None,
        missing(rows, "udp.srcport"@) || missing(rows, "udp.dstport"@) ==> ends_of(
            rows,
            Kind::Udp,
        ) is None,
        missing(rows, "eth.src"@) || missing(rows, "eth.dst"@) ==> ends_of(rows, Kind::Ethernet)
            is None,
{
    if missing(rows, "tcp.srcport"@) {
        lemma_missing(rows, "tcp.srcport"@, 0);
    }
    if missing(rows, "tcp.dstport"@) {
        lemma_missing(rows, "tcp.dstport"@, 0);
    }
    if missing(rows, "udp.srcport"@) {
        lemma_missing(rows, "udp.srcport"@, 0);
    }
    if missing(rows, "udp.dstport"@) {
        lemma_missing(rows, "udp.dstport"@, 0);
    }
    if missing(rows, "eth.src"@) {
        lemma_missing(rows, "eth.src"@, 0);
    }
    if missing(rows, "eth.dst"@) {
        lemma_missing(rows, "eth.dst"@, 0);
    }
}

/// Endpoint a is the lower one: the lower address of two in one family, byte
/// by byte, and between the ports of one address the lower port.
pub proof fn the_lower_endpoint_is_a(
    a: Seq<u8>,
    pa: u16,
    b: Seq<u8>,
    pb: u16,
    stream: Option<u32>,
    k: int,
)
    requires
        a.len() == 4,
        b.len() == 4,
    ensures
        0 <= k < 4 && a[k] < b[k] && (forall|i: int| 0 <= i < k ==> a[i] == b[i]) ==> ordered_key(
            AddrView::Ipv4(a),
            pa,
            AddrView::Ipv4(b),
            pb,
            stream,
        ) == (
            KeyView {
                a: AddrView::Ipv4(a),
                b: AddrView::Ipv4(b),
                port_a: pa,
                port_b: pb,
                stream,
            },
            true,
        ),
        pa > pb ==> ordered_key(
            AddrView::Ipv4(a),
            pa,
            AddrView::Ipv4(a),
            pb,
            stream,
        ) == (
            KeyView {
                a: AddrView::Ipv4(a),
                b: AddrView::Ipv4(a),
                port_a: pb,
                port_b: pa,
                stream,
            },
            false,
        ),
{
    let x = endpoint(AddrView::Ipv4(a), pa);
    let y = endpoint(AddrView::Ipv4(b), pb);
    if 0 <= k < 4 && a[k] < b[k] && (forall|i: int| 0 <= i < k ==> a[i] == b[i]) {
        assert(x.take(k + 1) =~= y.take(k + 1)) by {
            assert forall|i: int| 0 <= i < k + 1 implies x[i] == y[i] by {
                if i > 0 {
                    assert(x[i] == a[i - 1] && y[i] == b[i - 1]);
                }
            }
        }
        assert(x[k + 1] == a[k] && y[k + 1] == b[k]);
        assert(parts_at(x, y, k + 1));
        bytes_are_ordered_as_in_a_dictionary(x, y);
    }
    if pa > pb {
        let z = endpoint(AddrView::Ipv4(a), pb);
        assert(x[17] == pa / 0x100 && x[18] == pa % 0x100);
        assert(z[17] == pb / 0x100 && z[18] == pb % 0x100);
        assert(x.take(17) =~= z.take(17));
        if pa / 0x100 > pb / 0x100 {
            assert(parts_at(z, x, 17));
        } else {
            assert(x.take(18) =~= z.take(18));
            assert(parts_at(z, x, 18));
        }
        bytes_are_ordered_as_in_a_dictionary(x, z);
    }
}

// ---- columns --------------------------------------------------------------------

/// The frame belongs to the conversation `key` and its source is endpoint a.
pub open spec fn from_a(key: KeyView, f: FrameView, kind: Kind) -> bool {
    ends_of(f.rows, kind) matches Some(e) && {
        &&& e.stream == key.stream
        &&& e.src == key.a && e.src_port == key.port_a
        &&& e.dst == key.b && e.dst_port == key.port_b
    }
}

/// The frame belongs to the conversation `key` and its source is endpoint b,
/// which is another endpoint than a.
pub open spec fn from_b(key: KeyView, f: FrameView, kind: Kind) -> bool {
    ends_of(f.rows, kind) matches Some(e) && {
        &&& e.stream == key.stream
        &&& e.src == key.b && e.src_port == key.port_b
        &&& e.dst == key.a && e.dst_port == key.port_a
        &&& !from_a(key, f, kind)
    }
}

/// How many of the first `n` frames a direction of a conversation has.
pub open spec fn frames_one_way(
    frames: Seq<FrameView>,
    kind: Kind,
    key: KeyView,
    a_to_b: bool,
    n: int,
) -> int
    decreases n,
{
    if n <= 0 {
        0
    } else {
        let f = frames[n - 1];
        frames_one_way(frames, kind, key, a_to_b, n - 1) + if a_to_b && from_a(key, f, kind)
            || !a_to_b && from_b(key, f, kind) {
            1int
        } else {
            0
        }
    }
}

/// The lengths on the wire of those frames, summed up.
pub open spec fn bytes_one_way(
    frames: Seq<FrameView>,
    kind: Kind,
    key: KeyView,
    a_to_b: bool,
    n: int,
) -> int
    decreases n,
{
    if n <= 0 {
        0
    } else {
        let f = frames[n - 1];
        bytes_one_way(frames, kind, key, a_to_b, n - 1) + if a_to_b && from_a(key, f, kind)
            || !a_to_b && from_b(key, f, kind) {
            f.orig_len as int
        } else {
            0
        }
    }
}

/// Every address that the frames show has the width of its family.
pub open spec fn all_valid(frames: Seq<FrameView>, kind: Kind) -> bool {
    forall|i: int|
        #![trigger frames[i]]
        0 <= i < frames.len() ==> (ends_of(frames[i].rows, kind) matches Some(e) ==> addr_valid(
            e.src,
        ) && addr_valid(e.dst))
}

/// A key that stands first in the order of its endpoints, as every row's does.
pub open spec fn lower_first(key: KeyView) -> bool {
    &&& addr_valid(key.a) && addr_valid(key.b)
    &&& ordered_key(key.a, key.port_a, key.b, key.port_b, key.stream) == (key, true)
}

proof fn lemma_belongs(key: KeyView, f: FrameView, kind: Kind)
    requires
        lower_first(key),
        ends_of(f.rows, kind) matches Some(e) ==> addr_valid(e.src) && addr_valid(e.dst),
    ensures
        ends_of(f.rows, kind) matches Some(e) ==> ({
            let (k, forward) = ordered_key(e.src, e.src_port, e.dst, e.dst_port, e.stream);
            &&& (k == key && forward) == from_a(key, f, kind)
            &&& (k == key && !forward) == from_b(key, f, kind)
        }),
        ends_of(f.rows, kind) is None ==> !belongs(key, f, kind),
{
    if let Some(e) = ends_of(f.rows, kind) {
        directions_share_a_row(key.a, key.port_a, key.b, key.port_b, key.stream);
        let (k, forward) = ordered_key(e.src, e.src_port, e.dst, e.dst_port, e.stream);
        if from_a(key, f, kind) {
            assert((k, forward) == (key, true));
        }
        if from_b(key, f, kind) {
            assert((key.a, key.port_a) != (key.b, key.port_b));
            assert(k == key && !forward);
        }
    }
}

proof fn lemma_lower(e: Ends)
    requires
        addr_valid(e.src),
        addr_valid(e.dst),
    ensures
        lower_first(ordered_key(e.src, e.src_port, e.dst, e.dst_port, e.stream).0),
{
    order_is_total(endpoint(e.src, e.src_port), endpoint(e.dst, e.dst_port));
}

proof fn lemma_found(rows: Seq<RowView>, key: KeyView, i: int)
    requires
        0 <= i,
    ensures
        row_with(rows, key, i) matches Some(k) ==> i <= k < rows.len() && rows[k].key == key,
        row_with(rows, key, i) is None ==> forall|k: int|
            i <= k < rows.len() ==> (#[trigger] rows[k]).key != key,
    decreases rows.len() - i,
{
    if i < rows.len() && rows[i].key != key {
        lemma_found(rows, key, i + 1);
    }
}

proof fn lemma_none_positive(frames: Seq<FrameView>, kind: Kind, key: KeyView, n: int)
    ensures
        0 <= frames_one_way(frames, kind, key, true, n) <= if n < 0 {
            0
        } else {
            n
        },
        0 <= frames_one_way(frames, kind, key, false, n) <= if n < 0 {
            0
        } else {
            n
        },
        0 <= bytes_one_way(frames, kind, key, true, n) <= 0xffff_ffff * if n < 0 {
            0
        } else {
            n
        },
        0 <= bytes_one_way(frames, kind, key, false, n) <= 0xffff_ffff * if n < 0 {
            0
        } else {
            n
        },
    decreases n,
{
    if n > 0 {
        lemma_none_positive(frames, kind, key, n - 1);
    }
}

/// A row of the table says what it stands for, if it is the row of its own
/// key.
pub open spec fn adds_up(r: RowView, frames: Seq<FrameView>, kind: Kind, n: int) -> bool {
    &&& r.packets.0 == frames_one_way(frames, kind, r.key, true, n)
    &&& r.packets.1 == frames_one_way(frames, kind, r.key, false, n)
    &&& r.bytes.0 == bytes_one_way(frames, kind, r.key, true, n)
    &&& r.bytes.1 == bytes_one_way(frames, kind, r.key, false, n)
}

/// The frame belongs to the conversation `key`, whichever way it runs.
pub open spec fn belongs(key: KeyView, f: FrameView, kind: Kind) -> bool {
    from_a(key, f, kind) || from_b(key, f, kind)
}

/// The conversation began with frame `i` of the first `n` and was last seen
/// with frame `j`.
pub open spec fn spans(
    r: RowView,
    frames: Seq<FrameView>,
    kind: Kind,
    n: int,
    i: int,
    j: int,
) -> bool {
    &&& 0 <= i <= j < n
    &&& belongs(r.key, frames[i], kind) && belongs(r.key, frames[j], kind)
    &&& forall|k: int| 0 <= k < i ==> !belongs(r.key, #[trigger] frames[k], kind)
    &&& forall|k: int| j < k < n ==> !belongs(r.key, #[trigger] frames[k], kind)
    &&& r.first == frames[i].ts && r.last == frames[j].ts
}

/// What the table says of one conversation: a row that adds up, or none where
/// no frame belongs to it.
pub open spec fn told(
    rows: Seq<RowView>,
    frames: Seq<FrameView>,
    kind: Kind,
    key: KeyView,
    n: int,
) -> bool {
    match row_with(rows, key, 0) {
        Some(k) => {
            &&& adds_up(rows[k], frames, kind, n)
            &&& exists|x: int, y: int| #[trigger] spans(rows[k], frames, kind, n, x, y)
        },
        None => forall|k: int| 0 <= k < n ==> !#[trigger] belongs(key, frames[k], kind),
    }
}

proof fn lemma_told(frames: Seq<FrameView>, kind: Kind, key: KeyView, n: int)
    requires
        all_valid(frames, kind),
        0 <= n <= frames.len(),
        frames.len() <= 0xffff_ffff,
        lower_first(key),
    ensures
        told(tally(frames, kind, n), frames, kind, key, n),
    decreases n,
{
    if n > 0 {
        lemma_told(frames, kind, key, n - 1);
        let before = tally(frames, kind, n - 1);
        let after = tally(frames, kind, n);
        let f = frames[n - 1];
        assert(after == with_frame(before, kind, f));
        rows_are_distinct(frames, kind, n - 1);
        lemma_belongs(key, f, kind);
        lemma_found(before, key, 0);
        lemma_found(after, key, 0);
        lemma_none_positive(frames, kind, key, n - 1);
        assert(0xffff_ffff * (n - 1) + 0xffff_ffff <= u64::MAX) by (nonlinear_arith)
            requires
                n <= 0xffff_ffff,
        ;
        if belongs(key, f, kind) {
            lemma_counted(frames, kind, key, n);
        } else {
            lemma_passed_by(frames, kind, key, n);
        }
    }
}

proof fn lemma_counted(frames: Seq<FrameView>, kind: Kind, key: KeyView, n: int)
    requires
        0 < n <= frames.len(),
        frames.len() <= 0xffff_ffff,
        told(tally(frames, kind, n - 1), frames, kind, key, n - 1),
        ends_of(frames[n - 1].rows, kind) matches Some(e) && {
            let (k, forward) = ordered_key(e.src, e.src_port, e.dst, e.dst_port, e.stream);
            &&& k == key
            &&& forward == from_a(key, frames[n - 1], kind)
            &&& !forward == from_b(key, frames[n - 1], kind)
        },
    ensures
        told(tally(frames, kind, n), frames, kind, key, n),
{
    let before = tally(frames, kind, n - 1);
    let after = tally(frames, kind, n);
    let f = frames[n - 1];
    let e = ends_of(f.rows, kind)->0;
    rows_are_distinct(frames, kind, n);
    lemma_found(before, key, 0);
    lemma_found(after, key, 0);
    lemma_none_positive(frames, kind, key, n - 1);
    assert(0xffff_ffff * (n - 1) + 0xffff_ffff <= u64::MAX) by (nonlinear_arith)
        requires
            n <= 0xffff_ffff,
    ;
    match row_with(before, key, 0) {
        Some(k) => {
            assert(after[k].key == key);
            assert(row_with(after, key, 0) == Some(k));
            let (x, y) = choose|x: int, y: int| #[trigger]
                spans(before[k], frames, kind, n - 1, x, y);
            assert(spans(after[k], frames, kind, n, x, n - 1));
        },
        None => {
            lemma_absent(frames, kind, key, n - 1);
            let k = before.len() as int;
            assert(after[k].key == key);
            assert(row_with(after, key, 0) == Some(k));
            assert(spans(after[k], frames, kind, n, n - 1, n - 1));
        },
    }
}

proof fn lemma_passed_by(frames: Seq<FrameView>, kind: Kind, key: KeyView, n: int)
    requires
        0 < n <= frames.len(),
        told(tally(frames, kind, n - 1), frames, kind, key, n - 1),
        !belongs(key, frames[n - 1], kind),
        ends_of(frames[n - 1].rows, kind) matches Some(e) ==> ordered_key(
            e.src,
            e.src_port,
            e.dst,
            e.dst_port,
            e.stream,
        ).0 != key,
    ensures
        told(tally(frames, kind, n), frames, kind, key, n),
{
    let before = tally(frames, kind, n - 1);
    let after = tally(frames, kind, n);
    let f = frames[n - 1];
    rows_are_distinct(frames, kind, n);
    lemma_found(before, key, 0);
    lemma_found(after, key, 0);
    if let Some(e) = ends_of(f.rows, kind) {
        lemma_found(
            before,
            ordered_key(e.src, e.src_port, e.dst, e.dst_port, e.stream).0,
            0,
        );
    }
    match row_with(before, key, 0) {
        Some(k) => {
            assert(after[k] == before[k]);
            assert(row_with(after, key, 0) == Some(k));
            let (x, y) = choose|x: int, y: int| #[trigger]
                spans(before[k], frames, kind, n - 1, x, y);
            assert(spans(after[k], frames, kind, n, x, y));
        },
        None => {
            if let Some(k) = row_with(after, key, 0) {
                assert(k < before.len() ==> before[k].key == key);
            }
        },
    }
}

proof fn lemma_keys(frames: Seq<FrameView>, kind: Kind, n: int)
    requires
        all_valid(frames, kind),
        0 <= n <= frames.len(),
    ensures
        forall|i: int|
            0 <= i < tally(frames, kind, n).len() ==> lower_first(
                (#[trigger] tally(frames, kind, n)[i]).key,
            ),
    decreases n,
{
    if n > 0 {
        lemma_keys(frames, kind, n - 1);
        let before = tally(frames, kind, n - 1);
        let f = frames[n - 1];
        if let Some(e) = ends_of(f.rows, kind) {
            lemma_lower(e);
            lemma_found(
                before,
                ordered_key(e.src, e.src_port, e.dst, e.dst_port, e.stream).0,
                0,
            );
        }
    }
}

proof fn lemma_row(frames: Seq<FrameView>, kind: Kind, i: int)
    requires
        all_valid(frames, kind),
        frames.len() <= 0xffff_ffff,
        0 <= i < tally(frames, kind, frames.len() as int).len(),
    ensures
        adds_up(tally(frames, kind, frames.len() as int)[i], frames, kind, frames.len() as int),
        exists|x: int, y: int| #[trigger]
            spans(
                tally(frames, kind, frames.len() as int)[i],
                frames,
                kind,
                frames.len() as int,
                x,
                y,
            ),
{
    let n = frames.len() as int;
    let rows = tally(frames, kind, n);
    lemma_keys(frames, kind, n);
    lemma_told(frames, kind, rows[i].key, n);
    rows_are_distinct(frames, kind, n);
    lemma_found(rows, rows[i].key, 0);
    assert(row_with(rows, rows[i].key, 0) == Some(i));
}

proof fn lemma_absent(frames: Seq<FrameView>, kind: Kind, key: KeyView, n: int)
    requires
        forall|k: int| 0 <= k < n ==> !#[trigger] belongs(key, frames[k], kind),
    ensures
        frames_one_way(frames, kind, key, true, n) == 0,
        frames_one_way(frames, kind, key, false, n) == 0,
        bytes_one_way(frames, kind, key, true, n) == 0,
        bytes_one_way(frames, kind, key, false, n) == 0,
    decreases n,
{
    if n > 0 {
        assert(!belongs(key, frames[n - 1], kind));
        lemma_absent(frames, kind, key, n - 1);
    }
}

/// Each row of the table counts, in its first column, the frames of its
/// conversation whose source is endpoint a and the bytes that those had on the
/// wire, and in its second column those whose source is endpoint b.
pub proof fn each_column_counts_its_own_direction(frames: Seq<FrameView>, kind: Kind, i: int)
    requires
        all_valid(frames, kind),
        frames.len() <= 0xffff_ffff,
        0 <= i < tally(frames, kind, frames.len() as int).len(),
    ensures
        ({
            let n = frames.len() as int;
            let r = tally(frames, kind, n)[i];
            &&& r.packets.0 == frames_one_way(frames, kind, r.key, true, n)
            &&& r.packets.1 == frames_one_way(frames, kind, r.key, false, n)
            &&& r.bytes.0 == bytes_one_way(frames, kind, r.key, true, n)
            &&& r.bytes.1 == bytes_one_way(frames, kind, r.key, false, n)
        }),
{
    lemma_row(frames, kind, i);
}

/// A row begins when the first frame of its conversation came, and ends when
/// the last one did.
pub proof fn a_row_spans_its_conversation(frames: Seq<FrameView>, kind: Kind, i: int)
    requires
        all_valid(frames, kind),
        frames.len() <= 0xffff_ffff,
        0 <= i < tally(frames, kind, frames.len() as int).len(),
    ensures
        exists|x: int, y: int| #[trigger]
            spans(
                tally(frames, kind, frames.len() as int)[i],
                frames,
                kind,
                frames.len() as int,
                x,
                y,
            ),
{
    lemma_row(frames, kind, i);
}

/// Every frame that has endpoints belongs to a row.
pub proof fn every_frame_has_a_row(frames: Seq<FrameView>, kind: Kind, k: int)
    requires
        all_valid(frames, kind),
        frames.len() <= 0xffff_ffff,
        0 <= k < frames.len(),
        ends_of(frames[k].rows, kind) is Some,
    ensures
        exists|i: int|
            0 <= i < tally(frames, kind, frames.len() as int).len() && belongs(
                (#[trigger] tally(frames, kind, frames.len() as int)[i]).key,
                frames[k],
                kind,
            ),
{
    let rows = tally(frames, kind, frames.len() as int);
    let f = frames[k];
    let e = ends_of(f.rows, kind)->0;
    let key = ordered_key(e.src, e.src_port, e.dst, e.dst_port, e.stream).0;
    lemma_lower(e);
    lemma_belongs(key, f, kind);
    assert(belongs(key, f, kind));
    lemma_told(frames, kind, key, frames.len() as int);
    lemma_found(rows, key, 0);
    let i = row_with(rows, key, 0)->0;
    assert(rows[i].key == key);
}

/// The table lists the rows that were counted, none twice and none left out,
/// and no row has more bytes in all than one above it.
pub proof fn the_busiest_rows_come_first(all: Seq<RowView>, i: int, j: int)
    requires
        0 <= i < j < all.len(),
        all.len() <= usize::MAX,
        forall|k: int|
            0 <= k < all.len() ==> (#[trigger] all[k]).bytes.0 + all[k].bytes.1 <= u64::MAX,
    ensures
        busiest_first(all).len() == all.len(),
        busiest_first(all)[i].bytes.0 + busiest_first(all)[i].bytes.1 >= busiest_first(
            all,
        )[j].bytes.0 + busiest_first(all)[j].bytes.1,
        all.contains(busiest_first(all)[i]),
        busiest_first(all).contains(all[i]),
        busiest_first(all).contains(all[j]),
{
    let keys = quiet(all);
    order_exists(keys);
    let v = stable_order(keys);
    assert(is_order(keys, v));
    order_lists_everything(keys, v);
    let rows = busiest_first(all);
    let (x, y) = (v[i] as int, v[j] as int);
    assert(keys[x] <= keys[y]);
    assert(rows[i] == all[x] && rows[j] == all[y]);
    assert(all[x].bytes.0 + all[x].bytes.1 <= u64::MAX);
    assert(all[y].bytes.0 + all[y].bytes.1 <= u64::MAX);
    let p = choose|p: int| 0 <= p < v.len() && v[p] == i as usize;
    assert(v.contains(i as usize) && v.contains(j as usize));
    assert(rows[p] == all[i]);
    let q = choose|q: int| 0 <= q < v.len() && v[q] == j as usize;
    assert(rows[q] == all[j]);
}

/// What holds of the rows that were counted holds of the table: each column of
/// every listed row counts its own direction.
pub proof fn the_table_counts_each_direction(frames: Seq<FrameView>, kind: Kind, i: int)
    requires
        all_valid(frames, kind),
        frames.len() <= 0xffff_ffff,
        tally(frames, kind, frames.len() as int).len() <= usize::MAX,
        0 <= i < busiest_first(tally(frames, kind, frames.len() as int)).len(),
    ensures
        ({
            let n = frames.len() as int;
            let r = busiest_first(tally(frames, kind, n))[i];
            &&& r.packets.0 == frames_one_way(frames, kind, r.key, true, n)
            &&& r.packets.1 == frames_one_way(frames, kind, r.key, false, n)
            &&& r.bytes.0 == bytes_one_way(frames, kind, r.key, true, n)
            &&& r.bytes.1 == bytes_one_way(frames, kind, r.key, false, n)
        }),
{
    let all = tally(frames, kind, frames.len() as int);
    let keys = quiet(all);
    order_exists(keys);
    let v = stable_order(keys);
    order_lists_everything(keys, v);
    assert(busiest_first(all)[i] == all[v[i] as int]);
    lemma_row(frames, kind, v[i] as int);
}

} // verus!

//! The fields of ICMP messages.

use vstd::prelude::*;

use super::{byte_at, bytes_at, four, nothing_written, over, two, writing, written};
use crate::dissect::ctx::Model;
use crate::dissect::node::ValueView;
use crate::dissect::proto::icmp::{detail_of, error_fields, layer_at, status_of};

verus! {

/// A message begins with its type, its code and its checksum.
pub open spec fn control_header(d: Seq<u8>, m: Model, after: Model) -> bool {
    let s = written(after, m.count());
    &&& s.len() >= 5
    &&& s[0] == over(m, "icmp"@, 0, d.len() - 0, ValueView::Empty)
    &&& s[1] == over(m, "icmp.type"@, 0, 1, byte_at(d, 0))
    &&& s[2] == over(m, "icmp.code"@, 1, 2, byte_at(d, 1))
    &&& s[3] == over(m, "icmp.checksum"@, 2, 4, ValueView::Unsigned(two(d, 2)))
    &&& s[4] == over(
        m,
        "icmp.checksum.status"@,
        2,
        4,
        ValueView::Unsigned(status_of(d, m)),
    )
}

/// Echoes and timestamps, asked for and answered, show an identifier and a
/// sequence number; what is left is data.
pub proof fn queries_show_who_asked(d: Seq<u8>, m: Model, level: u8)
    requires
        d.len() >= 8,
        d[0] == 0 || d[0] == 8 || d[0] == 13 || d[0] == 14,
    ensures
        ({
            let (after, e) = layer_at(d, m, level);
            let s = written(after, m.count());
            let k = s.len() - if d.len() > 8 {
                3int
            } else {
                2
            };
            &&& e is None
            &&& control_header(d, m, after)
            &&& s[k] == over(m, "icmp.ident"@, 4, 6, ValueView::Unsigned(two(d, 4)))
            &&& s[k + 1] == over(m, "icmp.seq"@, 6, 8, ValueView::Unsigned(two(d, 6)))
            &&& d.len() > 8 ==> s[k + 2] == over(m, "icmp.data"@, 8, d.len() - 0, ValueView::Bytes)
            &&& after.next == m.next
        }),
{
    broadcast use writing;

    nothing_written(m);
    let after = layer_at(d, m, level).0;
    assert(written(after, m.count()).len() == after.count() - m.count());
}

/// Between the header of an error and the packet it quotes stand four bytes:
/// the size that would have fitted, the gateway to use, where the trouble is,
/// or nothing.
pub proof fn errors_show_their_own_four_bytes(d: Seq<u8>, m: Model)
    requires
        d.len() >= 8,
    ensures
        ({
            let s = written(error_fields(d, m), m.count());
            &&& d[0] == 3 && d[1] == 4 ==> s == seq![
                over(m, "icmp.unused"@, 4, 6, ValueView::Unsigned(0)),
                over(m, "icmp.mtu"@, 6, 8, ValueView::Unsigned(two(d, 6))),
            ]
            &&& d[0] == 5 ==> s == seq![
                over(m, "icmp.gateway"@, 4, 8, ValueView::Ipv4(bytes_at(d, 4, 4))),
            ]
            &&& d[0] == 12 ==> s == seq![
                over(m, "icmp.pointer"@, 4, 5, byte_at(d, 4)),
                over(m, "icmp.unused"@, 5, 8, ValueView::Unsigned(0)),
            ]
            &&& d[0] == 4 || d[0] == 11 || (d[0] == 3 && d[1] != 4) ==> s == seq![
                over(m, "icmp.unused"@, 4, 8, ValueView::Unsigned(four(d, 4))),
            ]
        }),
{
    broadcast use writing;

    nothing_written(m);
    let s = written(error_fields(d, m), m.count());
    assert(d[0] == 3 && d[1] == 4 ==> s =~= seq![
        over(m, "icmp.unused"@, 4, 6, ValueView::Unsigned(0)),
        over(m, "icmp.mtu"@, 6, 8, ValueView::Unsigned(two(d, 6))),
    ]);
    assert(d[0] == 5 ==> s =~= seq![
        over(m, "icmp.gateway"@, 4, 8, ValueView::Ipv4(bytes_at(d, 4, 4))),
    ]);
    assert(d[0] == 12 ==> s =~= seq![
        over(m, "icmp.pointer"@, 4, 5, byte_at(d, 4)),
        over(m, "icmp.unused"@, 5, 8, ValueView::Unsigned(0)),
    ]);
    assert(d[0] == 4 || d[0] == 11 || (d[0] == 3 && d[1] != 4) ==> s =~= seq![
        over(m, "icmp.unused"@, 4, 8, ValueView::Unsigned(four(d, 4))),
    ]);
}

/// The columns of an error speak of the message, never of the packet it
/// quotes.
pub proof fn errors_keep_their_own_columns(d: Seq<u8>, m: Model, level: u8)
    requires
        d.len() >= 8,
        d[0] == 3 || d[0] == 4 || d[0] == 5 || d[0] == 11 || d[0] == 12,
    ensures
        ({
            let (after, e) = layer_at(d, m, level);
            &&& e is None
            &&& after.summary.source == m.summary.source
            &&& after.summary.destination == m.summary.destination
            &&& after.summary.protocol == "icmp"@
            &&& after.addrs == m.addrs
        }),
{
    broadcast use writing;

    reveal(Model::with_summary);
    reveal(Model::with_addrs);
    reveal(Model::truncate_protocols);
    reveal(Model::end);
}

/// A message of another type shows what is behind its header as data.
#[verifier::rlimit(60)]
pub proof fn other_messages_show_data(d: Seq<u8>, m: Model, level: u8)
    requires
        d.len() >= 4,
        d[0] != 0 && d[0] != 8 && d[0] != 13 && d[0] != 14,
        d[0] != 3 && d[0] != 4 && d[0] != 5 && d[0] != 11 && d[0] != 12,
    ensures
        ({
            let (after, e) = layer_at(d, m, level);
            let s = written(after, m.count());
            &&& e is None
            &&& control_header(d, m, after)
            &&& d.len() > 4 ==> s.last() == over(
                m,
                "icmp.data"@,
                4,
                d.len() - 0,
                ValueView::Bytes,
            )
            &&& after.next == m.next
        }),
{
    broadcast use writing;

    nothing_written(m);
    let after = layer_at(d, m, level).0;
    assert(written(after, m.count()).len() == after.count() - m.count());
}

/// What an unreachable destination or an expired packet is called.
pub proof fn errors_are_named(kind: Seq<char>)
    ensures
        detail_of(3, 0, kind) == "Destination network unreachable"@,
        detail_of(3, 1, kind) == "Destination host unreachable"@,
        detail_of(3, 2, kind) == "Destination protocol unreachable"@,
        detail_of(3, 3, kind) == "Destination port unreachable"@,
        detail_of(3, 4, kind) == "Fragmentation needed"@,
        detail_of(3, 13, kind) == "Communication administratively filtered"@,
        detail_of(11, 0, kind) == "Time to live exceeded in transit"@,
        detail_of(11, 1, kind) == "Fragment reassembly time exceeded"@,
        forall|ty: u8, code: u8|
            !(ty == 3 && (code <= 4 || code == 13)) && !(ty == 11 && code <= 1)
                ==> #[trigger] detail_of(ty, code, kind) == kind,
{
}

} // verus!

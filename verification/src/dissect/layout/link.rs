//! The fields of link layers and of ARP.

use vstd::prelude::*;

use super::{
    bit_of, bytes_at, four, not_malformed, nothing_written, over, passes, two, writing, written,
};
use crate::bytes::{be16, be24};
use crate::dissect::ctx::{Model, Proto};
use crate::dissect::node::{ipv4_text, mac_text, ValueView};
use crate::dissect::proto::{addressable, arp, eth, llc, null, vlan};
use crate::dissect::AddrView;

verus! {

/// The protocol that an EtherType stands for, where there is a dissector for
/// it: IPv4, ARP, a VLAN tag of either kind, or IPv6.
pub open spec fn stands_for_type(ethertype: u64, proto: Proto) -> bool {
    &&& ethertype == 0x0800 <==> proto == Proto::Ipv4
    &&& ethertype == 0x0806 <==> proto == Proto::Arp
    &&& ethertype == 0x8100 || ethertype == 0x88a8 <==> proto == Proto::Vlan
    &&& ethertype == 0x86dd <==> proto == Proto::Ipv6
    &&& proto == Proto::Ipv4 || proto == Proto::Arp || proto == Proto::Vlan || proto == Proto::Ipv6
        || proto == Proto::Data
}

/// An Ethernet frame shows the destination before the source, and then a type
/// or, up to 1500, a length. The type decides what comes next; behind a length
/// there is LLC, and no more of it than the length says. The columns show the
/// addresses the other way round: source, then destination.
pub proof fn ethernet_shows_its_header(d: Seq<u8>, m: Model)
    requires
        addressable(d, m),
        0 <= m.base,
    ensures
        eth::layer(d, m).1 is None <==> d.len() >= 14,
        d.len() >= 14 ==> ({
            let after = eth::layer(d, m).0;
            let t = two(d, 12);
            &&& written(after, m.count()) == seq![
                over(m, "eth"@, 0, 14, ValueView::Empty),
                over(m, "eth.dst"@, 0, 6, ValueView::Mac(bytes_at(d, 0, 6))),
                over(m, "eth.src"@, 6, 12, ValueView::Mac(bytes_at(d, 6, 6))),
                over(
                    m,
                    if t <= 1500 {
                        "eth.len"@
                    } else {
                        "eth.type"@
                    },
                    12,
                    14,
                    ValueView::Unsigned(t),
                ),
            ]
            &&& after.summary.source == AddrView::Mac(bytes_at(d, 6, 6))
            &&& after.summary.destination == AddrView::Mac(bytes_at(d, 0, 6))
            &&& t <= 1500 ==> passes(m, after, Proto::Llc, 14, Some(t as int))
            &&& t > 1500 ==> exists|p: Proto| #[trigger]
                stands_for_type(t, p) && passes(m, after, p, 14, None)
        }),
{
    broadcast use writing;

    if d.len() >= 14 {
        nothing_written(m);
        let after = eth::layer(d, m).0;
        let t = two(d, 12);
        assert(t == be16(d, 12));
        assert(d.subrange(0, 6) == bytes_at(d, 0, 6));
        let list = seq![
            over(m, "eth"@, 0, 14, ValueView::Empty),
            over(m, "eth.dst"@, 0, 6, ValueView::Mac(bytes_at(d, 0, 6))),
            over(m, "eth.src"@, 6, 12, ValueView::Mac(bytes_at(d, 6, 6))),
            over(
                m,
                if t <= 1500 {
                    "eth.len"@
                } else {
                    "eth.type"@
                },
                12,
                14,
                ValueView::Unsigned(t),
            ),
        ];
        assert(written(after, m.count()) =~= list);
        if t > 1500 {
            let p = after.next->0.proto;
            assert(stands_for_type(t, p) && passes(m, after, p, 14, None));
        }
    }
}

/// A VLAN tag is three bits of priority, a drop bit and twelve bits of id,
/// and then the type of what it tags.
pub proof fn vlan_tags_show_their_bits(d: Seq<u8>, m: Model)
    requires
        addressable(d, m),
        0 <= m.base,
    ensures
        vlan::layer(d, m).1 is None <==> d.len() >= 4,
        d.len() >= 4 ==> ({
            let after = vlan::layer(d, m).0;
            let tag = two(d, 0);
            &&& written(after, m.count()) == seq![
                over(m, "vlan"@, 0, 4, ValueView::Empty),
                over(m, "vlan.priority"@, 0, 2, ValueView::Unsigned(tag / 0x2000)),
                over(m, "vlan.dei"@, 0, 2, ValueView::Bool(bit_of(d, 0, 0x1000))),
                over(m, "vlan.id"@, 0, 2, ValueView::Unsigned(tag % 0x1000)),
                over(m, "vlan.etype"@, 2, 4, ValueView::Unsigned(two(d, 2))),
            ]
            &&& exists|p: Proto| #[trigger]
                stands_for_type(two(d, 2), p) && passes(m, after, p, 4, None)
        }),
{
    broadcast use writing;

    if d.len() >= 4 {
        nothing_written(m);
        not_malformed();
        let tci = be16(d, 0);
        assert(tci >> 13 == tci / 0x2000 && ((tci >> 12) & 1 == 1) == (tci / 0x1000 % 2 == 1)
            && tci & 0x0fff == tci % 0x1000) by (bit_vector);
        let after = vlan::layer(d, m).0;
        let tag = two(d, 0);
        assert(written(after, m.count()) =~= seq![
            over(m, "vlan"@, 0, 4, ValueView::Empty),
            over(m, "vlan.priority"@, 0, 2, ValueView::Unsigned(tag / 0x2000)),
            over(m, "vlan.dei"@, 0, 2, ValueView::Bool(bit_of(d, 0, 0x1000))),
            over(m, "vlan.id"@, 0, 2, ValueView::Unsigned(tag % 0x1000)),
            over(m, "vlan.etype"@, 2, 4, ValueView::Unsigned(two(d, 2))),
        ]);
        let p = after.next->0.proto;
        assert(stands_for_type(two(d, 2), p) && passes(m, after, p, 4, None));
    }
}

/// An LLC header shows both service access points and the control field,
/// which is one byte in a frame without numbers, and two otherwise. A SNAP
/// header behind it shows the organisation and, for the organisation zero, an
/// EtherType that decides what comes next.
pub proof fn llc_shows_its_header(d: Seq<u8>, m: Model)
    requires
        addressable(d, m),
        0 <= m.base,
    ensures
        ({
            let h: int = if d.len() > 2 && d[2] % 4 == 3 {
                3
            } else {
                4
            };
            let snap = d.len() > 2 && d[0] == 0xaa && d[1] == 0xaa && d[2] == 3;
            let after = llc::layer(d, m).0;
            let s = written(after, m.count());
            &&& llc::layer(d, m).1 is None <==> d.len() >= if snap {
                8int
            } else {
                h
            }
            &&& d.len() >= h && (snap ==> d.len() >= 8) ==> {
                &&& s.len() == if snap {
                    6int
                } else {
                    4
                }
                &&& s[0] == over(
                    m,
                    "llc"@,
                    0,
                    if snap {
                        8
                    } else {
                        h
                    },
                    ValueView::Empty,
                )
                &&& s[1] == over(m, "llc.dsap"@, 0, 1, ValueView::Unsigned(d[0] as u64))
                &&& s[2] == over(m, "llc.ssap"@, 1, 2, ValueView::Unsigned(d[1] as u64))
                &&& s[3] == over(m, "llc.control"@, 2, h, ValueView::Unsigned(d[2] as u64))
                &&& !snap ==> passes(m, after, Proto::Data, h, None)
                &&& snap ==> {
                    let oui = d[3] * 0x1_0000 + d[4] * 0x100 + d[5];
                    &&& s[4] == over(m, "llc.oui"@, 3, 6, ValueView::Unsigned(oui as u64))
                    &&& s[5] == over(
                        m,
                        if oui == 0 {
                            "llc.type"@
                        } else {
                            "llc.pid"@
                        },
                        6,
                        8,
                        ValueView::Unsigned(two(d, 6)),
                    )
                    &&& oui != 0 ==> passes(m, after, Proto::Data, 8, None)
                    &&& oui == 0 ==> exists|p: Proto| #[trigger]
                        stands_for_type(two(d, 6), p) && passes(m, after, p, 8, None)
                }
            }
        }),
{
    broadcast use writing;

    nothing_written(m);
    let after = llc::layer(d, m).0;
    if d.len() > 2 {
        let c = d[2];
        assert((c & 0x03 != 0x03) == (c % 4 != 3)) by (bit_vector);
        let snap = d[0] == 0xaa && d[1] == 0xaa && c == 3;
        let n = d.len();
        if snap && n >= 8 {
            let oui = d[3] * 0x1_0000 + d[4] * 0x100 + d[5];
            assert(be24(d, 3) == oui);
            assert(after.count() == m.count() + 6);
            assert(after.next is Some);
            let p = after.next->0.proto;
            if oui == 0 {
                assert(stands_for_type(two(d, 6), p) && passes(m, after, p, 8, None));
            }
        } else if !snap && n >= if c % 4 == 3 {
            3nat
        } else {
            4nat
        } {
            assert(after.count() == m.count() + 4);
        }
    }
    assert(written(after, m.count()).len() == after.count() - m.count());
}

/// The loopback header is the address family, in the byte order of the host
/// that captured it: the small number of the two that can be read. Two is
/// IPv4; 24, 28 and 30 are the IPv6 of different systems.
pub proof fn loopback_shows_its_family(d: Seq<u8>, m: Model, family: u64)
    requires
        addressable(d, m),
        0 <= m.base,
        d.len() >= 4,
        0 < family <= 0xff,
        four(d, 0) == family || four(seq![d[3], d[2], d[1], d[0]], 0) == family,
    ensures
        ({
            let (after, e) = null::layer(d, m);
            &&& e is None
            &&& written(after, m.count()) == seq![
                over(m, "null"@, 0, 4, ValueView::Empty),
                over(m, "null.family"@, 0, 4, ValueView::Unsigned(family)),
            ]
            &&& passes(
                m,
                after,
                if family == 2 {
                    Proto::Ipv4
                } else if family == 24 || family == 28 || family == 30 {
                    Proto::Ipv6
                } else {
                    Proto::Data
                },
                4,
                None,
            )
        }),
{
    broadcast use writing;

    nothing_written(m);
    let after = null::layer(d, m).0;
    assert(null::family_of(d) == family);
    assert(written(after, m.count()) =~= seq![
        over(m, "null"@, 0, 4, ValueView::Empty),
        over(m, "null.family"@, 0, 4, ValueView::Unsigned(family)),
    ]);
}

/// An ARP packet between Ethernet and IPv4 shows the sender's addresses and
/// then the target's, the hardware address before the protocol address. A
/// request asks for the target and names the sender, a reply gives the
/// sender's hardware address.
pub proof fn arp_shows_senders_and_targets(d: Seq<u8>, m: Model)
    requires
        addressable(d, m),
        0 <= m.base,
        d.len() >= 28,
        two(d, 0) == 1,
        two(d, 2) == 0x0800,
        d[4] == 6,
        d[5] == 4,
    ensures
        ({
            let (after, e) = arp::layer(d, m);
            let (sender, target) = (bytes_at(d, 14, 4), bytes_at(d, 24, 4));
            &&& e is None
            &&& after.next == m.next
            &&& written(after, m.count()) == seq![
                over(m, "arp"@, 0, 28, ValueView::Empty),
                over(m, "arp.hw.type"@, 0, 2, ValueView::Unsigned(1)),
                over(m, "arp.proto.type"@, 2, 4, ValueView::Unsigned(0x0800)),
                over(m, "arp.hw.size"@, 4, 5, ValueView::Unsigned(6)),
                over(m, "arp.proto.size"@, 5, 6, ValueView::Unsigned(4)),
                over(m, "arp.opcode"@, 6, 8, ValueView::Unsigned(two(d, 6))),
                over(m, "arp.src.hw_mac"@, 8, 14, ValueView::Mac(bytes_at(d, 8, 6))),
                over(m, "arp.src.proto_ipv4"@, 14, 18, ValueView::Ipv4(sender)),
                over(m, "arp.dst.hw_mac"@, 18, 24, ValueView::Mac(bytes_at(d, 18, 6))),
                over(m, "arp.dst.proto_ipv4"@, 24, 28, ValueView::Ipv4(target)),
            ]
            &&& two(d, 6) == 1 && sender != target && sender != seq![0u8, 0, 0, 0]
                ==> after.summary.info == "Who has "@ + ipv4_text(target) + "? Tell "@ + ipv4_text(
                sender,
            )
            &&& two(d, 6) == 1 && sender == target ==> after.summary.info
                == "ARP Announcement for "@ + ipv4_text(target)
            &&& two(d, 6) == 1 && sender != target && sender == seq![0u8, 0, 0, 0]
                ==> after.summary.info == "Who has "@ + ipv4_text(target) + "? (ARP Probe)"@
            &&& two(d, 6) == 2 ==> after.summary.info == ipv4_text(sender) + " is at "@ + mac_text(
                bytes_at(d, 8, 6),
            )
        }),
{
    broadcast use writing;

    nothing_written(m);
    let after = arp::layer(d, m).0;
    let (sender, target) = (bytes_at(d, 14, 4), bytes_at(d, 24, 4));
    assert(written(after, m.count()) =~= seq![
        over(m, "arp"@, 0, 28, ValueView::Empty),
        over(m, "arp.hw.type"@, 0, 2, ValueView::Unsigned(1)),
        over(m, "arp.proto.type"@, 2, 4, ValueView::Unsigned(0x0800)),
        over(m, "arp.hw.size"@, 4, 5, ValueView::Unsigned(6)),
        over(m, "arp.proto.size"@, 5, 6, ValueView::Unsigned(4)),
        over(m, "arp.opcode"@, 6, 8, ValueView::Unsigned(two(d, 6))),
        over(m, "arp.src.hw_mac"@, 8, 14, ValueView::Mac(bytes_at(d, 8, 6))),
        over(m, "arp.src.proto_ipv4"@, 14, 18, ValueView::Ipv4(sender)),
        over(m, "arp.dst.hw_mac"@, 18, 24, ValueView::Mac(bytes_at(d, 18, 6))),
        over(m, "arp.dst.proto_ipv4"@, 24, 28, ValueView::Ipv4(target)),
    ]);
}

/// An ARP packet between other protocols shows its addresses as bytes, each as
/// long as the packet says addresses of its kind are.
pub proof fn other_arp_shows_bytes(d: Seq<u8>, m: Model)
    requires
        addressable(d, m),
        0 <= m.base,
        d.len() >= 8,
        !(two(d, 0) == 1 && two(d, 2) == 0x0800 && d[4] == 6 && d[5] == 4),
        d.len() >= 8 + 2 * (d[4] + d[5]),
    ensures
        ({
            let (after, e) = arp::layer(d, m);
            let (x, y) = (d[4] as int, d[5] as int);
            &&& e is None
            &&& written(after, m.count()) == seq![
                over(m, "arp"@, 0, 8 + 2 * (x + y), ValueView::Empty),
                over(m, "arp.hw.type"@, 0, 2, ValueView::Unsigned(two(d, 0))),
                over(m, "arp.proto.type"@, 2, 4, ValueView::Unsigned(two(d, 2))),
                over(m, "arp.hw.size"@, 4, 5, ValueView::Unsigned(x as u64)),
                over(m, "arp.proto.size"@, 5, 6, ValueView::Unsigned(y as u64)),
                over(m, "arp.opcode"@, 6, 8, ValueView::Unsigned(two(d, 6))),
                over(m, "arp.src.hw"@, 8, 8 + x, ValueView::Bytes),
                over(m, "arp.src.proto"@, 8 + x, 8 + x + y, ValueView::Bytes),
                over(m, "arp.dst.hw"@, 8 + x + y, 8 + 2 * x + y, ValueView::Bytes),
                over(m, "arp.dst.proto"@, 8 + 2 * x + y, 8 + 2 * (x + y), ValueView::Bytes),
            ]
        }),
{
    broadcast use writing;

    nothing_written(m);
    let after = arp::layer(d, m).0;
    let (x, y) = (d[4] as int, d[5] as int);
    assert(written(after, m.count()) =~= seq![
        over(m, "arp"@, 0, 8 + 2 * (x + y), ValueView::Empty),
        over(m, "arp.hw.type"@, 0, 2, ValueView::Unsigned(two(d, 0))),
        over(m, "arp.proto.type"@, 2, 4, ValueView::Unsigned(two(d, 2))),
        over(m, "arp.hw.size"@, 4, 5, ValueView::Unsigned(x as u64)),
        over(m, "arp.proto.size"@, 5, 6, ValueView::Unsigned(y as u64)),
        over(m, "arp.opcode"@, 6, 8, ValueView::Unsigned(two(d, 6))),
        over(m, "arp.src.hw"@, 8, 8 + x, ValueView::Bytes),
        over(m, "arp.src.proto"@, 8 + x, 8 + x + y, ValueView::Bytes),
        over(m, "arp.dst.hw"@, 8 + x + y, 8 + 2 * x + y, ValueView::Bytes),
        over(m, "arp.dst.proto"@, 8 + 2 * x + y, 8 + 2 * (x + y), ValueView::Bytes),
    ]);
}

} // verus!

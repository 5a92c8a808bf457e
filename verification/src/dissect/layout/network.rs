//! The fields of IPv4 and UDP.

use vstd::prelude::*;

use super::{bit_of, bytes_at, nothing_written, over, passes, two, writing, written, Field};
use crate::bytes::be16;
use crate::dissect::ctx::{AddrsView, Model, Proto};
use crate::dissect::node::ValueView;
use crate::dissect::proto::{addressable, ipv4, udp};
use crate::dissect::AddrView;

verus! {

// ---- IPv4 -----------------------------------------------------------------------

/// The fixed part of an IPv4 header is shown field by field, each over its own
/// bytes. The length left zero by a card that segments is remarked on, where
/// there is a payload. The columns show the addresses, source first.
#[verifier::rlimit(60)]
pub proof fn ipv4_shows_its_header(d: Seq<u8>, m: Model, ihl: int, status: u64)
    requires
        d.len() >= 20,
        0 <= ihl <= 60,
    ensures
        ({
            let after = ipv4::header_fields(d, m, ihl, status);
            let flags = two(d, 6);
            let s = written(after, m.count());
            let k: int = if two(d, 2) == 0 && d.len() > ihl {
                8
            } else {
                7
            };
            let e = s.len() - 2;
            &&& s[0] == over(m, "ip"@, 0, 0, ValueView::Empty)
            &&& s[1] == over(m, "ip.version"@, 0, 1, ValueView::Unsigned((d[0] / 16) as u64))
            &&& s[2] == over(m, "ip.hdr_len"@, 0, 1, ValueView::Unsigned(ihl as u64))
            &&& s[3] == over(m, "ip.dsfield"@, 1, 2, ValueView::Unsigned(d[1] as u64))
            &&& s[4] == over(m, "ip.dsfield.dscp"@, 1, 2, ValueView::Unsigned((d[1] / 4) as u64))
            &&& s[5] == over(m, "ip.dsfield.ecn"@, 1, 2, ValueView::Unsigned((d[1] % 4) as u64))
            &&& s[6] == over(m, "ip.len"@, 2, 4, ValueView::Unsigned(two(d, 2)))
            &&& k == 8 ==> s[7] == over(m, "ip.len_tso"@, 2, 4, ValueView::Bool(true))
            &&& s[k] == over(m, "ip.id"@, 4, 6, ValueView::Unsigned(two(d, 4)))
            &&& s[k + 1] == over(m, "ip.flags"@, 6, 8, ValueView::Unsigned(flags / 0x2000))
            &&& s[k + 2] == over(m, "ip.flags.rb"@, 6, 8, ValueView::Bool(bit_of(d, 6, 0x8000)))
            &&& s[k + 3] == over(m, "ip.flags.df"@, 6, 8, ValueView::Bool(bit_of(d, 6, 0x4000)))
            &&& s[k + 4] == over(m, "ip.flags.mf"@, 6, 8, ValueView::Bool(bit_of(d, 6, 0x2000)))
            &&& s[k + 5] == over(
                m,
                "ip.frag_offset"@,
                6,
                8,
                ValueView::Unsigned((flags % 0x2000 * 8) as u64),
            )
            &&& s[k + 6] == over(m, "ip.ttl"@, 8, 9, ValueView::Unsigned(d[8] as u64))
            &&& s[k + 7] == over(m, "ip.proto"@, 9, 10, ValueView::Unsigned(d[9] as u64))
            &&& s[k + 8] == over(m, "ip.checksum"@, 10, 12, ValueView::Unsigned(two(d, 10)))
            &&& s[k + 9] == over(m, "ip.checksum.status"@, 10, 12, ValueView::Unsigned(status))
            &&& status == 0 <==> e > k + 10
            &&& status == 0 ==> s[k + 10] == over(
                m,
                "_ws.checksum.bad"@,
                10,
                12,
                ValueView::Empty,
            )
            &&& s[e] == over(m, "ip.src"@, 12, 16, ValueView::Ipv4(bytes_at(d, 12, 4)))
            &&& s[e + 1] == over(m, "ip.dst"@, 16, 20, ValueView::Ipv4(bytes_at(d, 16, 4)))
            &&& after.summary.source == AddrView::Ipv4(bytes_at(d, 12, 4))
            &&& after.summary.destination == AddrView::Ipv4(bytes_at(d, 16, 4))
            &&& after.addrs == Some(AddrsView::V4(bytes_at(d, 12, 4), bytes_at(d, 16, 4)))
            &&& after.source == m.source
            &&& after.base == m.base
            &&& after.count() == m.count() + s.len()
        }),
{
    broadcast use writing;

    nothing_written(m);
    let flags = be16(d, 6);
    let ds = d[1];
    let first = d[0];
    assert(flags >> 13 == flags / 0x2000 && (flags & 0x8000 != 0) == (flags / 0x8000 % 2 == 1) && (
    flags & 0x4000 != 0) == (flags / 0x4000 % 2 == 1) && (flags & 0x2000 != 0) == (flags / 0x2000
        % 2 == 1) && flags & 0x1fff == flags % 0x2000) by (bit_vector);
    assert(first >> 4 == first / 16 && ds >> 2 == ds / 4 && ds & 3 == ds % 4) by (bit_vector);
    assert(two(d, 6) == flags);
    let after = ipv4::header_fields(d, m, ihl, status);
    let s = written(after, m.count());
    assert(s.len() == after.count() - m.count());
}

/// What is shown of one option behind the fixed part: its type, and for all
/// but the two of one byte its length and what it holds.
pub proof fn ipv4_options_are_shown(o: Seq<u8>, i: int, at: int, m: Model)
    requires
        0 <= i < o.len(),
    ensures
        ({
            let (after, j, step) = ipv4::option(o, i, at, m);
            let s = written(after, m.count());
            let p = at + i;
            let w = o[i + 1] as int;
            let whole = i + 1 < o.len() && w >= 2 && i + w <= o.len();
            &&& s[1] == (Field {
                abbrev: "ip.opt.type"@,
                source: m.source,
                start: p,
                end: p + 1,
                value: ValueView::Unsigned(o[i] as u64),
            })
            &&& o[i] == 0 ==> step is Last && j == i + 1
            &&& o[i] == 1 ==> step is Next && j == i + 1
            &&& o[i] > 1 && !whole ==> step is Failed
            &&& o[i] > 1 && whole ==> {
                &&& step is Next
                &&& j == i + w
                &&& s[0] == (Field {
                    abbrev: "ip.opt"@,
                    source: m.source,
                    start: p,
                    end: p + w,
                    value: ValueView::Empty,
                })
                &&& s[2] == (Field {
                    abbrev: "ip.opt.len"@,
                    source: m.source,
                    start: p + 1,
                    end: p + 2,
                    value: ValueView::Unsigned(w as u64),
                })
                &&& o[i] == 148 && w == 4 ==> s.len() == 4 && s[3] == (Field {
                    abbrev: "ip.opt.ra"@,
                    source: m.source,
                    start: p + 2,
                    end: p + 4,
                    value: ValueView::Unsigned(two(o, i + 2)),
                })
                &&& (o[i] == 7 || o[i] == 131 || o[i] == 137) && w > 2 ==> {
                    &&& s.len() == 4 + (w - 3) / 4
                    &&& s[3] == (Field {
                        abbrev: "ip.opt.ptr"@,
                        source: m.source,
                        start: p + 2,
                        end: p + 3,
                        value: ValueView::Unsigned(o[i + 2] as u64),
                    })
                    &&& forall|k: int|
                        0 <= k < (w - 3) / 4 ==> #[trigger] s[4 + k] == (Field {
                            abbrev: "ip.opt.route"@,
                            source: m.source,
                            start: p + 3 + 4 * k,
                            end: p + 7 + 4 * k,
                            value: ValueView::Ipv4(bytes_at(o, i + 3 + 4 * k, 4)),
                        })
                }
            }
        }),
{
    broadcast use writing;

    nothing_written(m);
    let (after, j, step) = ipv4::option(o, i, at, m);
    let n = m.count();
    let w = o[i + 1] as int;
    if o[i] > 1 && i + 1 < o.len() && w >= 2 && i + w <= o.len() {
        let p = at + i;
        let b = o.subrange(i + 2, i + w);
        let open = m.begin("ip.opt"@, p, p).leaf(
            "ip.opt.type"@,
            p,
            p + 1,
            ValueView::Unsigned(o[i] as u64),
        ).leaf("ip.opt.len"@, p + 1, p + 2, ValueView::Unsigned(w as u64));
        let filled = ipv4::option_body(o[i], o[i + 1], b, p + 2, open).0;
        if (o[i] == 7 || o[i] == 131 || o[i] == 137) && w > 2 {
            let led = open.leaf("ip.opt.ptr"@, p + 2, p + 3, ValueView::Unsigned(b[0] as u64));
            routes_written(b, 1, p + 2, led, n);
            assert(written(led, n).len() == 4);
            assert(after.count() == filled.count());
            let s = written(after, n);
            assert forall|k: int| 0 <= k < (w - 3) / 4 implies #[trigger] s[4 + k] == (Field {
                abbrev: "ip.opt.route"@,
                source: m.source,
                start: p + 3 + 4 * k,
                end: p + 7 + 4 * k,
                value: ValueView::Ipv4(bytes_at(o, i + 3 + 4 * k, 4)),
            }) by {
                assert(bytes_at(b, 1 + 4 * k, 4) =~= bytes_at(o, i + 3 + 4 * k, 4));
            }
        }
    }
    assert(written(after, n).len() == after.count() - n);
}

proof fn routes_written(b: Seq<u8>, i: int, at: int, m: Model, n: int)
    requires
        0 <= i <= b.len(),
        0 <= n <= m.count(),
    ensures
        ({
            let after = ipv4::routes(b, i, at, m);
            let k = (b.len() - i) / 4;
            &&& after == (Model { trace: after.trace, ..m })
            &&& after.count() == m.count() + k
            &&& written(after, n) == written(m, n) + Seq::new(
                k as nat,
                |k: int|
                    Field {
                        abbrev: "ip.opt.route"@,
                        source: m.source,
                        start: at + i + 4 * k,
                        end: at + i + 4 * k + 4,
                        value: ValueView::Ipv4(bytes_at(b, i + 4 * k, 4)),
                    },
            )
        }),
    decreases b.len() - i,
{
    broadcast use writing;

    let list = Seq::new(
        ((b.len() - i) / 4) as nat,
        |k: int|
            Field {
                abbrev: "ip.opt.route"@,
                source: m.source,
                start: at + i + 4 * k,
                end: at + i + 4 * k + 4,
                value: ValueView::Ipv4(bytes_at(b, i + 4 * k, 4)),
            },
    );
    if i + 4 <= b.len() {
        let next = m.leaf(
            "ip.opt.route"@,
            at + i,
            at + i + 4,
            ValueView::Ipv4(b.subrange(i, i + 4)),
        );
        routes_written(b, i + 4, at, next, n);
        assert(ipv4::routes(b, i, at, m) == ipv4::routes(b, i + 4, at, next));
        assert(written(ipv4::routes(b, i, at, m), n) =~= written(m, n) + list);
    } else {
        assert(list =~= Seq::empty());
        assert(written(m, n) =~= written(m, n) + list);
    }
}

/// The protocol that a number in an IP header stands for, where there is a
/// dissector for it: ICMP, TCP, UDP or ICMPv6.
pub open spec fn stands_for_number(number: u8, proto: Proto) -> bool {
    &&& number == 1 <==> proto == Proto::Icmp
    &&& number == 6 <==> proto == Proto::Tcp
    &&& number == 17 <==> proto == Proto::Udp
    &&& number == 58 <==> proto == Proto::Icmpv6
    &&& proto == Proto::Icmp || proto == Proto::Tcp || proto == Proto::Udp || proto
        == Proto::Icmpv6 || proto == Proto::Data
}

/// A packet that is no fragment and has no options hands on what its total
/// length leaves behind the header, and no more than was captured; all that
/// was captured where a card is to fill in the length.
pub proof fn ipv4_hands_on_its_payload(d: Seq<u8>, m: Model)
    requires
        addressable(d, m),
        0 <= m.base,
        d.len() >= 20,
        d[0] == 0x45,
        two(d, 6) % 0x4000 == 0,
    ensures
        ipv4::layer(d, m).1 is None,
        exists|p: Proto, len: int|
            #![trigger passes(m, ipv4::layer(d, m).0, p, 20, Some(len))]
            {
                &&& stands_for_number(d[9], p)
                &&& passes(m, ipv4::layer(d, m).0, p, 20, Some(len))
                &&& len <= d.len() - 20
                &&& two(d, 2) == 0 ==> len == d.len() - 20
                &&& 20 <= two(d, 2) <= d.len() ==> len == two(d, 2) - 20
                &&& 0 < two(d, 2) < 20 ==> len == 0
                &&& two(d, 2) > d.len() ==> len == d.len() - 20
            },
{
    broadcast use writing;

    let first = d[0];
    let flags = be16(d, 6);
    assert(first >> 4 == 4 && (first & 0x0f) == 5) by (bit_vector)
        requires
            first == 0x45u8,
    ;
    assert(two(d, 6) == flags);
    assert(flags & 0x2000 == 0 && flags & 0x1fff == 0) by (bit_vector)
        requires
            flags % 0x4000 == 0,
    ;
    ipv4_shows_its_header(d, m, 20, ipv4::status_of(d, m, 20));
    let after = ipv4::layer(d, m).0;
    let p = after.next->0.proto;
    let len = after.next->0.len->0 as int;
    assert(passes(m, after, p, 20, Some(len)));
}

/// A header with wrong length or version is refused, whatever else it holds.
pub proof fn ipv4_refuses_what_it_cannot_be(d: Seq<u8>, m: Model)
    requires
        d.len() >= 20,
        d[0] / 16 != 4 || d[0] % 16 < 5 || d[0] % 16 * 4 > d.len(),
    ensures
        ipv4::layer(d, m).1 is Some,
        ipv4::layer(d, m).0.next == m.next,
{
    broadcast use writing;

    let first = d[0];
    assert(first >> 4 == first / 16 && first & 0x0f == first % 16) by (bit_vector);
}

// ---- UDP ------------------------------------------------------------------------

/// A UDP header is the ports, source first, the length and the checksum. What
/// the length leaves behind the header is handed on, and no more than was
/// captured: to DNS from or to ports 53 and 5353, to DHCP from or to ports 67
/// and 68.
pub proof fn udp_shows_its_header(d: Seq<u8>, m: Model)
    requires
        addressable(d, m),
        0 <= m.base,
        d.len() >= 8,
        two(d, 4) >= 8,
    ensures
        ({
            let (after, e) = udp::layer(d, m);
            let s = written(after, m.count());
            let (sport, dport) = (two(d, 0), two(d, 2));
            let len = if two(d, 4) < d.len() {
                two(d, 4) - 8
            } else {
                d.len() - 8
            };
            let name = sport == 53 || dport == 53 || sport == 5353 || dport == 5353;
            let lease = sport == 67 || dport == 67 || sport == 68 || dport == 68;
            &&& e is None
            &&& s[0] == over(m, "udp"@, 0, 8, ValueView::Empty)
            &&& s[1] == over(m, "udp.srcport"@, 0, 2, ValueView::Unsigned(sport))
            &&& s[2] == over(m, "udp.dstport"@, 2, 4, ValueView::Unsigned(dport))
            &&& s[3] == over(m, "udp.length"@, 4, 6, ValueView::Unsigned(two(d, 4)))
            &&& s[4] == over(m, "udp.checksum"@, 6, 8, ValueView::Unsigned(two(d, 6)))
            &&& s[5] == over(
                m,
                "udp.checksum.status"@,
                6,
                8,
                ValueView::Unsigned(udp::status_of(d, m)),
            )
            &&& two(d, 6) == 0 ==> udp::status_of(d, m) == 3
            &&& len > 0 ==> passes(
                m,
                after,
                if name {
                    Proto::Dns
                } else if lease {
                    Proto::Dhcp
                } else {
                    Proto::Data
                },
                8,
                Some(len),
            )
            &&& len == 0 ==> after.next == m.next
        }),
{
    broadcast use writing;

    nothing_written(m);
    let (flowing, stream) = udp::flow(m, be16(d, 0), be16(d, 2));
    assert(flowing == (Model { state: flowing.state, stream: flowing.stream, ..m })) by {
        reveal(Model::look_up);
    }
    assert(written(flowing, m.count()) =~= written(m, m.count()));
    let after = udp::layer(d, m).0;
    assert(written(after, m.count()).len() == after.count() - m.count());
}

} // verus!

//! The fields of IPv6 and its extension headers.

use vstd::prelude::*;

use super::network::stands_for_number;
use super::{
    byte_at, bytes_at, four, nothing_written, over, passes, two, writing, written, Field,
};
use crate::bytes::{be16, be32};
use crate::dissect::ctx::{AddrsView, Model, Proto};
use crate::dissect::node::ValueView;
use crate::dissect::proto::addressable;
use crate::dissect::proto::ipv6::{
    extensions, fragment_header, is_extension, layer, option, options, options_header, route,
    routing_header,
};
use crate::dissect::AddrView;

verus! {

/// The fixed header of a packet without extension headers is shown field by
/// field, and what its payload length covers is handed on, as far as it was
/// captured, unless the header says that nothing follows. The columns show
/// the addresses, source first.
#[verifier::rlimit(60)]
pub proof fn ipv6_shows_its_header(d: Seq<u8>, m: Model)
    requires
        addressable(d, m),
        0 <= m.base,
        d.len() >= 40,
        d[0] / 16 == 6,
        d[6] != 0 && d[6] != 43 && d[6] != 44 && d[6] != 60,
    ensures
        ({
            let (after, e) = layer(d, m);
            let s = written(after, m.count());
            let first = four(d, 0);
            let len = if two(d, 4) < d.len() - 40 {
                two(d, 4) as int
            } else {
                d.len() - 40
            };
            &&& e is None
            &&& s == seq![
                over(m, "ipv6"@, 0, 40 + len, ValueView::Empty),
                over(m, "ipv6.version"@, 0, 4, ValueView::Unsigned(6)),
                over(m, "ipv6.tclass"@, 0, 4, ValueView::Unsigned(first / 0x10_0000 % 0x100)),
                over(m, "ipv6.flow"@, 0, 4, ValueView::Unsigned(first % 0x10_0000)),
                over(m, "ipv6.plen"@, 4, 6, ValueView::Unsigned(two(d, 4))),
                over(m, "ipv6.nxt"@, 6, 7, byte_at(d, 6)),
                over(m, "ipv6.hlim"@, 7, 8, byte_at(d, 7)),
                over(m, "ipv6.src"@, 8, 24, ValueView::Ipv6(bytes_at(d, 8, 16))),
                over(m, "ipv6.dst"@, 24, 40, ValueView::Ipv6(bytes_at(d, 24, 16))),
            ]
            &&& after.summary.source == AddrView::Ipv6(bytes_at(d, 8, 16))
            &&& after.summary.destination == AddrView::Ipv6(bytes_at(d, 24, 16))
            &&& after.addrs == Some(AddrsView::V6(bytes_at(d, 8, 16), bytes_at(d, 24, 16)))
            &&& d[6] == 59 ==> after.next == m.next
            &&& d[6] != 59 ==> exists|p: Proto| #[trigger]
                stands_for_number(d[6], p) && passes(m, after, p, 40, Some(len))
        }),
{
    broadcast use writing;

    nothing_written(m);
    let v = be32(d, 0);
    assert(v >> 28 == v / 0x1000_0000 && (v >> 20) & 0xff == v / 0x10_0000 % 0x100 && v
        & 0x000f_ffff == v % 0x10_0000) by (bit_vector);
    assert(four(d, 0) == v);
    assert(v / 0x1000_0000 == d[0] / 16);
    let after = layer(d, m).0;
    let len = if two(d, 4) < d.len() - 40 {
        two(d, 4) as int
    } else {
        d.len() - 40
    };
    let first = four(d, 0);
    assert(written(after, m.count()) =~= seq![
        over(m, "ipv6"@, 0, 40 + len, ValueView::Empty),
        over(m, "ipv6.version"@, 0, 4, ValueView::Unsigned(6)),
        over(m, "ipv6.tclass"@, 0, 4, ValueView::Unsigned(first / 0x10_0000 % 0x100)),
        over(m, "ipv6.flow"@, 0, 4, ValueView::Unsigned(first % 0x10_0000)),
        over(m, "ipv6.plen"@, 4, 6, ValueView::Unsigned(two(d, 4))),
        over(m, "ipv6.nxt"@, 6, 7, byte_at(d, 6)),
        over(m, "ipv6.hlim"@, 7, 8, byte_at(d, 7)),
        over(m, "ipv6.src"@, 8, 24, ValueView::Ipv6(bytes_at(d, 8, 16))),
        over(m, "ipv6.dst"@, 24, 40, ValueView::Ipv6(bytes_at(d, 24, 16))),
    ]);
    if d[6] != 59 {
        let p = after.next->0.proto;
        assert(stands_for_number(d[6], p) && passes(m, after, p, 40, Some(len)));
    }
}

/// A field over bytes `i..j` of what stands at `at`.
pub open spec fn placed(
    m: Model,
    at: int,
    name: Seq<char>,
    i: int,
    j: int,
    value: ValueView,
) -> Field {
    Field { abbrev: name, source: m.source, start: at + i, end: at + j, value }
}

proof fn header_names()
    ensures
        "ipv6.fraghdr"@ != "_ws.malformed"@,
        "ipv6.routing"@ != "_ws.malformed"@,
        "ipv6.hopopts"@ != "_ws.malformed"@,
        "ipv6.dstopts"@ != "_ws.malformed"@,
{
    reveal_strlit("_ws.malformed");
    reveal_strlit("ipv6.fraghdr");
    reveal_strlit("ipv6.routing");
    reveal_strlit("ipv6.hopopts");
    reveal_strlit("ipv6.dstopts");
    assert("ipv6.hopopts"@.len() == 12);
    assert("ipv6.dstopts"@.len() == 12);
    assert("_ws.malformed"@.len() == 13);
    assert("ipv6.fraghdr"@.len() == 12);
    assert("ipv6.routing"@.len() == 12);
}

/// A fragment header is eight bytes: the offset is in units of eight bytes,
/// the lowest bit says whether more fragments follow.
pub proof fn fragment_headers_are_shown(p: Seq<u8>, i: int, at: int, m: Model)
    requires
        0 <= i,
        i + 8 <= p.len(),
    ensures
        ({
            let x = fragment_header(p, i, at, m);
            let v = two(p, i + 2);
            &&& x.error is None
            &&& x.at == i + 8
            &&& x.next == p[i]
            &&& x.fragment == (v >= 8 || v % 2 == 1)
            &&& written(x.m, m.count()) == seq![
                placed(m, at, "ipv6.fraghdr"@, i, i + 8, ValueView::Empty),
                placed(m, at, "ipv6.fraghdr.nxt"@, i, i + 1, byte_at(p, i)),
                placed(m, at, "ipv6.fraghdr.reserved_octet"@, i + 1, i + 2, byte_at(p, i + 1)),
                placed(
                    m,
                    at,
                    "ipv6.fraghdr.offset"@,
                    i + 2,
                    i + 4,
                    ValueView::Unsigned((v / 8 * 8) as u64),
                ),
                placed(
                    m,
                    at,
                    "ipv6.fraghdr.reserved_bits"@,
                    i + 2,
                    i + 4,
                    ValueView::Unsigned(v / 2 % 4),
                ),
                placed(m, at, "ipv6.fraghdr.more"@, i + 2, i + 4, ValueView::Bool(v % 2 == 1)),
                placed(
                    m,
                    at,
                    "ipv6.fraghdr.ident"@,
                    i + 4,
                    i + 8,
                    ValueView::Unsigned(four(p, i + 4)),
                ),
            ]
        }),
{
    broadcast use writing;

    header_names();
    nothing_written(m);
    let w = be16(p, i + 2);
    let v = two(p, i + 2);
    assert(w >> 3 == w / 8 && (w >> 1) & 3 == w / 2 % 4 && (w & 1 == 1) == (w % 2 == 1))
        by (bit_vector);
    assert(v == w);
    let x = fragment_header(p, i, at, m);
    assert(written(x.m, m.count()) =~= seq![
        placed(m, at, "ipv6.fraghdr"@, i, i + 8, ValueView::Empty),
        placed(m, at, "ipv6.fraghdr.nxt"@, i, i + 1, byte_at(p, i)),
        placed(m, at, "ipv6.fraghdr.reserved_octet"@, i + 1, i + 2, byte_at(p, i + 1)),
        placed(
            m,
            at,
            "ipv6.fraghdr.offset"@,
            i + 2,
            i + 4,
            ValueView::Unsigned((v / 8 * 8) as u64),
        ),
        placed(
            m,
            at,
            "ipv6.fraghdr.reserved_bits"@,
            i + 2,
            i + 4,
            ValueView::Unsigned(v / 2 % 4),
        ),
        placed(m, at, "ipv6.fraghdr.more"@, i + 2, i + 4, ValueView::Bool(v % 2 == 1)),
        placed(m, at, "ipv6.fraghdr.ident"@, i + 4, i + 8, ValueView::Unsigned(four(p, i + 4))),
    ]);
}

/// A routing header counts its length in units of eight bytes behind the
/// first eight, and shows the type before the segments that are left.
pub proof fn routing_headers_are_shown(p: Seq<u8>, i: int, at: int, m: Model)
    requires
        0 <= i,
        i + 4 <= p.len(),
        i + 8 + 8 * p[i + 1] <= p.len(),
    ensures
        ({
            let x = routing_header(p, i, at, m);
            let s = written(x.m, m.count());
            let total = 8 + 8 * p[i + 1];
            &&& x.error is None
            &&& x.at == i + total
            &&& x.next == p[i]
            &&& !x.fragment
            &&& s.len() >= 6
            &&& s[0] == placed(m, at, "ipv6.routing"@, i, i + total, ValueView::Empty)
            &&& s[1] == placed(m, at, "ipv6.routing.nxt"@, i, i + 1, byte_at(p, i))
            &&& s[2] == placed(m, at, "ipv6.routing.len"@, i + 1, i + 2, byte_at(p, i + 1))
            &&& s[3] == placed(m, at, "ipv6.routing.type"@, i + 2, i + 3, byte_at(p, i + 2))
            &&& s[4] == placed(m, at, "ipv6.routing.segleft"@, i + 3, i + 4, byte_at(p, i + 3))
        }),
{
    broadcast use writing;

    header_names();
    nothing_written(m);
    let s = at + i;
    let total = 8 + 8 * p[i + 1];
    let ty = p[i + 2];
    let open = m.begin_text(
        "ipv6.routing"@,
        s,
        s,
        "Routing Header, Type "@ + crate::text::dec(ty as int) + ", Segments Left "@
            + crate::text::dec(p[i + 3] as int),
    ).leaf("ipv6.routing.nxt"@, s, s + 1, ValueView::Unsigned(p[i] as u64)).leaf(
        "ipv6.routing.len"@,
        s + 1,
        s + 2,
        ValueView::Unsigned(p[i + 1] as u64),
    ).leaf("ipv6.routing.type"@, s + 2, s + 3, ValueView::Unsigned(ty as u64)).leaf(
        "ipv6.routing.segleft"@,
        s + 3,
        s + 4,
        ValueView::Unsigned(p[i + 3] as u64),
    );
    let b = p.subrange(i + 4, i + total);
    let led = open.leaf("ipv6.routing.data"@, s + 4, s + 8, ValueView::Bytes);
    route_keeps(b, 4, s + 4, led, m.count());
    let x = routing_header(p, i, at, m);
    assert(written(x.m, m.count()).len() == x.m.count() - m.count());
}

proof fn route_keeps(b: Seq<u8>, i: int, at: int, m: Model, n: int)
    requires
        0 <= n <= m.count(),
    ensures
        ({
            let after = route(b, i, at, m);
            &&& after == (Model { trace: after.trace, ..m })
            &&& after.count() >= m.count()
            &&& forall|k: int|
                0 <= k < m.count() - n ==> (#[trigger] written(after, n)[k]) == written(m, n)[k]
        }),
    decreases b.len() - i,
{
    broadcast use writing;

    if 0 <= i && i + 16 <= b.len() {
        let next = m.leaf(
            "ipv6.routing.addr"@,
            at + i,
            at + i + 16,
            ValueView::Ipv6(b.subrange(i, i + 16)),
        );
        route_keeps(b, i + 16, at, next, n);
        let after = route(b, i, at, m);
        assert(after == route(b, i + 16, at, next));
        assert forall|k: int| 0 <= k < m.count() - n implies (#[trigger] written(after, n)[k])
            == written(m, n)[k] by {
            assert(written(after, n)[k] == written(next, n)[k]);
        }
    }
}

/// One option: Pad1 is one byte, any other is a type, a length and that many
/// bytes; a router alert is a number.
pub proof fn ipv6_options_are_shown(o: Seq<u8>, i: int, at: int, m: Model)
    requires
        0 <= i < o.len(),
        o[i] != 0 ==> i + 1 < o.len() && i + 2 + o[i + 1] <= o.len(),
    ensures
        ({
            let (after, j, e) = option(o, i, at, m);
            let s = written(after, m.count());
            let w = o[i + 1] as int;
            &&& e is None
            &&& s.len() >= 2
            &&& s[1] == placed(m, at, "ipv6.opt.type"@, i, i + 1, byte_at(o, i))
            &&& o[i] == 0 ==> j == i + 1 && s.len() == 2 && s[0] == placed(
                m,
                at,
                "ipv6.opt"@,
                i,
                i + 1,
                ValueView::Empty,
            )
            &&& o[i] != 0 ==> {
                &&& j == i + 2 + w
                &&& s.len() >= 3
                &&& s[0] == placed(m, at, "ipv6.opt"@, i, i + 2 + w, ValueView::Empty)
                &&& s[2] == placed(m, at, "ipv6.opt.length"@, i + 1, i + 2, byte_at(o, i + 1))
                &&& o[i] == 1 ==> s.len() == 3
                &&& o[i] == 5 && w == 2 ==> s.len() == 4 && s[3] == placed(
                    m,
                    at,
                    "ipv6.opt.router_alert"@,
                    i + 2,
                    i + 4,
                    ValueView::Unsigned(two(o, i + 2)),
                )
                &&& o[i] > 1 && !(o[i] == 5 && w == 2) ==> s.len() == 4 && s[3] == placed(
                    m,
                    at,
                    "ipv6.opt.data"@,
                    i + 2,
                    i + 2 + w,
                    ValueView::Bytes,
                )
            }
        }),
{
    broadcast use writing;

    nothing_written(m);
    let after = option(o, i, at, m).0;
    assert(written(after, m.count()).len() == after.count() - m.count());
}

proof fn options_keep(o: Seq<u8>, i: int, at: int, m: Model, n: int)
    requires
        0 <= n <= m.count(),
    ensures
        ({
            let after = options(o, i, at, m);
            &&& after == (Model { trace: after.trace, summary: after.summary, ..m })
            &&& after.count() >= m.count()
            &&& forall|k: int|
                0 <= k < m.count() - n ==> (#[trigger] written(after, n)[k]) == written(m, n)[k]
        }),
    decreases o.len() - i,
{
    broadcast use writing;

    if 0 <= i < o.len() {
        let (next, j, e) = option(o, i, at, m);
        assert(next == (Model { trace: next.trace, ..m }));
        assert(next.count() >= m.count());
        assert forall|k: int| 0 <= k < m.count() - n implies (#[trigger] written(next, n)[k])
            == written(m, n)[k] by {}
        if e is None && i < j <= o.len() {
            options_keep(o, j, at, next, n);
            let after = options(o, i, at, m);
            assert(after == options(o, j, at, next));
            assert forall|k: int| 0 <= k < m.count() - n implies (#[trigger] written(after, n)[k])
                == written(m, n)[k] by {
                assert(written(after, n)[k] == written(next, n)[k]);
            }
        }
    }
}

/// An options header counts its length in units of eight bytes behind the
/// first eight; those for every hop and those for the destination are told
/// apart.
pub proof fn options_headers_are_shown(p: Seq<u8>, i: int, at: int, kind: u8, m: Model)
    requires
        0 <= i,
        i + 2 <= p.len(),
        i + 8 + 8 * p[i + 1] <= p.len(),
        kind == 0 || kind == 60,
    ensures
        ({
            let x = options_header(p, i, at, kind, m);
            let s = written(x.m, m.count());
            let total = 8 + 8 * p[i + 1];
            &&& x.error is None
            &&& x.at == i + total
            &&& x.next == p[i]
            &&& !x.fragment
            &&& s.len() >= 3
            &&& kind == 0 ==> s[0] == placed(
                m,
                at,
                "ipv6.hopopts"@,
                i,
                i + total,
                ValueView::Empty,
            ) && s[1] == placed(m, at, "ipv6.hopopts.nxt"@, i, i + 1, byte_at(p, i)) && s[2]
                == placed(m, at, "ipv6.hopopts.len"@, i + 1, i + 2, byte_at(p, i + 1))
            &&& kind == 60 ==> s[0] == placed(
                m,
                at,
                "ipv6.dstopts"@,
                i,
                i + total,
                ValueView::Empty,
            ) && s[1] == placed(m, at, "ipv6.dstopts.nxt"@, i, i + 1, byte_at(p, i)) && s[2]
                == placed(m, at, "ipv6.dstopts.len"@, i + 1, i + 2, byte_at(p, i + 1))
        }),
{
    broadcast use writing;

    header_names();
    nothing_written(m);
    let n = m.count();
    assert forall|o: Seq<u8>, a: int, x: Model| n <= x.count() implies ({
        let y = #[trigger] options(o, 0, a, x);
        &&& y == (Model { trace: y.trace, summary: y.summary, ..x })
        &&& y.count() >= x.count()
        &&& forall|k: int|
            0 <= k < x.count() - n ==> (#[trigger] written(y, n)[k]) == written(x, n)[k]
    }) by {
        options_keep(o, 0, a, x, n);
    }
    let x = options_header(p, i, at, kind, m);
    assert(written(x.m, n).len() == x.m.count() - n);
}

/// Extension headers are followed one by one, each naming the next: Hop-by-Hop
/// and Destination Options, Routing and Fragment headers. Any other number is
/// what the packet carries.
pub proof fn extension_headers_are_followed(
    k: nat,
    p: Seq<u8>,
    i: int,
    at: int,
    next: u8,
    fragment: bool,
    m: Model,
)
    ensures
        is_extension(next) <==> next == 0 || next == 43 || next == 44 || next == 60,
        !is_extension(next) ==> ({
            let x = extensions(k, p, i, at, next, fragment, m);
            x.m == m && x.at == i && x.next == next && x.fragment == fragment && x.error is None
        }),
        k > 0 && next == 43 && routing_header(p, i, at, m).error is None ==> extensions(
            k,
            p,
            i,
            at,
            next,
            fragment,
            m,
        ) == extensions(
            (k - 1) as nat,
            p,
            routing_header(p, i, at, m).at,
            at,
            routing_header(p, i, at, m).next,
            fragment,
            routing_header(p, i, at, m).m,
        ),
        k > 0 && next == 44 && 0 <= i && i + 8 <= p.len() ==> extensions(
            k,
            p,
            i,
            at,
            next,
            fragment,
            m,
        ) == extensions(
            (k - 1) as nat,
            p,
            i + 8,
            at,
            p[i],
            two(p, i + 2) >= 8 || two(p, i + 2) % 2 == 1,
            fragment_header(p, i, at, m).m,
        ),
{
    if k > 0 && next == 44 && 0 <= i && i + 8 <= p.len() {
        fragment_headers_are_shown(p, i, at, m);
    }
}

} // verus!

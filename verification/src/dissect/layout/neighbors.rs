//! The fields of ICMPv6 messages.

use vstd::prelude::*;

use super::ipv6::placed;
use super::{byte_at, bytes_at, four, nothing_written, two, writing, written};
use crate::bytes::be32;
use crate::dissect::ctx::Model;
use crate::dissect::node::ValueView;
use crate::dissect::proto::icmpv6::{body, detail_of, neighbor_advert, option, options, problem};

verus! {

proof fn options_keep(d: Seq<u8>, i: int, at: int, m: Model, n: int)
    requires
        0 <= n <= m.count(),
    ensures
        ({
            let after = options(d, i, at, m);
            &&& after == (Model { trace: after.trace, summary: after.summary, ..m })
            &&& after.summary.info == m.summary.info
            &&& after.count() >= m.count()
            &&& forall|k: int|
                0 <= k < m.count() - n ==> (#[trigger] written(after, n)[k]) == written(m, n)[k]
        }),
    decreases d.len() - i,
{
    broadcast use writing;

    reveal(Model::leaf_text);
    reveal(Model::record);
    if 0 <= i < d.len() {
        let (next, j, e) = option(d, i, at, m);
        let opt = m.count();
        assert(next == (Model { trace: next.trace, ..m }));
        assert(next.count() >= m.count());
        assert forall|k: int| 0 <= k < m.count() - n implies (#[trigger] written(next, n)[k])
            == written(m, n)[k] by {}
        if e is None && i < j <= d.len() {
            options_keep(d, j, at, next, n);
            let after = options(d, i, at, m);
            assert(after == options(d, j, at, next));
            assert forall|k: int| 0 <= k < m.count() - n implies (#[trigger] written(after, n)[k])
                == written(m, n)[k] by {
                assert(written(after, n)[k] == written(next, n)[k]);
            }
        }
    }
}

/// An option counts its length in units of eight bytes. Types 1 and 2 hold a
/// link-layer address, type 3 a prefix with its lifetimes, the valid one
/// first, and type 5 a number.
pub proof fn discovery_options_are_shown(d: Seq<u8>, i: int, at: int, m: Model)
    requires
        0 <= i,
        i + 1 < d.len(),
        d[i + 1] > 0,
        i + 8 * d[i + 1] <= d.len(),
    ensures
        ({
            let (after, j, e) = option(d, i, at, m);
            let s = written(after, m.count());
            let w = 8 * d[i + 1];
            &&& e is None
            &&& j == i + w
            &&& s.len() >= 4
            &&& s[0] == placed(m, at, "icmpv6.opt"@, i, i + w, ValueView::Empty)
            &&& s[1] == placed(m, at, "icmpv6.opt.type"@, i, i + 1, byte_at(d, i))
            &&& s[2] == placed(m, at, "icmpv6.opt.length"@, i + 1, i + 2, byte_at(d, i + 1))
            &&& d[i] == 1 || d[i] == 2 ==> s.len() == 4 && s[3] == placed(
                m,
                at,
                "icmpv6.opt.linkaddr"@,
                i + 2,
                i + 8,
                ValueView::Mac(bytes_at(d, i + 2, 6)),
            )
            &&& d[i] == 3 && w >= 32 ==> s.len() == 7 && s[3] == placed(
                m,
                at,
                "icmpv6.opt.prefix.length"@,
                i + 2,
                i + 3,
                byte_at(d, i + 2),
            ) && s[4] == placed(
                m,
                at,
                "icmpv6.opt.prefix.valid_lifetime"@,
                i + 4,
                i + 8,
                ValueView::Unsigned(four(d, i + 4)),
            ) && s[5] == placed(
                m,
                at,
                "icmpv6.opt.prefix.preferred_lifetime"@,
                i + 8,
                i + 12,
                ValueView::Unsigned(four(d, i + 8)),
            ) && s[6] == placed(
                m,
                at,
                "icmpv6.opt.prefix"@,
                i + 16,
                i + 32,
                ValueView::Ipv6(bytes_at(d, i + 16, 16)),
            )
            &&& d[i] == 5 ==> s.len() == 4 && s[3] == placed(
                m,
                at,
                "icmpv6.opt.mtu"@,
                i + 4,
                i + 8,
                ValueView::Unsigned(four(d, i + 4)),
            )
        }),
{
    broadcast use writing;

    nothing_written(m);
    let after = option(d, i, at, m).0;
    assert(written(after, m.count()).len() == after.count() - m.count());
}

/// Echoes show an identifier and a sequence number; what is left is data.
pub proof fn echoes_are_shown(d: Seq<u8>, a: int, kind: Seq<char>, m: Model)
    requires
        d.len() >= 8,
        d[0] == 128 || d[0] == 129,
    ensures
        ({
            let s = written(body(d, a, kind, m), m.count());
            &&& s.len() == if d.len() > 8 {
                3int
            } else {
                2
            }
            &&& s[0] == placed(
                m,
                a,
                "icmpv6.echo.identifier"@,
                4,
                6,
                ValueView::Unsigned(two(d, 4)),
            )
            &&& s[1] == placed(
                m,
                a,
                "icmpv6.echo.sequence_number"@,
                6,
                8,
                ValueView::Unsigned(two(d, 6)),
            )
            &&& d.len() > 8 ==> s[2] == placed(
                m,
                a,
                "icmpv6.data"@,
                8,
                d.len() - 0,
                ValueView::Bytes,
            )
        }),
{
    broadcast use writing;

    nothing_written(m);
    let after = body(d, a, kind, m);
    assert(written(after, m.count()).len() == after.count() - m.count());
}

/// A solicitation shows whom it asks for, a redirect shows the better hop
/// before the destination that it is for.
pub proof fn solicitations_and_redirects_are_shown(
    d: Seq<u8>,
    a: int,
    kind: Seq<char>,
    m: Model,
)
    requires
        d.len() >= 24,
        d[0] == 135 || d[0] == 137,
        d[0] == 137 ==> d.len() >= 40,
    ensures
        ({
            let s = written(body(d, a, kind, m), m.count());
            &&& s.len() >= 2
            &&& s[0] == placed(m, a, "icmpv6.reserved"@, 4, 8, ValueView::Unsigned(four(d, 4)))
            &&& d[0] == 135 ==> s[1] == placed(
                m,
                a,
                "icmpv6.nd.ns.target_address"@,
                8,
                24,
                ValueView::Ipv6(bytes_at(d, 8, 16)),
            )
            &&& d[0] == 137 ==> s.len() >= 3 && s[1] == placed(
                m,
                a,
                "icmpv6.nd.rd.target_address"@,
                8,
                24,
                ValueView::Ipv6(bytes_at(d, 8, 16)),
            ) && s[2] == placed(
                m,
                a,
                "icmpv6.nd.rd.destination_address"@,
                24,
                40,
                ValueView::Ipv6(bytes_at(d, 24, 16)),
            )
        }),
{
    broadcast use writing;

    nothing_written(m);
    let after = body(d, a, kind, m);
    let n = m.count();
    assert forall|x: Model, i: int| n <= x.count() implies ({
        let y = #[trigger] options(d, i, a, x);
        &&& y.count() >= x.count()
        &&& forall|k: int|
            0 <= k < x.count() - n ==> (#[trigger] written(y, n)[k]) == written(x, n)[k]
    }) by {
        options_keep(d, i, a, x, n);
    }
    assert(written(after, n).len() == after.count() - n);
}

/// A neighbor's advertisement shows its three flags, whether it is a router,
/// was asked, and overrides, from the highest bit down, and its address.
pub proof fn neighbor_advertisements_are_shown(d: Seq<u8>, a: int, m: Model)
    requires
        d.len() >= 24,
    ensures
        ({
            let s = written(neighbor_advert(d, a, m), m.count());
            let top = d[4];
            &&& s.len() >= 5
            &&& s[0] == placed(
                m,
                a,
                "icmpv6.nd.na.flag"@,
                4,
                8,
                ValueView::Unsigned(four(d, 4) / 0x2000_0000),
            )
            &&& s[1] == placed(m, a, "icmpv6.nd.na.flag.r"@, 4, 8, ValueView::Bool(top >= 128))
            &&& s[2] == placed(
                m,
                a,
                "icmpv6.nd.na.flag.s"@,
                4,
                8,
                ValueView::Bool(top / 64 % 2 == 1),
            )
            &&& s[3] == placed(
                m,
                a,
                "icmpv6.nd.na.flag.o"@,
                4,
                8,
                ValueView::Bool(top / 32 % 2 == 1),
            )
            &&& s[4] == placed(
                m,
                a,
                "icmpv6.nd.na.target_address"@,
                8,
                24,
                ValueView::Ipv6(bytes_at(d, 8, 16)),
            )
        }),
{
    broadcast use writing;

    nothing_written(m);
    let flags = be32(d, 4);
    assert(flags >> 29 == flags / 0x2000_0000 && (flags & 0x8000_0000 != 0) == (flags
        >= 0x8000_0000) && (flags & 0x4000_0000 != 0) == (flags / 0x4000_0000 % 2 == 1) && (flags
        & 0x2000_0000 != 0) == (flags / 0x2000_0000 % 2 == 1)) by (bit_vector);
    assert(four(d, 4) == flags);
    let n = m.count();
    assert forall|x: Model, i: int| n <= x.count() implies ({
        let y = #[trigger] options(d, i, a, x);
        &&& y.count() >= x.count()
        &&& forall|k: int|
            0 <= k < x.count() - n ==> (#[trigger] written(y, n)[k]) == written(x, n)[k]
    }) by {
        options_keep(d, i, a, x, n);
    }
    let after = neighbor_advert(d, a, m);
    assert(written(after, n).len() == after.count() - n);
}

/// A router's advertisement shows its hop limit, whether addresses and other
/// settings are managed, and three times.
pub proof fn router_advertisements_are_shown(d: Seq<u8>, a: int, kind: Seq<char>, m: Model)
    requires
        d.len() >= 16,
        d[0] == 134,
    ensures
        ({
            let s = written(body(d, a, kind, m), m.count());
            &&& s.len() >= 7
            &&& s[0] == placed(m, a, "icmpv6.nd.ra.cur_hop_limit"@, 4, 5, byte_at(d, 4))
            &&& s[1] == placed(m, a, "icmpv6.nd.ra.flag"@, 5, 6, byte_at(d, 5))
            &&& s[2] == placed(m, a, "icmpv6.nd.ra.flag.m"@, 5, 6, ValueView::Bool(d[5] >= 128))
            &&& s[3] == placed(
                m,
                a,
                "icmpv6.nd.ra.flag.o"@,
                5,
                6,
                ValueView::Bool(d[5] / 64 % 2 == 1),
            )
            &&& s[4] == placed(
                m,
                a,
                "icmpv6.nd.ra.router_lifetime"@,
                6,
                8,
                ValueView::Unsigned(two(d, 6)),
            )
            &&& s[5] == placed(
                m,
                a,
                "icmpv6.nd.ra.reachable_time"@,
                8,
                12,
                ValueView::Unsigned(four(d, 8)),
            )
            &&& s[6] == placed(
                m,
                a,
                "icmpv6.nd.ra.retrans_timer"@,
                12,
                16,
                ValueView::Unsigned(four(d, 12)),
            )
        }),
{
    broadcast use writing;

    nothing_written(m);
    let flags = d[5];
    assert((flags & 0x80 != 0) == (flags >= 128) && (flags & 0x40 != 0) == (flags / 64 % 2 == 1))
        by (bit_vector);
    let n = m.count();
    assert forall|x: Model, i: int| n <= x.count() implies ({
        let y = #[trigger] options(d, i, a, x);
        &&& y.count() >= x.count()
        &&& forall|k: int|
            0 <= k < x.count() - n ==> (#[trigger] written(y, n)[k]) == written(x, n)[k]
    }) by {
        options_keep(d, i, a, x, n);
    }
    let after = body(d, a, kind, m);
    assert(written(after, n).len() == after.count() - n);
}

/// An error shows the size that would have fitted, where the trouble is, or
/// bytes without meaning; what it quotes is data.
pub proof fn problems_are_shown(d: Seq<u8>, a: int, kind: Seq<char>, m: Model)
    requires
        d.len() >= 8,
    ensures
        ({
            let s = written(problem(d, a, kind, m), m.count());
            let name = if d[0] == 2 {
                "icmpv6.mtu"@
            } else if d[0] == 4 {
                "icmpv6.pointer"@
            } else {
                "icmpv6.reserved"@
            };
            &&& s[0] == placed(m, a, name, 4, 8, ValueView::Unsigned(four(d, 4)))
            &&& s.len() == if d.len() > 8 {
                2int
            } else {
                1
            }
            &&& d.len() > 8 ==> s[1] == placed(
                m,
                a,
                "icmpv6.data"@,
                8,
                d.len() - 0,
                ValueView::Bytes,
            )
        }),
{
    broadcast use writing;

    nothing_written(m);
    let after = problem(d, a, kind, m);
    assert(written(after, m.count()).len() == after.count() - m.count());
}

/// What an unreachable destination or an expired packet is called.
pub proof fn problems_are_named(kind: Seq<char>)
    ensures
        detail_of(1, 0, kind) == "No route to destination"@,
        detail_of(1, 1, kind) == "Communication administratively prohibited"@,
        detail_of(1, 3, kind) == "Address unreachable"@,
        detail_of(1, 4, kind) == "Port unreachable"@,
        detail_of(3, 0, kind) == "Hop limit exceeded in transit"@,
        detail_of(3, 1, kind) == "Fragment reassembly time exceeded"@,
{
}

} // verus!

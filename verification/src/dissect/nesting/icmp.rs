//! ICMP, and the packets that its messages quote.

use vstd::prelude::*;

use super::link::data_nests;
use super::network::ipv4_nests;
use super::ops::{keeping_nested, moving};
use super::transport::{tcp_nests, udp_nests};
use super::{begins, fits_all, nests, opened, wrote, wrote_elsewhere, wrote_on};
use crate::bytes::be16;
use crate::dissect::ctx::{Model, Proto};
use crate::dissect::node::ValueView;
use crate::dissect::proto::icmp::{
    detail_of, error_fields, is_error, layer, layer_at, quote, quoted, quoted_layer, quoted_slice,
    status_of, MAX_NESTING,
};
use crate::dissect::proto::{bad_packet, checked};
use crate::dissect::ranges::icmp::quoted_layer_stays;
use crate::dissect::ranges::names::{control_names, unasked, verdict_names};
use crate::dissect::ranges::{
    hands_on, keeping_inside, nothing_written, ready, ready_elsewhere, space, within,
    within_counts, within_facts, within_tidy,
};
use crate::dissect::registry::named_or;
use crate::dissect::reporting::alike_itself;
use crate::dissect::reporting::icmp::{quote_agrees, quoted_layer_agrees};
use crate::dissect::reporting::verdicts::no_verdict;
use crate::dissect::tables::ICMP_TYPES;
use crate::dissect::reassembly::tidy;

verus! {

proof fn quoted_layer_nests(proto: Proto, slice: Seq<u8>, m: Model, deep: u8, n: int)
    requires
        begins(slice, m),
        ready(slice, m, n),
        m.trace.depth < 180 + 2 * deep,
        0 < deep == m.nesting <= MAX_NESTING,
    ensures
        nests(slice, m, quoted_layer(proto, slice, m, deep)),
    decreases 3 - deep, 2int,
{
    match proto {
        Proto::Ipv4 => ipv4_nests(slice, m, n),
        Proto::Tcp => tcp_nests(slice, m),
        Proto::Udp => udp_nests(slice, m),
        Proto::Icmp => message_nests(slice, m, deep, n),
        _ => data_nests(slice, m),
    }
}

proof fn quoted_nests(
    k: nat,
    d: Seq<u8>,
    base: int,
    proto: Proto,
    offset: int,
    len: Option<usize>,
    deep: u8,
    m: Model,
    n: int,
)
    requires
        0 <= n,
        0 <= base <= offset <= base + d.len() <= space(m, n),
        hands_on(m, n),
        m.extra.len() < 255,
        tidy(m.state.reassembly),
        0 < deep,
        m.trace.depth < 180 + 2 * deep,
        fits_all(m, base, base + d.len()),
    ensures
        wrote(
            m,
            quoted(k, d, base, m.source, proto, offset, len, deep, m).with_base(m.base).nested(
                m.nesting,
            ),
            base,
            base + d.len(),
        ),
    decreases 3 - deep, 2 + k,
{
    let q = quoted(k, d, base, m.source, proto, offset, len, deep, m);
    let end = base + d.len();
    if k == 0 || deep > MAX_NESTING {
        broadcast use {keeping_nested, moving};

        reveal(Model::with_base);
        reveal(Model::nested);
    } else {
        let slice = quoted_slice(d, base, offset, len);
        let inner = m.nested(deep).with_base(offset);
        ready_elsewhere(slice, m, offset, deep, n);
        assert(begins(slice, inner) && inner.trace == m.trace && fits_all(inner, base, end)
            && inner.base == offset && inner.extra == m.extra) by {
            reveal(Model::with_base);
            reveal(Model::nested);
            broadcast use {keeping_nested, moving};

        }
        quoted_layer_nests(proto, slice, inner, deep, n);
        quoted_layer_stays(proto, slice, inner, deep, n);
        alike_itself(inner);
        quoted_layer_agrees(Seq::empty(), proto, slice, inner, inner, deep);
        let (after, e) = quoted_layer(proto, slice, inner, deep);
        match e {
            Some(e) => {
                assert(wrote(inner, after, base, end));
                let told = after.at_depth(m.trace.depth).leaf_text(
                    "_ws.malformed"@,
                    offset,
                    end,
                    ValueView::Empty,
                    bad_packet(proto, e),
                ).next_taken();
                assert(wrote(inner, told, base, end)) by {
                    broadcast use {keeping_nested, moving};

                }
                wrote_elsewhere(m, offset, deep, told, base, end);
            },
            None => {
                let t = after.next_taken();
                assert(wrote(inner, t, base, end) && t.trace.depth == m.trace.depth) by {
                    assert(wrote(inner, after, base, end));
                    broadcast use {keeping_nested, moving};

                }
                assert(fits_all(t, base, end));
                assert(within(inner, t, n)) by {
                    broadcast use keeping_inside;

                }
                within_facts(inner, t, n);
                within_counts(inner, t, n);
                assert(tidy(inner.state.reassembly)) by {
                    reveal(Model::with_base);
                    reveal(Model::nested);
                }
                let follows = match after.next {
                    Some(h) => h.source == m.source && base <= h.offset < end,
                    None => false,
                };
                if follows {
                    let h = after.next->0;
                    quoted_nests(
                        (k - 1) as nat,
                        d,
                        base,
                        h.proto,
                        h.offset as int,
                        h.len,
                        deep,
                        t,
                        n,
                    );
                    let back = q.with_base(t.base).nested(t.nesting);
                    wrote_on(inner, t, back, base, end, base, end);
                    wrote_elsewhere(m, offset, deep, back, base, end);
                    assert(back.with_base(m.base).nested(m.nesting) == q.with_base(m.base).nested(
                        m.nesting,
                    )) by {
                        reveal(Model::with_base);
                        reveal(Model::nested);
                    }
                } else {
                    wrote_elsewhere(m, offset, deep, t, base, end);
                }
            },
        }
    }
}

/// The fixed part of a message, its row open.
spec fn head(d: Seq<u8>, status: u64, m: Model) -> Model {
    let a = m.base;
    let m = m.set_protocol("icmp"@).begin("icmp"@, a, a + d.len()).leaf(
        "icmp.type"@,
        a,
        a + 1,
        ValueView::Unsigned(d[0] as u64),
    ).leaf("icmp.code"@, a + 1, a + 2, ValueView::Unsigned(d[1] as u64)).leaf(
        "icmp.checksum"@,
        a + 2,
        a + 4,
        ValueView::Unsigned(be16(d, 2) as u64),
    );
    checked(m, "icmp.checksum.status"@, a + 2, a + 4, status)
}

proof fn head_nests(d: Seq<u8>, status: u64, m: Model)
    requires
        begins(d, m),
        4 <= d.len(),
    ensures
        ({
            let x = head(d, status, m);
            &&& wrote(m, x, m.base, m.base + d.len())
            &&& x.trace.depth == m.trace.depth + 1
            &&& opened(x, m.trace.depth, m.count(), m.source, m.base)
            &&& fits_all(x, m.base, m.base + d.len())
        }),
{
    broadcast use {keeping_nested, moving};

}

proof fn head_stays(d: Seq<u8>, status: u64, m: Model, n: int)
    requires
        ready(d, m, n),
        4 <= d.len(),
        unasked(m.options) ==> no_verdict(status),
    ensures
        within(m, head(d, status, m), n),
{
    control_names();
    verdict_names();
    nothing_written(m, n);
    broadcast use keeping_inside;

}

proof fn error_fields_nest(d: Seq<u8>, m: Model, info: Seq<char>)
    requires
        fits_all(m, m.base, m.base + d.len()),
        8 <= d.len(),
    ensures
        ({
            let x = error_fields(d, m).set_info(info);
            &&& wrote(m, x, m.base, m.base + d.len())
            &&& x.trace.depth == m.trace.depth
        }),
{
    broadcast use {keeping_nested, moving};

}

proof fn error_fields_stay(m0: Model, d: Seq<u8>, m: Model, info: Seq<char>, n: int)
    requires
        within(m0, m, n),
        0 <= m0.base,
        m0.base + 8 <= space(m0, n),
    ensures
        within(m0, error_fields(d, m).set_info(info), n),
{
    control_names();
    broadcast use keeping_inside;

}

proof fn message_nests(d: Seq<u8>, m: Model, deep: u8, n: int)
    requires
        begins(d, m),
        ready(d, m, n),
        m.trace.depth < 180 + 2 * deep,
        deep == m.nesting,
    ensures
        nests(d, m, layer_at(d, m, deep)),
    decreases 3 - deep, 1int,
{
    let a = m.base;
    let k = d.len() as int;
    assert(wrote(m, m, a, a + k));
    if k >= 4 {
        let (ty, code) = (d[0], d[1]);
        let kind = named_or(ICMP_TYPES@, ty as u64, "Unknown"@);
        let status = status_of(d, m);
        head_nests(d, status, m);
        head_stays(d, status, m, n);
        let h = head(d, status, m);
        if is_error(ty) && k >= 8 {
            let info = detail_of(ty, code, kind);
            let z = error_fields(d, h).set_info(info);
            error_fields_nest(d, h, info);
            error_fields_stay(m, d, h, info, n);
            wrote_on(m, h, z, a, a + k, a, a + k);
            within_facts(m, z, n);
            within_counts(m, z, n);
            within_tidy(m, z, n);
            let rest = d.subrange(8, k);
            let inner = if deep < MAX_NESTING {
                quote(rest, a + 8, deep, z)
            } else {
                z
            };
            if deep < MAX_NESTING {
                let next = (deep + 1) as u8;
                assert(fits_all(z, a + 8, a + 8 + rest.len()));
                quoted_nests(4, rest, a + 8, Proto::Ipv4, a + 8, None, next, z, n);
                wrote_on(m, z, inner, a, a + k, a + 8, a + k);
                alike_itself(z);
                quote_agrees(Seq::empty(), rest, a + 8, deep, z, z);
            }
            let w = inner.with_summary(z.summary).with_addrs(z.addrs).truncate_protocols(
                z.protocols.len() as int,
            );
            assert(wrote(m, w.end(), a, a + k)) by {
                broadcast use {keeping_nested, moving};

            }
            assert(wrote(m, z.end(), a, a + k)) by {
                broadcast use {keeping_nested, moving};

            }
        } else {
            assert(nests(d, m, layer_at(d, m, deep))) by {
                broadcast use {keeping_nested, moving};

            }
        }
    }
}

pub proof fn layer_nests(d: Seq<u8>, m: Model, n: int)
    requires
        begins(d, m),
        ready(d, m, n),
        m.trace.depth < 180,
    ensures
        nests(d, m, layer(d, m)),
{
    message_nests(d, m, m.nesting, n);
}

} // verus!

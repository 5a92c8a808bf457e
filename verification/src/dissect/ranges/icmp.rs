//! ICMP, and the packets that its messages quote.

use vstd::prelude::*;

use super::link::data_stays_inside;
use super::names::{control_names, unasked};
use super::network::ipv4_stays_inside;
use super::transport::{checked_stays, tcp_stays_inside, udp_stays_inside};
use super::{
    hands_on, keeping_inside, nothing_written, ready, ready_elsewhere, space, within,
    within_chain, within_elsewhere, within_facts,
};
use crate::bytes::be16;
use crate::dissect::ctx::{Model, Proto};
use crate::dissect::node::ValueView;
use crate::dissect::proto::checked;
use crate::dissect::proto::icmp::{
    detail_of, error_fields, is_error, layer, layer_at, quote, quoted, quoted_layer, quoted_slice,
    status_of, MAX_NESTING,
};
use crate::dissect::registry::named_or;
use crate::dissect::reporting::verdicts::no_verdict;
use crate::dissect::tables::ICMP_TYPES;
use crate::dissect::reassembly::tidy;

verus! {

proof fn error_fields_stay(m0: Model, d: Seq<u8>, m: Model, n: int)
    requires
        within(m0, m, n),
        0 <= m0.base,
        m0.base + 8 <= space(m0, n),
    ensures
        within(m0, error_fields(d, m), n),
{
    broadcast use keeping_inside;

    control_names();
}

pub proof fn quoted_layer_stays(proto: Proto, slice: Seq<u8>, m: Model, level: u8, n: int)
    requires
        ready(slice, m, n),
        0 < level == m.nesting <= MAX_NESTING,
    ensures
        within(m, quoted_layer(proto, slice, m, level).0, n),
    decreases 3 - level, 2int,
{
    match proto {
        Proto::Ipv4 => ipv4_stays_inside(slice, m, n),
        Proto::Tcp => tcp_stays_inside(slice, m, n),
        Proto::Udp => udp_stays_inside(slice, m, n),
        Proto::Icmp => message_stays(slice, m, level, n),
        _ => data_stays_inside(slice, m, n),
    }
}

pub proof fn quoted_stays(
    k: nat,
    d: Seq<u8>,
    base: int,
    proto: Proto,
    offset: int,
    len: Option<usize>,
    level: u8,
    m: Model,
    n: int,
)
    requires
        0 <= n,
        0 <= base <= offset <= base + d.len() <= space(m, n),
        hands_on(m, n),
        m.extra.len() < 255,
        tidy(m.state.reassembly),
        0 < level,
    ensures
        within(
            m,
            quoted(k, d, base, m.source, proto, offset, len, level, m).with_base(
                m.base,
            ).nested(m.nesting),
            n,
        ),
    decreases 3 - level, 2 + k,
{
    control_names();
    let q = quoted(k, d, base, m.source, proto, offset, len, level, m);
    if k == 0 || level > MAX_NESTING {
        nothing_written(m, n);
        reveal(within);
        reveal(Model::with_base);
        reveal(Model::nested);
    } else {
        let end = base + d.len();
        let slice = quoted_slice(d, base, offset, len);
        let inner = m.nested(level).with_base(offset);
        ready_elsewhere(slice, m, offset, level, n);
        quoted_layer_stays(proto, slice, inner, level, n);
        let (after, e) = quoted_layer(proto, slice, inner, level);
        match e {
            Some(e) => {
                assert(within(inner, q, n)) by {
                    broadcast use keeping_inside;

                }
                within_elsewhere(m, offset, level, q, n);
            },
            None => {
                let y = after.next_taken();
                assert(within(inner, y, n)) by {
                    broadcast use keeping_inside;

                }
                within_facts(inner, y, n);
                let follows = match after.next {
                    Some(h) => h.source == m.source && base <= h.offset < end,
                    None => false,
                };
                if follows {
                    let h = after.next->0;
                    assert(y.source == m.source && y.extra == m.extra && y.base == offset
                        && y.nesting == level) by {
                        reveal(within);
                        reveal(Model::with_base);
                        reveal(Model::nested);
                    }
                    assert(tidy(inner.state.reassembly)) by {
                        reveal(Model::with_base);
                        reveal(Model::nested);
                    }
                    quoted_stays(
                        (k - 1) as nat,
                        d,
                        base,
                        h.proto,
                        h.offset as int,
                        h.len,
                        level,
                        y,
                        n,
                    );
                    let back = q.with_base(y.base).nested(y.nesting);
                    within_chain(inner, y, back, n);
                    within_elsewhere(m, offset, level, back, n);
                    assert(back.with_base(m.base).nested(m.nesting) == q.with_base(m.base).nested(
                        m.nesting,
                    )) by {
                        reveal(Model::with_base);
                        reveal(Model::nested);
                    }
                } else {
                    within_elsewhere(m, offset, level, q, n);
                }
            },
        }
    }
}

proof fn message_stays(d: Seq<u8>, m: Model, level: u8, n: int)
    requires
        ready(d, m, n),
        level == m.nesting,
    ensures
        within(m, layer_at(d, m, level).0, n),
    decreases 3 - level, 1int,
{
    broadcast use keeping_inside;

    control_names();
    nothing_written(m, n);
    let a = m.base;
    let k = d.len() as int;
    assert forall|x: Model, status: u64|
        within(m, x, n) && (unasked(m.options) ==> no_verdict(status)) && k >= 4
            implies #[trigger] within(
        m,
        checked(x, "icmp.checksum.status"@, a + 2, a + 4, status),
        n,
    ) by {
        checked_stays(m, x, n, "icmp.checksum.status"@, a + 2, a + 4, status);
    }
    assert forall|x: Model|
        within(m, x, n) && k >= 8 implies #[trigger] within(m, error_fields(d, x), n) by {
        error_fields_stay(m, d, x, n);
    }
    assert forall|x: Model|
        within(m, x, n) && k >= 8 && level < MAX_NESTING implies #[trigger] within(
        m,
        quote(d.subrange(8, k), a + 8, level, x),
        n,
    ) by {
        within_facts(m, x, n);
        quoted_stays(
            4,
            d.subrange(8, k),
            a + 8,
            Proto::Ipv4,
            a + 8,
            None,
            (level + 1) as u8,
            x,
            n,
        );
        let q = quote(d.subrange(8, k), a + 8, level, x);
        within_chain(m, x, q, n);
    }
    if k >= 4 {
        let (ty, code) = (d[0], d[1]);
        let head = m.set_protocol("icmp"@).begin("icmp"@, a, a + k).leaf(
            "icmp.type"@,
            a,
            a + 1,
            ValueView::Unsigned(ty as u64),
        ).leaf("icmp.code"@, a + 1, a + 2, ValueView::Unsigned(code as u64)).leaf(
            "icmp.checksum"@,
            a + 2,
            a + 4,
            ValueView::Unsigned(be16(d, 2) as u64),
        );
        assert(within(m, head, n));
        let told = checked(head, "icmp.checksum.status"@, a + 2, a + 4, status_of(d, m));
        assert(within(m, told, n));
        if is_error(ty) && k >= 8 {
            let kind = named_or(ICMP_TYPES@, ty as u64, "Unknown"@);
            let shown = error_fields(d, told).set_info(detail_of(ty, code, kind));
            assert(within(m, shown, n));
            if k > 8 && level < MAX_NESTING {
                assert(within(m, quote(d.subrange(8, k), a + 8, level, shown), n));
            }
        }
    }
}

pub proof fn stays_inside(d: Seq<u8>, m: Model, n: int)
    requires
        ready(d, m, n),
    ensures
        within(m, layer(d, m).0, n),
{
    message_stays(d, m, m.nesting, n);
}

} // verus!

//! Where the bytes behind a header go.

use vstd::prelude::*;

use super::network::{ipv4_shows_its_header, stands_for_number};
use super::{bytes_at, passes, two, writing};
use crate::bytes::be16;
use crate::dissect::ctx::{Handoff, Model, Proto};
use crate::dissect::node::ValueView;
use crate::dissect::proto::tcp::{hand_on, next_by_payload};
use crate::dissect::proto::{addressable, ipv4};
use crate::dissect::reassembly::{added, FragInfo, FragKeyView, FragResultView};
use crate::dissect::stream::desegment::{prefix_for, PrefixView};
use crate::dissect::stream::table::LookupView;
use crate::dissect::stream::tcp::{no_findings, Findings};
use crate::text::{dec, hex_pad};

verus! {

// ---- fragments ------------------------------------------------------------------

/// All but the rows and the finding that a frame is known by stay as they are.
spec fn only_rows_differ(m: Model, after: Model) -> bool {
    after == (Model { trace: after.trace, summary: after.summary, ..m })
}

proof fn fragment_rows_only(f: Seq<FragInfo>, i: int, m: Model)
    ensures
        only_rows_differ(m, ipv4::fragment_rows(f, i, m)),
    decreases f.len() - i,
{
    if 0 <= i < f.len() {
        let (from, to) = (f[i].offset as int, f[i].offset + f[i].len);
        let next = m.leaf_text(
            "ip.fragment"@,
            from,
            to,
            ValueView::Empty,
            "[Frame: "@ + dec(f[i].frame as int) + ", payload: "@ + dec(from) + "-"@ + dec(to)
                + " ("@ + dec(f[i].len as int) + " bytes)]"@,
        );
        assert(only_rows_differ(m, next)) by {
            reveal(Model::leaf_text);
            reveal(Model::record);
        }
        fragment_rows_only(f, i + 1, next);
    }
}

proof fn fragments_go_on(
    m: Model,
    key: FragKeyView,
    offset: usize,
    more: bool,
    payload: Seq<u8>,
    head: int,
    next: Proto,
)
    requires
        m.nesting == 0,
        m.extra.len() < 255,
    ensures
        ({
            let (memory, result) = added(
                m.state.reassembly,
                key,
                offset,
                more,
                payload,
                m.frame_number,
                m.ts,
            );
            let after = ipv4::fragment(m, key, offset, more, payload, head, next);
            &&& after.state.reassembly == memory
            &&& result matches FragResultView::Complete { data, .. } ==> {
                &&& after.extra == m.extra.push(data)
                &&& after.next matches Some(h) && h.proto == next && h.source == m.extra.len() + 1
                    && h.offset == 0 && h.len is None
            }
            &&& !(result is Complete) ==> after.extra == m.extra && after.next == Some(
                Handoff {
                    proto: Proto::Data,
                    source: m.source,
                    offset: (m.base + head) as usize,
                    len: Some(payload.len() as usize),
                },
            )
        }),
{
    reveal(Model::add_fragment);
    reveal(Model::add_source);
    reveal(Model::in_source);
    reveal(Model::call_next_in_source);
    reveal(Model::call_next_bounded);
    reveal(Model::begin_text);
    reveal(Model::leaf_text);
    reveal(Model::leaf);
    reveal(Model::end);
    reveal(Model::record);
    assert forall|f: Seq<FragInfo>, x: Model| only_rows_differ(
        x,
        #[trigger] ipv4::fragment_rows(f, 0, x),
    ) by {
        fragment_rows_only(f, 0, x);
    }
}

/// A fragment without options is collected under its addresses, its id and its
/// protocol, at eight times the offset that its header gives, and as the last
/// one unless its header says that more follow. The datagram that it
/// completes goes on as a data source of its own.
#[verifier::rlimit(60)]
pub proof fn fragments_are_collected(d: Seq<u8>, m: Model)
    requires
        addressable(d, m),
        0 <= m.base,
        d.len() >= 20,
        d[0] == 0x45,
        two(d, 6) % 0x4000 != 0,
        20 <= two(d, 2) <= d.len(),
        m.nesting == 0,
        m.extra.len() < 255,
    ensures
        ({
            let key = FragKeyView {
                src: bytes_at(d, 12, 4),
                dst: bytes_at(d, 16, 4),
                id: two(d, 4) as u16,
                proto: d[9],
            };
            let offset = two(d, 6) % 0x2000 * 8;
            let more = two(d, 6) / 0x2000 % 2 == 1;
            let payload = d.subrange(20, two(d, 2) as int);
            let (memory, result) = added(
                m.state.reassembly,
                key,
                offset as usize,
                more,
                payload,
                m.frame_number,
                m.ts,
            );
            let (after, e) = ipv4::layer(d, m);
            &&& e is None
            &&& after.state.reassembly == memory
            &&& result matches FragResultView::Complete { data, .. } ==> {
                &&& after.extra == m.extra.push(data)
                &&& after.next matches Some(h) && stands_for_number(d[9], h.proto) && h.source
                    == m.extra.len() + 1 && h.offset == 0 && h.len is None
            }
            &&& !(result is Complete) ==> passes(
                m,
                after,
                Proto::Data,
                20,
                Some(two(d, 2) - 20),
            ) && after.extra == m.extra
        }),
{
    broadcast use writing;

    let first = d[0];
    let flags = be16(d, 6);
    assert(first >> 4 == 4 && (first & 0x0f) == 5) by (bit_vector)
        requires
            first == 0x45u8,
    ;
    assert(two(d, 6) == flags);
    assert((flags & 0x2000 != 0) == (flags / 0x2000 % 2 == 1) && flags & 0x1fff == flags % 0x2000
        && (flags % 0x4000 != 0 ==> flags & 0x2000 != 0 || flags & 0x1fff != 0)) by (bit_vector);
    let status = ipv4::status_of(d, m, 20);
    ipv4_shows_its_header(d, m, 20, status);
    let lead = ipv4::header_fields(d, m, 20, status);
    let named = crate::dissect::registry::named_or(
        crate::dissect::tables::IPPROTOS@,
        d[9] as u64,
        "Unknown"@,
    );
    let next = crate::dissect::proto::next_by_ipproto(d[9]);
    assert(lead.state == m.state && lead.nesting == m.nesting && lead.extra == m.extra
        && lead.frame_number == m.frame_number && lead.ts == m.ts);
    let key = FragKeyView {
        src: d.subrange(12, 16),
        dst: d.subrange(16, 20),
        id: be16(d, 4),
        proto: d[9],
    };
    let offset = ((flags & 0x1fff) * 8) as usize;
    let more = flags & 0x2000 != 0;
    let payload = d.subrange(20, two(d, 2) as int);
    let other = if next == Proto::Data {
        lead.set_info(named + " ("@ + dec(d[9] as int) + ")"@)
    } else {
        lead
    };
    let told = other.set_info(
        "Fragmented IP protocol (proto="@ + named + " "@ + dec(d[9] as int) + ", off="@ + dec(
            (flags & 0x1fff) * 8,
        ) + ", ID="@ + hex_pad(be16(d, 4) as int, 4) + ")"@,
    );
    fragments_go_on(told, key, offset, more, payload, 20, next);
    let gone = ipv4::fragment(told, key, offset, more, payload, 20, next);
    let ip = ipv4::own_row(d, m);
    assert(ipv4::layer(d, m).0 == gone.end_at(ip, m.base + 20));
    assert(gone.end_at(ip, m.base + 20) == (Model {
        trace: gone.end_at(ip, m.base + 20).trace,
        ..gone
    })) by {
        reveal(Model::end_at);
    }
}

// ---- segments -------------------------------------------------------------------

/// What a segment carries goes on from behind its header, to the protocol that
/// the payload or the ports tell; nothing is handed on where there is nothing.
pub proof fn segments_hand_on_their_payload(
    m: Model,
    tcp: int,
    head: int,
    payload: Seq<u8>,
    sport: u16,
    dport: u16,
    f: Findings,
    reset: bool,
)
    requires
        0 <= tcp < m.count(),
        0 <= m.base,
        0 <= head,
        m.base + head <= usize::MAX,
    ensures
        ({
            let after = hand_on(m, tcp, head, payload, sport, dport, None, f, reset);
            &&& payload.len() > 0 ==> passes(
                m,
                after,
                next_by_payload(payload, sport, dport),
                head,
                None,
            )
            &&& payload.len() == 0 ==> after.next == m.next
        }),
{
    broadcast use writing;

}

/// Bytes held for the direction go in front of the payload, as a data source
/// of their own, to the protocol that asked for them.
pub proof fn held_bytes_go_in_front(
    m: Model,
    tcp: int,
    head: int,
    payload: Seq<u8>,
    sport: u16,
    dport: u16,
    look: LookupView,
)
    requires
        0 <= tcp < m.count(),
        payload.len() > 0,
        m.extra.len() < 255,
    ensures
        ({
            let after = hand_on(
                m,
                tcp,
                head,
                payload,
                sport,
                dport,
                Some(look),
                no_findings(),
                false,
            );
            let held = prefix_for(m.state.desegment, look.id, look.direction, payload, m.ts);
            held matches PrefixView::Combined { bytes, origin } ==> {
                &&& after.extra == m.extra.push(bytes)
                &&& after.origin == Some(origin)
                &&& after.next == Some(
                    Handoff {
                        proto: origin.proto,
                        source: (m.extra.len() + 1) as u8,
                        offset: 0,
                        len: None,
                    },
                )
            }
        }),
{
    broadcast use writing;

    reveal(Model::take_held);
    reveal(Model::with_origin);
    reveal(Model::add_source);
    reveal(Model::call_next_in_source);
    reveal(Model::leaf);
    reveal(Model::end_at);
}

} // verus!

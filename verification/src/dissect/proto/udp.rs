//! User Datagram Protocol (RFC 768).

use vstd::prelude::*;

use crate::bytes;
use crate::bytes::{be16, get_be16};
use crate::dissect::ctx::{Ctx, Model, Proto};
use crate::dissect::cursor::DissectError;
use crate::dissect::node::{Value, ValueView};
use crate::dissect::stream::{endpoints, endpoints_of};
use crate::text;
use crate::text::dec;

use super::{
    addressable, checked, error_of, first_short, judge, report_checksum, segment_checksum,
    shortfall, transport_checksum, verdict, Outcome, CK_NOT_PRESENT, CK_UNVERIFIED,
};

verus! {

/// Widths of the header fields.
pub const HEADER: [usize; 4] = [2, 2, 2, 2];

/// The dissector for a pair of ports.
pub open spec fn next_by_ports(sport: u16, dport: u16) -> Proto {
    if sport == 53 || dport == 53 || sport == 5353 || dport == 5353 {
        Proto::Dns
    } else if sport == 67 || dport == 67 || sport == 68 || dport == 68 {
        Proto::Dhcp
    } else {
        Proto::Data
    }
}

/// The checksum status: a zero checksum is none, and one that covers bytes
/// that were not captured cannot be verified.
pub open spec fn status_of(d: Seq<u8>, m: Model) -> u64 {
    let len = be16(d, 4) as int;
    if be16(d, 6) == 0 {
        CK_NOT_PRESENT
    } else if !m.options.validate_transport_checksums || d.len() < len {
        CK_UNVERIFIED
    } else {
        verdict(segment_checksum(m, 17, d.subrange(0, len)))
    }
}

/// The frame's conversation, for a datagram that is not quoted in another.
pub open spec fn flow(m: Model, sport: u16, dport: u16) -> (Model, Option<u32>) {
    match m.addrs {
        Some(a) => if m.nesting == 0 {
            let ends = endpoints_of(a, sport, dport);
            let (m, look) = m.look_up(ends.0, ends.1, 17, false);
            (m.with_stream(Some((look.id, look.direction))), Some(look.id))
        } else {
            (m, None)
        },
        None => (m, None),
    }
}

/// The UDP layer.
pub open spec fn layer(d: Seq<u8>, m: Model) -> Outcome {
    let a = m.base;
    let n = d.len() as int;
    if n < 8 {
        (m, Some(shortfall(a, n, HEADER@)))
    } else {
        let sport = be16(d, 0);
        let dport = be16(d, 2);
        let len = be16(d, 4);
        let checksum = be16(d, 6);
        if len < 8 {
            (m, Some(DissectError::Invalid { at: (a + 4) as usize, what: "UDP length (< 8)" }))
        } else {
            let status = status_of(d, m);
            let info = dec(sport as int) + " → "@ + dec(dport as int) + " Len="@ + dec(len - 8);
            let (m, stream) = flow(m, sport, dport);
            let m = m.set_protocol("udp"@).set_info(info).begin("udp"@, a, a + 8).leaf(
                "udp.srcport"@,
                a,
                a + 2,
                ValueView::Unsigned(sport as u64),
            ).leaf("udp.dstport"@, a + 2, a + 4, ValueView::Unsigned(dport as u64)).leaf(
                "udp.length"@,
                a + 4,
                a + 6,
                ValueView::Unsigned(len as u64),
            ).leaf("udp.checksum"@, a + 6, a + 8, ValueView::Unsigned(checksum as u64));
            let m = checked(m, "udp.checksum.status"@, a + 6, a + 8, status);
            let m = match stream {
                Some(id) => m.leaf("udp.stream"@, 0, 0, ValueView::Unsigned(id as u64)),
                None => m,
            };
            let m = m.end();
            // The payload is the next layer; it is not repeated as a child.
            let payload = if len - 8 < n - 8 {
                len - 8
            } else {
                n - 8
            };
            (
                if payload > 0 {
                    m.call_next_bounded(next_by_ports(sport, dport), 8, payload)
                } else {
                    m
                },
                None,
            )
        }
    }
}

pub fn dissect(data: &[u8], ctx: &mut Ctx) -> (r: Result<(), DissectError>)
    requires
        addressable(data@, old(ctx)@),
    ensures
        (final(ctx)@, error_of(r)) == layer(data@, old(ctx)@),
{
    let a: usize = ctx.base();
    let n: usize = data.len();
    if n < 8 {
        return Err(first_short(a, n, &HEADER));
    }
    let sport: u16 = get_be16(data, 0);
    let dport: u16 = get_be16(data, 2);
    let len: u16 = get_be16(data, 4);
    let checksum: u16 = get_be16(data, 6);
    if len < 8 {
        return Err(DissectError::Invalid { at: a + 4, what: "UDP length (< 8)" });
    }
    let status: u64 = if checksum == 0 {
        CK_NOT_PRESENT
    } else if !ctx.options().validate_transport_checksums || n < len as usize {
        // Truncated (snaplen or an ICMP-quoted header): cannot be verified.
        CK_UNVERIFIED
    } else {
        judge(transport_checksum(ctx, 17, bytes::part(data, 0, len as usize)))
    };
    let mut stream: Option<u32> = None;
    if let Some(addrs) = ctx.net_addrs() {
        if ctx.nesting() == 0 {
            let ends = endpoints(addrs, sport, dport);
            let look = ctx.look_up(ends.0, ends.1, 17, false);
            ctx.set_stream(Some((look.id, look.direction)));
            stream = Some(look.id);
        }
    }
    ctx.set_protocol("udp");
    let mut info: String = text::dec_text(sport as u64);
    info.push_str(" → ");
    text::push_dec(&mut info, dport as u64);
    info.push_str(" Len=");
    text::push_dec(&mut info, (len - 8) as u64);
    ctx.set_info(info);
    let _ = ctx.begin("udp", a..a + 8);
    let _ = ctx.leaf("udp.srcport", a..a + 2, Value::Unsigned(sport as u64));
    let _ = ctx.leaf("udp.dstport", a + 2..a + 4, Value::Unsigned(dport as u64));
    let _ = ctx.leaf("udp.length", a + 4..a + 6, Value::Unsigned(len as u64));
    let _ = ctx.leaf("udp.checksum", a + 6..a + 8, Value::Unsigned(checksum as u64));
    report_checksum(ctx, "udp.checksum.status", a + 6, a + 8, status);
    if let Some(id) = stream {
        let _ = ctx.leaf("udp.stream", 0..0, Value::Unsigned(id as u64));
    }
    ctx.end();
    // The payload is the next layer; it is not repeated as a child here, so
    // selecting the UDP row highlights the header it actually describes.
    let payload: usize = if (len as usize) - 8 < n - 8 {
        len as usize - 8
    } else {
        n - 8
    };
    let next: Proto = if sport == 53 || dport == 53 || sport == 5353 || dport == 5353 {
        Proto::Dns
    } else if sport == 67 || dport == 67 || sport == 68 || dport == 68 {
        Proto::Dhcp
    } else {
        Proto::Data
    };
    if payload > 0 {
        ctx.call_next_bounded(next, 8, payload);
    }
    Ok(())
}

} // verus!

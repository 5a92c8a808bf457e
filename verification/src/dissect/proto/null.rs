//! DLT_NULL / DLT_LOOP (BSD and Npcap loopback): a 4-byte address family.

use vstd::prelude::*;

use crate::bytes::{be32, get_be32, get_le32, le32};
use crate::dissect::ctx::{Ctx, Model, Proto};
use crate::dissect::cursor::DissectError;
use crate::dissect::node::{Value, ValueView};

use super::{addressable, error_of, first_short, shortfall, Outcome};

verus! {

/// Widths of the header fields.
pub const HEADER: [usize; 1] = [4];

/// The dissector for an address family.
pub open spec fn next_by_family(family: u32) -> Proto {
    if family == 2 {
        Proto::Ipv4
    } else if family == 24 || family == 28 || family == 30 {
        Proto::Ipv6
    } else {
        Proto::Data
    }
}

/// The family is written in the capturing host's byte order; either is
/// accepted.
pub open spec fn family_of(d: Seq<u8>) -> u32 {
    if le32(d, 0) <= 0xff {
        le32(d, 0)
    } else {
        be32(d, 0)
    }
}

/// The loopback layer.
pub open spec fn layer(d: Seq<u8>, m: Model) -> Outcome {
    let a = m.base;
    if d.len() < 4 {
        (m, Some(shortfall(a, d.len() as int, HEADER@)))
    } else {
        let top = m.set_protocol("null"@);
        (
            top.begin("null"@, a, a + 4).leaf(
                "null.family"@,
                a,
                a + 4,
                ValueView::Unsigned(family_of(d) as u64),
            ).end_at(top.count(), a + 4).call_next(next_by_family(family_of(d)), 4),
            None,
        )
    }
}

pub fn dissect(data: &[u8], ctx: &mut Ctx) -> (r: Result<(), DissectError>)
    requires
        addressable(data@, old(ctx)@),
    ensures
        (final(ctx)@, error_of(r)) == layer(data@, old(ctx)@),
{
    let a: usize = ctx.base();
    if data.len() < 4 {
        return Err(first_short(a, data.len(), &HEADER));
    }
    let le: u32 = get_le32(data, 0);
    let family: u32 = if le <= 0xff {
        le
    } else {
        get_be32(data, 0)
    };
    ctx.set_protocol("null");
    let node: usize = ctx.begin("null", a..a + 4);
    let _ = ctx.leaf("null.family", a..a + 4, Value::Unsigned(family as u64));
    ctx.end_at(node, a + 4);
    let next: Proto = match family {
        2 => Proto::Ipv4,
        24 | 28 | 30 => Proto::Ipv6,
        _ => Proto::Data,
    };
    ctx.call_next(next, 4);
    Ok(())
}

} // verus!

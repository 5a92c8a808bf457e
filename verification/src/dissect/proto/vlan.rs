//! IEEE 802.1Q tag.

use vstd::prelude::*;

use crate::bytes::{be16, get_be16};
use crate::dissect::ctx::{Ctx, Model};
use crate::dissect::cursor::DissectError;
use crate::dissect::node::{Value, ValueView};
use crate::text;
use crate::text::dec;

use super::{
    addressable, error_of, ethertype_next, first_short, next_by_ethertype, shortfall, Outcome,
};

verus! {

/// Widths of the header fields.
pub const HEADER: [usize; 2] = [2, 2];

/// The 802.1Q layer.
pub open spec fn layer(d: Seq<u8>, m: Model) -> Outcome {
    let a = m.base;
    if d.len() < 4 {
        (m, Some(shortfall(a, d.len() as int, HEADER@)))
    } else {
        let tci = be16(d, 0);
        let etype = be16(d, 2);
        let pcp = tci >> 13;
        let dei = (tci >> 12) & 1 == 1;
        let id = tci & 0x0fff;
        let top = m.set_protocol("vlan"@);
        let text = "802.1Q Virtual LAN, PRI: "@ + dec(pcp as int) + ", DEI: "@ + dec(
            if dei {
                1
            } else {
                0
            },
        ) + ", ID: "@ + dec(id as int);
        (
            top.begin_text("vlan"@, a, a + 4, text).leaf(
                "vlan.priority"@,
                a,
                a + 2,
                ValueView::Unsigned(pcp as u64),
            ).leaf("vlan.dei"@, a, a + 2, ValueView::Bool(dei)).leaf(
                "vlan.id"@,
                a,
                a + 2,
                ValueView::Unsigned(id as u64),
            ).leaf("vlan.etype"@, a + 2, a + 4, ValueView::Unsigned(etype as u64)).end_at(
                top.count(),
                a + 4,
            ).call_next(next_by_ethertype(etype), 4),
            None,
        )
    }
}

pub fn dissect(data: &[u8], ctx: &mut Ctx) -> (r: Result<(), DissectError>)
    requires
        addressable(data@, old(ctx)@),
    ensures
        (final(ctx)@, error_of(r)) == layer(data@, old(ctx)@),
{
    let a: usize = ctx.base();
    if data.len() < 4 {
        return Err(first_short(a, data.len(), &HEADER));
    }
    let tci: u16 = get_be16(data, 0);
    let etype: u16 = get_be16(data, 2);
    let pcp: u16 = tci >> 13;
    let dei: bool = (tci >> 12) & 1 == 1;
    let id: u16 = tci & 0x0fff;
    ctx.set_protocol("vlan");
    let mut label: String = text::cat_dec("802.1Q Virtual LAN, PRI: ", pcp as u64, ", DEI: ");
    text::push_dec(
        &mut label,
        if dei {
            1
        } else {
            0
        },
    );
    label.push_str(", ID: ");
    text::push_dec(&mut label, id as u64);
    let node: usize = ctx.begin_text("vlan", a..a + 4, label.as_str());
    let _ = ctx.leaf("vlan.priority", a..a + 2, Value::Unsigned(pcp as u64));
    let _ = ctx.leaf("vlan.dei", a..a + 2, Value::Bool(dei));
    let _ = ctx.leaf("vlan.id", a..a + 2, Value::Unsigned(id as u64));
    let _ = ctx.leaf("vlan.etype", a + 2..a + 4, Value::Unsigned(etype as u64));
    ctx.end_at(node, a + 4);
    ctx.call_next(ethertype_next(etype), 4);
    Ok(())
}

} // verus!

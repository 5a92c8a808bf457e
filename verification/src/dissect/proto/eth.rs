//! Ethernet II and IEEE 802.3 framing.

use vstd::prelude::*;

use crate::bytes::{be16, get_be16};
use crate::dissect::ctx::{Ctx, Model, Proto};
use crate::dissect::cursor::DissectError;
use crate::dissect::node::{Value, ValueView};
use crate::dissect::registry::{enum_name, named};
use crate::dissect::tables::ETHERTYPES;
use crate::dissect::{Addr, AddrView};
use crate::text;
use crate::text::hex_pad;

use super::{
    addressable, error_of, ethertype_next, first_short, mac_at, next_by_ethertype, shortfall,
    Outcome,
};

verus! {

/// Widths of the header fields.
pub const HEADER: [usize; 3] = [6, 6, 2];

/// The Ethernet layer.
pub open spec fn layer(d: Seq<u8>, m: Model) -> Outcome {
    let a = m.base;
    if d.len() < 14 {
        (m, Some(shortfall(a, d.len() as int, HEADER@)))
    } else {
        let dst = d.subrange(0, 6);
        let src = d.subrange(6, 12);
        let tl = be16(d, 12);
        let top = m.set_protocol("eth"@).between(AddrView::Mac(src), AddrView::Mac(dst));
        let eth = top.count();
        let m = top.begin("eth"@, a, a + 14).leaf("eth.dst"@, a, a + 6, ValueView::Mac(dst)).leaf(
            "eth.src"@,
            a + 6,
            a + 12,
            ValueView::Mac(src),
        );
        if tl <= 1500 {
            // IEEE 802.3 length field: the payload is LLC, bounded by that
            // length.
            (
                m.leaf("eth.len"@, a + 12, a + 14, ValueView::Unsigned(tl as u64)).end_at(
                    eth,
                    a + 14,
                ).call_next_bounded(Proto::Llc, 14, tl as int),
                None,
            )
        } else {
            let m = m.leaf("eth.type"@, a + 12, a + 14, ValueView::Unsigned(tl as u64)).end_at(
                eth,
                a + 14,
            );
            let m = if named(ETHERTYPES@, tl as u64) is None {
                m.set_info("Ethertype 0x"@ + hex_pad(tl as int, 4))
            } else {
                m
            };
            (m.call_next(next_by_ethertype(tl), 14), None)
        }
    }
}

pub fn dissect(data: &[u8], ctx: &mut Ctx) -> (r: Result<(), DissectError>)
    requires
        addressable(data@, old(ctx)@),
    ensures
        (final(ctx)@, error_of(r)) == layer(data@, old(ctx)@),
{
    let a: usize = ctx.base();
    if data.len() < 14 {
        return Err(first_short(a, data.len(), &HEADER));
    }
    let dst: [u8; 6] = mac_at(data, 0);
    let src: [u8; 6] = mac_at(data, 6);
    let tl: u16 = get_be16(data, 12);
    ctx.set_protocol("eth");
    ctx.set_addresses(Addr::Mac(src), Addr::Mac(dst));
    let eth: usize = ctx.begin("eth", a..a + 14);
    let _ = ctx.leaf("eth.dst", a..a + 6, Value::Mac(dst));
    let _ = ctx.leaf("eth.src", a + 6..a + 12, Value::Mac(src));
    if tl <= 1500 {
        // IEEE 802.3 length field: the payload is LLC, bounded by that length
        // so any trailer after it is left for the driver to account for.
        let _ = ctx.leaf("eth.len", a + 12..a + 14, Value::Unsigned(tl as u64));
        ctx.end_at(eth, a + 14);
        ctx.call_next_bounded(Proto::Llc, 14, tl as usize);
        return Ok(());
    }
    let _ = ctx.leaf("eth.type", a + 12..a + 14, Value::Unsigned(tl as u64));
    ctx.end_at(eth, a + 14);
    if enum_name(&ETHERTYPES, tl as u64).is_none() {
        let mut info: String = text::owned("Ethertype 0x");
        text::push_hex(&mut info, tl as u64, 4);
        ctx.set_info(info);
    }
    ctx.call_next(ethertype_next(tl), 14);
    Ok(())
}

} // verus!

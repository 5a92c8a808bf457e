//! IEEE 802.2 LLC with the SNAP extension.

use vstd::prelude::*;

use crate::bytes::{be16, be24, get_be16, get_be24};
use crate::dissect::ctx::{Ctx, Model, Proto};
use crate::dissect::cursor::DissectError;
use crate::dissect::node::{Value, ValueView};
use crate::text;
use crate::text::hex_pad;

use super::{
    addressable, error_of, ethertype_next, first_short, next_by_ethertype, shortfall, Outcome,
};

verus! {

/// Widths of the header fields.
pub const HEADER: [usize; 3] = [1, 1, 1];

/// Width of the second control byte.
pub const CONTROL: [usize; 1] = [1];

/// Widths of the SNAP fields.
pub const SNAP: [usize; 2] = [3, 2];

/// The LLC layer. I and S frames (low two control bits not both set) carry a
/// 16-bit control field.
pub open spec fn layer(d: Seq<u8>, m: Model) -> Outcome {
    let a = m.base;
    let n = d.len() as int;
    if n < 3 {
        (m, Some(shortfall(a, n, HEADER@)))
    } else if d[2] & 0x03 != 0x03 && n < 4 {
        (m, Some(shortfall(a + 3, 0, CONTROL@)))
    } else {
        let (dsap, ssap, ctrl) = (d[0], d[1], d[2]);
        let h: int = if ctrl & 0x03 != 0x03 {
            4
        } else {
            3
        };
        let top = m.set_protocol("llc"@);
        let llc = top.count();
        let m = top.begin("llc"@, a, a).leaf(
            "llc.dsap"@,
            a,
            a + 1,
            ValueView::Unsigned(dsap as u64),
        ).leaf("llc.ssap"@, a + 1, a + 2, ValueView::Unsigned(ssap as u64)).leaf(
            "llc.control"@,
            a + 2,
            a + h,
            ValueView::Unsigned(ctrl as u64),
        );
        if dsap == 0xaa && ssap == 0xaa && ctrl == 0x03 {
            if n < h + 5 {
                (m, Some(shortfall(a + h, n - h, SNAP@)))
            } else {
                let oui = be24(d, h);
                let pid = be16(d, h + 3);
                let m = m.leaf("llc.oui"@, a + h, a + h + 3, ValueView::Unsigned(oui as u64));
                let m = if oui == 0 {
                    m.leaf(
                        "llc.type"@,
                        a + h + 3,
                        a + h + 5,
                        ValueView::Unsigned(pid as u64),
                    ).call_next(next_by_ethertype(pid), h + 5)
                } else {
                    m.leaf(
                        "llc.pid"@,
                        a + h + 3,
                        a + h + 5,
                        ValueView::Unsigned(pid as u64),
                    ).set_info(
                        "SNAP OUI 0x"@ + hex_pad(oui as int, 6) + " PID 0x"@ + hex_pad(
                            pid as int,
                            4,
                        ),
                    ).call_next(Proto::Data, h + 5)
                };
                let text = "Logical-Link Control (SNAP), OUI 0x"@ + hex_pad(oui as int, 6)
                    + ", PID 0x"@ + hex_pad(pid as int, 4);
                (m.set_text(llc, text).end_at(llc, a + h + 5), None)
            }
        } else {
            let text = "Logical-Link Control, DSAP 0x"@ + hex_pad(dsap as int, 2) + ", SSAP 0x"@
                + hex_pad(ssap as int, 2);
            let info = "LLC DSAP 0x"@ + hex_pad(dsap as int, 2) + " SSAP 0x"@ + hex_pad(
                ssap as int,
                2,
            );
            (
                m.set_text(llc, text).set_info(info).call_next(Proto::Data, h).end_at(llc, a + h),
                None,
            )
        }
    }
}

/// `before`, `n` in hex of at least `width` digits, `between`, and `k` in hex.
fn two_hex(before: &str, n: u64, width: usize, between: &str, k: u64, width2: usize) -> (r: String)
    requires
        width <= 16,
        width2 <= 16,
    ensures
        r@ == before@ + hex_pad(n as int, width as int) + between@ + hex_pad(
            k as int,
            width2 as int,
        ),
{
    let mut out: String = text::owned(before);
    text::push_hex(&mut out, n, width);
    out.push_str(between);
    text::push_hex(&mut out, k, width2);
    out
}

pub fn dissect(data: &[u8], ctx: &mut Ctx) -> (r: Result<(), DissectError>)
    requires
        addressable(data@, old(ctx)@),
    ensures
        (final(ctx)@, error_of(r)) == layer(data@, old(ctx)@),
{
    let a: usize = ctx.base();
    let n: usize = data.len();
    if n < 3 {
        return Err(first_short(a, n, &HEADER));
    }
    let dsap: u8 = data[0];
    let ssap: u8 = data[1];
    let ctrl: u8 = data[2];
    // I and S frames (low two control bits != 11) carry a 16-bit control field.
    let wide: bool = ctrl & 0x03 != 0x03;
    if wide && n < 4 {
        return Err(first_short(a + 3, 0, &CONTROL));
    }
    let h: usize = if wide {
        4
    } else {
        3
    };
    ctx.set_protocol("llc");
    let node: usize = ctx.begin("llc", a..a);
    let _ = ctx.leaf("llc.dsap", a..a + 1, Value::Unsigned(dsap as u64));
    let _ = ctx.leaf("llc.ssap", a + 1..a + 2, Value::Unsigned(ssap as u64));
    let _ = ctx.leaf("llc.control", a + 2..a + h, Value::Unsigned(ctrl as u64));
    if dsap == 0xaa && ssap == 0xaa && ctrl == 0x03 {
        // SNAP: 3-byte OUI + 2-byte protocol id.
        if n < h + 5 {
            return Err(first_short(a + h, n - h, &SNAP));
        }
        let oui: u32 = get_be24(data, h);
        let pid: u16 = get_be16(data, h + 3);
        let _ = ctx.leaf("llc.oui", a + h..a + h + 3, Value::Unsigned(oui as u64));
        if oui == 0 {
            let _ = ctx.leaf("llc.type", a + h + 3..a + h + 5, Value::Unsigned(pid as u64));
            ctx.call_next(ethertype_next(pid), h + 5);
        } else {
            let _ = ctx.leaf("llc.pid", a + h + 3..a + h + 5, Value::Unsigned(pid as u64));
            ctx.set_info(two_hex("SNAP OUI 0x", oui as u64, 6, " PID 0x", pid as u64, 4));
            ctx.call_next(Proto::Data, h + 5);
        }
        let label: String = two_hex(
            "Logical-Link Control (SNAP), OUI 0x",
            oui as u64,
            6,
            ", PID 0x",
            pid as u64,
            4,
        );
        ctx.set_text(node, label.as_str());
        ctx.end_at(node, a + h + 5);
    } else {
        let label: String = two_hex(
            "Logical-Link Control, DSAP 0x",
            dsap as u64,
            2,
            ", SSAP 0x",
            ssap as u64,
            2,
        );
        ctx.set_text(node, label.as_str());
        ctx.set_info(two_hex("LLC DSAP 0x", dsap as u64, 2, " SSAP 0x", ssap as u64, 2));
        ctx.call_next(Proto::Data, h);
        ctx.end_at(node, a + h);
    }
    Ok(())
}

} // verus!

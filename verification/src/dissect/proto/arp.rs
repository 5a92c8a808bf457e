//! Address Resolution Protocol (RFC 826).

use vstd::prelude::*;

use crate::bytes;
use crate::bytes::{be16, get_be16};
use crate::dissect::ctx::{Ctx, Model};
use crate::dissect::cursor::DissectError;
use crate::dissect::node::{fmt_ipv4, fmt_mac, ipv4_text, mac_text, Value, ValueView};
use crate::text;
use crate::text::{dec, hex_pad};

use super::{addressable, error_of, first_short, ipv4_at, mac_at, shortfall, Outcome};

verus! {

/// Widths of the header fields.
pub const HEADER: [usize; 5] = [2, 2, 1, 1, 2];

/// Widths of the addresses in Ethernet/IPv4 ARP.
pub const ADDRESSES: [usize; 4] = [6, 4, 6, 4];

/// The Info column for Ethernet/IPv4 ARP.
pub open spec fn info_text(opcode: u16, sha: Seq<u8>, spa: Seq<u8>, tpa: Seq<u8>) -> Seq<char> {
    if opcode == 1 {
        if spa == tpa {
            "ARP Announcement for "@ + ipv4_text(spa)
        } else if spa == seq![0u8, 0, 0, 0] {
            "Who has "@ + ipv4_text(tpa) + "? (ARP Probe)"@
        } else {
            "Who has "@ + ipv4_text(tpa) + "? Tell "@ + ipv4_text(spa)
        }
    } else if opcode == 2 {
        ipv4_text(spa) + " is at "@ + mac_text(sha)
    } else {
        "ARP opcode "@ + dec(opcode as int)
    }
}

/// The ARP layer.
pub open spec fn layer(d: Seq<u8>, m: Model) -> Outcome {
    let a = m.base;
    let n = d.len() as int;
    if n < 8 {
        (m, Some(shortfall(a, n, HEADER@)))
    } else {
        let hw_type = be16(d, 0);
        let proto_type = be16(d, 2);
        let hw = d[4];
        let pr = d[5];
        let opcode = be16(d, 6);
        let top = m.set_protocol("arp"@);
        let arp = top.count();
        let m = top.begin("arp"@, a, a).leaf(
            "arp.hw.type"@,
            a,
            a + 2,
            ValueView::Unsigned(hw_type as u64),
        ).leaf("arp.proto.type"@, a + 2, a + 4, ValueView::Unsigned(proto_type as u64)).leaf(
            "arp.hw.size"@,
            a + 4,
            a + 5,
            ValueView::Unsigned(hw as u64),
        ).leaf("arp.proto.size"@, a + 5, a + 6, ValueView::Unsigned(pr as u64)).leaf(
            "arp.opcode"@,
            a + 6,
            a + 8,
            ValueView::Unsigned(opcode as u64),
        );
        if hw_type == 1 && proto_type == 0x0800 && hw == 6 && pr == 4 {
            if n < 28 {
                (m, Some(shortfall(a + 8, n - 8, ADDRESSES@)))
            } else {
                let sha = d.subrange(8, 14);
                let spa = d.subrange(14, 18);
                let tha = d.subrange(18, 24);
                let tpa = d.subrange(24, 28);
                (
                    m.leaf("arp.src.hw_mac"@, a + 8, a + 14, ValueView::Mac(sha)).leaf(
                        "arp.src.proto_ipv4"@,
                        a + 14,
                        a + 18,
                        ValueView::Ipv4(spa),
                    ).leaf("arp.dst.hw_mac"@, a + 18, a + 24, ValueView::Mac(tha)).leaf(
                        "arp.dst.proto_ipv4"@,
                        a + 24,
                        a + 28,
                        ValueView::Ipv4(tpa),
                    ).set_info(info_text(opcode, sha, spa, tpa)).end_at(arp, a + 28),
                    None,
                )
            }
        } else {
            let (x, y) = (hw as int, pr as int);
            if n < 8 + x + y + x + y {
                (
                    m,
                    Some(
                        shortfall(
                            a + 8,
                            n - 8,
                            seq![hw as usize, pr as usize, hw as usize, pr as usize],
                        ),
                    ),
                )
            } else {
                let p = a + 8;
                let info = "ARP hw type "@ + dec(hw_type as int) + ", proto 0x"@ + hex_pad(
                    proto_type as int,
                    4,
                ) + ", opcode "@ + dec(opcode as int);
                (
                    m.leaf("arp.src.hw"@, p, p + x, ValueView::Bytes).leaf(
                        "arp.src.proto"@,
                        p + x,
                        p + x + y,
                        ValueView::Bytes,
                    ).leaf("arp.dst.hw"@, p + x + y, p + x + y + x, ValueView::Bytes).leaf(
                        "arp.dst.proto"@,
                        p + x + y + x,
                        p + x + y + x + y,
                        ValueView::Bytes,
                    ).set_info(info).end_at(arp, p + x + y + x + y),
                    None,
                )
            }
        }
    }
}

fn info(opcode: u16, sha: [u8; 6], spa: [u8; 4], tpa: [u8; 4]) -> (r: String)
    ensures
        r@ == info_text(opcode, sha@, spa@, tpa@),
{
    let zero: [u8; 4] = [0, 0, 0, 0];
    assert(zero@ =~= seq![0u8, 0, 0, 0]);
    if opcode == 1 {
        if bytes::same(&spa, &tpa) {
            text::cat("ARP Announcement for ", fmt_ipv4(spa).as_str())
        } else if bytes::same(&spa, &zero) {
            let mut out: String = text::cat("Who has ", fmt_ipv4(tpa).as_str());
            out.push_str("? (ARP Probe)");
            out
        } else {
            let mut out: String = text::cat("Who has ", fmt_ipv4(tpa).as_str());
            out.push_str("? Tell ");
            out.push_str(fmt_ipv4(spa).as_str());
            out
        }
    } else if opcode == 2 {
        let mut out: String = fmt_ipv4(spa);
        out.push_str(" is at ");
        out.push_str(fmt_mac(sha).as_str());
        out
    } else {
        let mut out: String = text::owned("ARP opcode ");
        text::push_dec(&mut out, opcode as u64);
        out
    }
}

pub fn dissect(data: &[u8], ctx: &mut Ctx) -> (r: Result<(), DissectError>)
    requires
        addressable(data@, old(ctx)@),
    ensures
        (final(ctx)@, error_of(r)) == layer(data@, old(ctx)@),
{
    let a: usize = ctx.base();
    let n: usize = data.len();
    if n < 8 {
        return Err(first_short(a, n, &HEADER));
    }
    let hw_type: u16 = get_be16(data, 0);
    let proto_type: u16 = get_be16(data, 2);
    let hw: u8 = data[4];
    let pr: u8 = data[5];
    let opcode: u16 = get_be16(data, 6);
    ctx.set_protocol("arp");
    let node: usize = ctx.begin("arp", a..a);
    let _ = ctx.leaf("arp.hw.type", a..a + 2, Value::Unsigned(hw_type as u64));
    let _ = ctx.leaf("arp.proto.type", a + 2..a + 4, Value::Unsigned(proto_type as u64));
    let _ = ctx.leaf("arp.hw.size", a + 4..a + 5, Value::Unsigned(hw as u64));
    let _ = ctx.leaf("arp.proto.size", a + 5..a + 6, Value::Unsigned(pr as u64));
    let _ = ctx.leaf("arp.opcode", a + 6..a + 8, Value::Unsigned(opcode as u64));
    if hw_type == 1 && proto_type == 0x0800 && hw == 6 && pr == 4 {
        if n < 28 {
            return Err(first_short(a + 8, n - 8, &ADDRESSES));
        }
        let sha: [u8; 6] = mac_at(data, 8);
        let spa: [u8; 4] = ipv4_at(data, 14);
        let tha: [u8; 6] = mac_at(data, 18);
        let tpa: [u8; 4] = ipv4_at(data, 24);
        let _ = ctx.leaf("arp.src.hw_mac", a + 8..a + 14, Value::Mac(sha));
        let _ = ctx.leaf("arp.src.proto_ipv4", a + 14..a + 18, Value::Ipv4(spa));
        let _ = ctx.leaf("arp.dst.hw_mac", a + 18..a + 24, Value::Mac(tha));
        let _ = ctx.leaf("arp.dst.proto_ipv4", a + 24..a + 28, Value::Ipv4(tpa));
        ctx.set_info(info(opcode, sha, spa, tpa));
        ctx.end_at(node, a + 28);
    } else {
        let x: usize = hw as usize;
        let y: usize = pr as usize;
        if n < 8 + x + y + x + y {
            let widths: [usize; 4] = [x, y, x, y];
            assert(widths@ =~= seq![hw as usize, pr as usize, hw as usize, pr as usize]);
            return Err(first_short(a + 8, n - 8, &widths));
        }
        let p: usize = a + 8;
        let _ = ctx.leaf("arp.src.hw", p..p + x, Value::Bytes);
        let _ = ctx.leaf("arp.src.proto", p + x..p + x + y, Value::Bytes);
        let _ = ctx.leaf("arp.dst.hw", p + x + y..p + x + y + x, Value::Bytes);
        let _ = ctx.leaf("arp.dst.proto", p + x + y + x..p + x + y + x + y, Value::Bytes);
        let mut out: String = text::cat_dec("ARP hw type ", hw_type as u64, ", proto 0x");
        text::push_hex(&mut out, proto_type as u64, 4);
        out.push_str(", opcode ");
        text::push_dec(&mut out, opcode as u64);
        ctx.set_info(out);
        // Trailing bytes (Ethernet pads short frames to 60) belong to no
        // layer; the driver accounts for them once it can see the whole frame.
        ctx.end_at(node, p + x + y + x + y);
    }
    Ok(())
}

} // verus!

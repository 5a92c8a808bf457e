//! Internet Protocol version 6 (RFC 8200) with hop-by-hop, destination,
//! routing and fragment extension headers.

use vstd::prelude::*;

use crate::bytes;
use crate::bytes::{be16, be32, get_be16, get_be32};
use crate::dissect::ctx::{AddrsView, Ctx, Model, NetAddrs, Proto};
use crate::dissect::cursor::DissectError;
use crate::dissect::node::{Value, ValueView};
use crate::dissect::registry::{enum_name_or, named_or};
use crate::dissect::tables::IPPROTOS;
use crate::dissect::{Addr, AddrView};
use crate::text;
use crate::text::{dec, hex_pad};

use super::{
    addressable, bad_option, bad_option_text, cut, error_of, first_short, ipproto_next, ipv6_at,
    next_by_ipproto, shortfall, Outcome,
};

verus! {

/// Upper bound on chained extension headers; beyond this the packet is
/// malformed.
pub const MAX_EXT_HEADERS: usize = 16;

/// Width of the first header field.
pub const FIRST: [usize; 1] = [4];

/// Widths of the header fields behind it.
pub const REST: [usize; 5] = [2, 1, 1, 16, 16];

/// Widths of the fields of an options header.
pub const OPTIONS: [usize; 2] = [1, 1];

/// Widths of the fields of a routing header.
pub const ROUTING: [usize; 4] = [1, 1, 1, 1];

/// Widths of the fields of a fragment header.
pub const FRAGMENT: [usize; 4] = [1, 1, 2, 4];

// ---- options --------------------------------------------------------------------

/// One option at position `i` of the option bytes `o`, whose first byte sits
/// at absolute offset `at`. The frame after it, where reading stopped, and
/// the error if the option is cut short.
pub open spec fn option(o: Seq<u8>, i: int, at: int, m: Model) -> (
    Model,
    int,
    Option<DissectError>,
) {
    let p = at + i;
    let ty = o[i];
    let opt = m.count();
    let m = m.begin("ipv6.opt"@, p, p).leaf(
        "ipv6.opt.type"@,
        p,
        p + 1,
        ValueView::Unsigned(ty as u64),
    );
    if ty == 0 {
        (m.set_text(opt, "Pad1"@).end_at(opt, p + 1), i + 1, None)
    } else if i + 1 >= o.len() {
        (m.end_at(opt, p + 1), i + 1, Some(cut(p + 1, 1, 0)))
    } else {
        let len = o[i + 1] as int;
        let left = o.len() - i - 2;
        let m = m.leaf("ipv6.opt.length"@, p + 1, p + 2, ValueView::Unsigned(o[i + 1] as u64));
        if left < len {
            (m.end_at(opt, p + 2), i + 2, Some(cut(p + 2, len, left)))
        } else {
            let (m, text) = if ty == 1 {
                (m, "PadN ("@ + dec(len + 2) + " bytes)"@)
            } else if ty == 5 && len == 2 {
                let v = be16(o, i + 2);
                (
                    m.leaf(
                        "ipv6.opt.router_alert"@,
                        p + 2,
                        p + 2 + len,
                        ValueView::Unsigned(v as u64),
                    ),
                    "Router Alert: "@ + dec(v as int),
                )
            } else {
                (
                    m.leaf("ipv6.opt.data"@, p + 2, p + 2 + len, ValueView::Bytes),
                    "Option "@ + dec(ty as int) + " ("@ + dec(len + 2) + " bytes)"@,
                )
            };
            (m.set_text(opt, text).end_at(opt, p + 2 + len), i + 2 + len, None)
        }
    }
}

fn read_option(o: &[u8], i: usize, at: usize, ctx: &mut Ctx) -> (r: (usize, Option<DissectError>))
    requires
        i < o@.len(),
        at + o@.len() <= usize::MAX,
    ensures
        (final(ctx)@, r.0 as int, r.1) == option(o@, i as int, at as int, old(ctx)@),
        i < r.0 <= o@.len(),
        final(ctx)@.count() >= old(ctx)@.count(),
        final(ctx)@.base == old(ctx)@.base,
{
    let p: usize = at + i;
    let ty: u8 = o[i];
    let opt: usize = ctx.begin("ipv6.opt", p..p);
    let _ = ctx.leaf("ipv6.opt.type", p..p + 1, Value::Unsigned(ty as u64));
    if ty == 0 {
        ctx.set_text(opt, "Pad1");
        ctx.end_at(opt, p + 1);
        return (i + 1, None);
    }
    if i + 1 >= o.len() {
        ctx.end_at(opt, p + 1);
        return (i + 1, Some(DissectError::Truncated { at: p + 1, need: 1, have: 0 }));
    }
    let len: usize = o[i + 1] as usize;
    let left: usize = o.len() - i - 2;
    let _ = ctx.leaf("ipv6.opt.length", p + 1..p + 2, Value::Unsigned(o[i + 1] as u64));
    if left < len {
        ctx.end_at(opt, p + 2);
        return (i + 2, Some(DissectError::Truncated { at: p + 2, need: len, have: left }));
    }
    let label: String = if ty == 1 {
        text::cat_dec("PadN (", (len + 2) as u64, " bytes)")
    } else if ty == 5 && len == 2 {
        let v: u16 = get_be16(o, i + 2);
        let _ = ctx.leaf(
            "ipv6.opt.router_alert",
            p + 2..p + 2 + len,
            Value::Unsigned(v as u64),
        );
        let mut out: String = text::owned("Router Alert: ");
        text::push_dec(&mut out, v as u64);
        out
    } else {
        let _ = ctx.leaf("ipv6.opt.data", p + 2..p + 2 + len, Value::Bytes);
        let mut out: String = text::cat_dec("Option ", ty as u64, " (");
        text::push_dec(&mut out, (len + 2) as u64);
        out.push_str(" bytes)");
        out
    };
    ctx.set_text(opt, label.as_str());
    ctx.end_at(opt, p + 2 + len);
    (i + 2 + len, None)
}

/// The options from position `i` on; one that is cut short leaves the rest
/// malformed.
pub open spec fn options(o: Seq<u8>, i: int, at: int, m: Model) -> Model
    decreases o.len() - i,
{
    if i < 0 || i >= o.len() {
        m
    } else {
        let (next, j, e) = option(o, i, at, m);
        match e {
            Some(e) => next.leaf_text(
                "_ws.malformed"@,
                at + j,
                at + o.len(),
                ValueView::Empty,
                bad_option(e),
            ),
            None => if i < j <= o.len() {
                options(o, j, at, next)
            } else {
                next
            },
        }
    }
}

fn read_options(o: &[u8], at: usize, ctx: &mut Ctx)
    requires
        at + o@.len() <= usize::MAX,
    ensures
        final(ctx)@ == options(o@, 0, at as int, old(ctx)@),
        final(ctx)@.count() >= old(ctx)@.count(),
        final(ctx)@.base == old(ctx)@.base,
{
    let mut i: usize = 0;
    let end: usize = at + o.len();
    while i < o.len()
        invariant
            i <= o@.len(),
            end == at + o@.len(),
            end <= usize::MAX,
            ctx@.count() >= old(ctx)@.count(),
            ctx@.base == old(ctx)@.base,
            options(o@, 0, at as int, old(ctx)@) == options(o@, i as int, at as int, ctx@),
        decreases o.len() - i,
    {
        let (j, e) = read_option(o, i, at, ctx);
        match e {
            Some(e) => {
                let _ = ctx.leaf_text(
                    "_ws.malformed",
                    at + j..end,
                    Value::Empty,
                    bad_option_text(e).as_str(),
                );
                return;
            },
            None => {
                i = j;
            },
        }
    }
}

// ---- extension headers ----------------------------------------------------------

/// What an extension header came to: the frame, where it ends, the next
/// header, and whether the packet is a fragment; or the error.
pub struct Extension {
    pub m: Model,
    pub at: int,
    pub next: u8,
    pub fragment: bool,
    pub error: Option<DissectError>,
}

/// The length that an extension header claims.
pub open spec fn claimed(hlen: u8) -> int {
    (hlen + 1) * 8
}

/// Hop-by-Hop (0) or Destination (60) options header at position `i` of `p`.
pub open spec fn options_header(p: Seq<u8>, i: int, at: int, kind: u8, m: Model) -> Extension {
    let left = p.len() - i;
    let s = at + i;
    if left < 2 {
        Extension {
            m,
            at: i,
            next: 0,
            fragment: false,
            error: Some(shortfall(s, left, OPTIONS@)),
        }
    } else {
        let (nxt, hlen) = (p[i], p[i + 1]);
        let total = claimed(hlen);
        let node = m.count();
        let m = if kind == 0 {
            m.begin_text(
                "ipv6.hopopts"@,
                s,
                s,
                "Hop-by-Hop Options"@ + " ("@ + dec(total) + " bytes)"@,
            ).leaf("ipv6.hopopts.nxt"@, s, s + 1, ValueView::Unsigned(nxt as u64)).leaf(
                "ipv6.hopopts.len"@,
                s + 1,
                s + 2,
                ValueView::Unsigned(hlen as u64),
            )
        } else {
            m.begin_text(
                "ipv6.dstopts"@,
                s,
                s,
                "Destination Options"@ + " ("@ + dec(total) + " bytes)"@,
            ).leaf("ipv6.dstopts.nxt"@, s, s + 1, ValueView::Unsigned(nxt as u64)).leaf(
                "ipv6.dstopts.len"@,
                s + 1,
                s + 2,
                ValueView::Unsigned(hlen as u64),
            )
        };
        if left < total {
            Extension {
                m: m.end_at(node, s + 2),
                at: i + 2,
                next: nxt,
                fragment: false,
                error: Some(cut(s + 2, total - 2, left - 2)),
            }
        } else {
            Extension {
                m: options(p.subrange(i + 2, i + total), 0, s + 2, m).end_at(node, s + total),
                at: i + total,
                next: nxt,
                fragment: false,
                error: None,
            }
        }
    }
}

fn read_options_header(p: &[u8], i: usize, at: usize, kind: u8, ctx: &mut Ctx) -> (r: Result<
    (usize, u8),
    DissectError,
>)
    requires
        i <= p@.len(),
        at + p@.len() <= usize::MAX,
    ensures
        ({
            let x = options_header(p@, i as int, at as int, kind, old(ctx)@);
            &&& final(ctx)@ == x.m
            &&& error_of(r) == x.error
            &&& r matches Ok(v) ==> v.0 == x.at && v.1 == x.next && !x.fragment && i < v.0
                <= p@.len()
        }),
        final(ctx)@.count() >= old(ctx)@.count(),
        final(ctx)@.base == old(ctx)@.base,
{
    let left: usize = p.len() - i;
    let s: usize = at + i;
    if left < 2 {
        return Err(first_short(s, left, &OPTIONS));
    }
    let nxt: u8 = p[i];
    let hlen: u8 = p[i + 1];
    let total: usize = (hlen as usize + 1) * 8;
    let node: usize = if kind == 0 {
        let mut label: String = text::cat("Hop-by-Hop Options", " (");
        text::push_dec(&mut label, total as u64);
        label.push_str(" bytes)");
        let node: usize = ctx.begin_text("ipv6.hopopts", s..s, label.as_str());
        let _ = ctx.leaf("ipv6.hopopts.nxt", s..s + 1, Value::Unsigned(nxt as u64));
        let _ = ctx.leaf("ipv6.hopopts.len", s + 1..s + 2, Value::Unsigned(hlen as u64));
        node
    } else {
        let mut label: String = text::cat("Destination Options", " (");
        text::push_dec(&mut label, total as u64);
        label.push_str(" bytes)");
        let node: usize = ctx.begin_text("ipv6.dstopts", s..s, label.as_str());
        let _ = ctx.leaf("ipv6.dstopts.nxt", s..s + 1, Value::Unsigned(nxt as u64));
        let _ = ctx.leaf("ipv6.dstopts.len", s + 1..s + 2, Value::Unsigned(hlen as u64));
        node
    };
    if left < total {
        ctx.end_at(node, s + 2);
        return Err(DissectError::Truncated { at: s + 2, need: total - 2, have: left - 2 });
    }
    read_options(bytes::part(p, i + 2, i + total), s + 2, ctx);
    ctx.end_at(node, s + total);
    Ok((i + total, nxt))
}

/// Addresses of a routing header from position `i` on, sixteen bytes each,
/// and what is left behind them.
pub open spec fn route(b: Seq<u8>, i: int, at: int, m: Model) -> Model
    decreases b.len() - i,
{
    if i < 0 || i >= b.len() {
        m
    } else if i + 16 <= b.len() {
        route(
            b,
            i + 16,
            at,
            m.leaf(
                "ipv6.routing.addr"@,
                at + i,
                at + i + 16,
                ValueView::Ipv6(b.subrange(i, i + 16)),
            ),
        )
    } else {
        m.leaf("ipv6.routing.data"@, at + i, at + b.len(), ValueView::Bytes)
    }
}

fn write_route(b: &[u8], at: usize, ctx: &mut Ctx)
    requires
        b@.len() >= 4,
        at + b@.len() <= usize::MAX,
    ensures
        final(ctx)@ == route(b@, 4, at as int, old(ctx)@),
        final(ctx)@.count() >= old(ctx)@.count(),
        final(ctx)@.base == old(ctx)@.base,
{
    let mut i: usize = 4;
    while b.len() - i >= 16
        invariant
            4 <= i <= b@.len(),
            at + b@.len() <= usize::MAX,
            ctx@.count() >= old(ctx)@.count(),
            ctx@.base == old(ctx)@.base,
            route(b@, 4, at as int, old(ctx)@) == route(b@, i as int, at as int, ctx@),
        decreases b.len() - i,
    {
        let _ = ctx.leaf("ipv6.routing.addr", at + i..at + i + 16, Value::Ipv6(ipv6_at(b, i)));
        i = i + 16;
    }
    if i < b.len() {
        let _ = ctx.leaf("ipv6.routing.data", at + i..at + b.len(), Value::Bytes);
    }
}

/// Routing header at position `i` of `p`.
pub open spec fn routing_header(p: Seq<u8>, i: int, at: int, m: Model) -> Extension {
    let left = p.len() - i;
    let s = at + i;
    if left < 4 {
        Extension {
            m,
            at: i,
            next: 0,
            fragment: false,
            error: Some(shortfall(s, left, ROUTING@)),
        }
    } else {
        let (nxt, hlen, ty, seg) = (p[i], p[i + 1], p[i + 2], p[i + 3]);
        let total = claimed(hlen);
        let node = m.count();
        let m = m.begin_text(
            "ipv6.routing"@,
            s,
            s,
            "Routing Header, Type "@ + dec(ty as int) + ", Segments Left "@ + dec(seg as int),
        ).leaf("ipv6.routing.nxt"@, s, s + 1, ValueView::Unsigned(nxt as u64)).leaf(
            "ipv6.routing.len"@,
            s + 1,
            s + 2,
            ValueView::Unsigned(hlen as u64),
        ).leaf("ipv6.routing.type"@, s + 2, s + 3, ValueView::Unsigned(ty as u64)).leaf(
            "ipv6.routing.segleft"@,
            s + 3,
            s + 4,
            ValueView::Unsigned(seg as u64),
        );
        if left < total {
            Extension {
                m: m.end_at(node, s + 4),
                at: i + 4,
                next: nxt,
                fragment: false,
                error: Some(cut(s + 4, total - 4, left - 4)),
            }
        } else {
            let b = p.subrange(i + 4, i + total);
            let m = if ty == 0 || ty == 2 || ty == 4 {
                // 4 reserved bytes, then a list of addresses.
                route(b, 4, s + 4, m.leaf("ipv6.routing.data"@, s + 4, s + 8, ValueView::Bytes))
            } else {
                m.leaf("ipv6.routing.data"@, s + 4, s + total, ValueView::Bytes)
            };
            Extension {
                m: m.end_at(node, s + total),
                at: i + total,
                next: nxt,
                fragment: false,
                error: None,
            }
        }
    }
}

fn read_routing_header(p: &[u8], i: usize, at: usize, ctx: &mut Ctx) -> (r: Result<
    (usize, u8),
    DissectError,
>)
    requires
        i <= p@.len(),
        at + p@.len() <= usize::MAX,
    ensures
        ({
            let x = routing_header(p@, i as int, at as int, old(ctx)@);
            &&& final(ctx)@ == x.m
            &&& error_of(r) == x.error
            &&& r matches Ok(v) ==> v.0 == x.at && v.1 == x.next && !x.fragment && i < v.0
                <= p@.len()
        }),
        final(ctx)@.count() >= old(ctx)@.count(),
        final(ctx)@.base == old(ctx)@.base,
{
    let left: usize = p.len() - i;
    let s: usize = at + i;
    if left < 4 {
        return Err(first_short(s, left, &ROUTING));
    }
    let nxt: u8 = p[i];
    let hlen: u8 = p[i + 1];
    let ty: u8 = p[i + 2];
    let seg: u8 = p[i + 3];
    let total: usize = (hlen as usize + 1) * 8;
    let mut label: String = text::cat_dec("Routing Header, Type ", ty as u64, ", Segments Left ");
    text::push_dec(&mut label, seg as u64);
    let node: usize = ctx.begin_text("ipv6.routing", s..s, label.as_str());
    let _ = ctx.leaf("ipv6.routing.nxt", s..s + 1, Value::Unsigned(nxt as u64));
    let _ = ctx.leaf("ipv6.routing.len", s + 1..s + 2, Value::Unsigned(hlen as u64));
    let _ = ctx.leaf("ipv6.routing.type", s + 2..s + 3, Value::Unsigned(ty as u64));
    let _ = ctx.leaf("ipv6.routing.segleft", s + 3..s + 4, Value::Unsigned(seg as u64));
    if left < total {
        ctx.end_at(node, s + 4);
        return Err(DissectError::Truncated { at: s + 4, need: total - 4, have: left - 4 });
    }
    if ty == 0 || ty == 2 || ty == 4 {
        // 4 reserved bytes, then a list of addresses.
        let _ = ctx.leaf("ipv6.routing.data", s + 4..s + 8, Value::Bytes);
        write_route(bytes::part(p, i + 4, i + total), s + 4, ctx);
    } else {
        let _ = ctx.leaf("ipv6.routing.data", s + 4..s + total, Value::Bytes);
    }
    ctx.end_at(node, s + total);
    Ok((i + total, nxt))
}

/// Fragment header at position `i` of `p`. An atomic fragment (offset 0, more
/// 0) is a whole datagram.
pub open spec fn fragment_header(p: Seq<u8>, i: int, at: int, m: Model) -> Extension {
    let left = p.len() - i;
    let s = at + i;
    if left < 8 {
        Extension {
            m,
            at: i,
            next: 0,
            fragment: false,
            error: Some(shortfall(s, left, FRAGMENT@)),
        }
    } else {
        let (nxt, res, off_m, ident) = (p[i], p[i + 1], be16(p, i + 2), be32(p, i + 4));
        let offset = (off_m >> 3) * 8;
        let more = off_m & 1 == 1;
        let node = m.count();
        let m = m.begin_text(
            "ipv6.fraghdr"@,
            s,
            s + 8,
            "Fragment Header, offset "@ + dec(offset) + ", more "@ + (if more {
                "yes"@
            } else {
                "no"@
            }) + ", ID 0x"@ + hex_pad(ident as int, 8),
        ).leaf("ipv6.fraghdr.nxt"@, s, s + 1, ValueView::Unsigned(nxt as u64)).leaf(
            "ipv6.fraghdr.reserved_octet"@,
            s + 1,
            s + 2,
            ValueView::Unsigned(res as u64),
        ).leaf("ipv6.fraghdr.offset"@, s + 2, s + 4, ValueView::Unsigned(offset as u64)).leaf(
            "ipv6.fraghdr.reserved_bits"@,
            s + 2,
            s + 4,
            ValueView::Unsigned(((off_m >> 1) & 3) as u64),
        ).leaf("ipv6.fraghdr.more"@, s + 2, s + 4, ValueView::Bool(more)).leaf(
            "ipv6.fraghdr.ident"@,
            s + 4,
            s + 8,
            ValueView::Unsigned(ident as u64),
        ).end_at(node, s + 8);
        Extension { m, at: i + 8, next: nxt, fragment: offset > 0 || more, error: None }
    }
}

fn read_fragment_header(p: &[u8], i: usize, at: usize, ctx: &mut Ctx) -> (r: Result<
    (u8, bool),
    DissectError,
>)
    requires
        i <= p@.len(),
        at + p@.len() <= usize::MAX,
    ensures
        ({
            let x = fragment_header(p@, i as int, at as int, old(ctx)@);
            &&& final(ctx)@ == x.m
            &&& error_of(r) == x.error
            &&& r matches Ok(v) ==> x.at == i + 8 && v.0 == x.next && v.1 == x.fragment && i + 8
                <= p@.len()
        }),
        final(ctx)@.count() >= old(ctx)@.count(),
        final(ctx)@.base == old(ctx)@.base,
{
    let left: usize = p.len() - i;
    let s: usize = at + i;
    if left < 8 {
        return Err(first_short(s, left, &FRAGMENT));
    }
    let nxt: u8 = p[i];
    let res: u8 = p[i + 1];
    let off_m: u16 = get_be16(p, i + 2);
    let ident: u32 = get_be32(p, i + 4);
    let units: u16 = off_m >> 3;
    assert(units <= 0x1fff) by (bit_vector)
        requires
            units == off_m >> 3u16,
    ;
    let offset: usize = units as usize * 8;
    let more: bool = off_m & 1 == 1;
    let mut label: String = text::cat_dec("Fragment Header, offset ", offset as u64, ", more ");
    label.push_str(
        if more {
            "yes"
        } else {
            "no"
        },
    );
    label.push_str(", ID 0x");
    text::push_hex(&mut label, ident as u64, 8);
    let node: usize = ctx.begin_text("ipv6.fraghdr", s..s + 8, label.as_str());
    let _ = ctx.leaf("ipv6.fraghdr.nxt", s..s + 1, Value::Unsigned(nxt as u64));
    let _ = ctx.leaf("ipv6.fraghdr.reserved_octet", s + 1..s + 2, Value::Unsigned(res as u64));
    let _ = ctx.leaf("ipv6.fraghdr.offset", s + 2..s + 4, Value::Unsigned(offset as u64));
    let _ = ctx.leaf(
        "ipv6.fraghdr.reserved_bits",
        s + 2..s + 4,
        Value::Unsigned(((off_m >> 1) & 3) as u64),
    );
    let _ = ctx.leaf("ipv6.fraghdr.more", s + 2..s + 4, Value::Bool(more));
    let _ = ctx.leaf("ipv6.fraghdr.ident", s + 4..s + 8, Value::Unsigned(ident as u64));
    ctx.end_at(node, s + 8);
    // An atomic fragment (offset 0, more 0) is a whole datagram.
    Ok((nxt, offset > 0 || more))
}

/// Whether `next` names an extension header.
pub open spec fn is_extension(next: u8) -> bool {
    next == 0 || next == 60 || next == 43 || next == 44
}

/// Up to `k` extension headers from position `i` of `p` on, the first being
/// of kind `next`. One more than that is an error.
pub open spec fn extensions(
    k: nat,
    p: Seq<u8>,
    i: int,
    at: int,
    next: u8,
    fragment: bool,
    m: Model,
) -> Extension
    decreases k,
{
    if !is_extension(next) {
        Extension { m, at: i, next, fragment, error: None }
    } else if k == 0 {
        Extension {
            m,
            at: i,
            next,
            fragment,
            error: Some(
                DissectError::Invalid {
                    at: (at + i) as usize,
                    what: "IPv6 extension header count",
                },
            ),
        }
    } else {
        let x = if next == 43 {
            routing_header(p, i, at, m)
        } else if next == 44 {
            fragment_header(p, i, at, m)
        } else {
            options_header(p, i, at, next, m)
        };
        if x.error is Some {
            x
        } else {
            extensions(
                (k - 1) as nat,
                p,
                x.at,
                at,
                x.next,
                if next == 44 {
                    x.fragment
                } else {
                    fragment
                },
                x.m,
            )
        }
    }
}

fn walk_extensions(p: &[u8], at: usize, first: u8, ctx: &mut Ctx) -> (r: Result<
    (usize, u8, bool),
    DissectError,
>)
    requires
        at + p@.len() <= usize::MAX,
    ensures
        ({
            let x = extensions(
                MAX_EXT_HEADERS as nat,
                p@,
                0,
                at as int,
                first,
                false,
                old(ctx)@,
            );
            &&& final(ctx)@ == x.m
            &&& error_of(r) == x.error
            &&& r matches Ok(v) ==> v.0 == x.at && v.1 == x.next && v.2 == x.fragment && v.0
                <= p@.len()
        }),
        final(ctx)@.count() >= old(ctx)@.count(),
        final(ctx)@.base == old(ctx)@.base,
{
    let mut k: usize = MAX_EXT_HEADERS;
    let mut i: usize = 0;
    let mut next: u8 = first;
    let mut fragment: bool = false;
    while k > 0 && (next == 0 || next == 60 || next == 43 || next == 44)
        invariant
            i <= p@.len(),
            at + p@.len() <= usize::MAX,
            ctx@.count() >= old(ctx)@.count(),
            ctx@.base == old(ctx)@.base,
            extensions(
                MAX_EXT_HEADERS as nat,
                p@,
                0,
                at as int,
                first,
                false,
                old(ctx)@,
            ) == extensions(k as nat, p@, i as int, at as int, next, fragment, ctx@),
        decreases k,
    {
        if next == 43 {
            match read_routing_header(p, i, at, ctx) {
                Ok((j, n)) => {
                    i = j;
                    next = n;
                },
                Err(e) => {
                    return Err(e);
                },
            }
        } else if next == 44 {
            match read_fragment_header(p, i, at, ctx) {
                Ok((n, f)) => {
                    i = i + 8;
                    next = n;
                    fragment = f;
                },
                Err(e) => {
                    return Err(e);
                },
            }
        } else {
            match read_options_header(p, i, at, next, ctx) {
                Ok((j, n)) => {
                    i = j;
                    next = n;
                },
                Err(e) => {
                    return Err(e);
                },
            }
        }
        k = k - 1;
    }
    if next == 0 || next == 60 || next == 43 || next == 44 {
        return Err(DissectError::Invalid { at: at + i, what: "IPv6 extension header count" });
    }
    Ok((i, next, fragment))
}

// ---- the layer ------------------------------------------------------------------

/// The IPv6 layer.
pub open spec fn layer(d: Seq<u8>, m: Model) -> Outcome {
    let a = m.base;
    let n = d.len() as int;
    if n < 4 {
        (m, Some(shortfall(a, n, FIRST@)))
    } else if be32(d, 0) >> 28 != 6 {
        (m, Some(DissectError::Invalid { at: a as usize, what: "IP version (expected 6)" }))
    } else if n < 40 {
        (m, Some(shortfall(a + 4, n - 4, REST@)))
    } else {
        let vtf = be32(d, 0);
        let plen = be16(d, 4);
        let nxt = d[6];
        let src = d.subrange(8, 24);
        let dst = d.subrange(24, 40);
        let m = m.set_protocol("ipv6"@).between(
            AddrView::Ipv6(src),
            AddrView::Ipv6(dst),
        ).with_addrs(Some(AddrsView::V6(src, dst)));
        let ip = m.count();
        let m = m.begin("ipv6"@, a, a).leaf(
            "ipv6.version"@,
            a,
            a + 4,
            ValueView::Unsigned((vtf >> 28) as u64),
        ).leaf("ipv6.tclass"@, a, a + 4, ValueView::Unsigned(((vtf >> 20) & 0xff) as u64)).leaf(
            "ipv6.flow"@,
            a,
            a + 4,
            ValueView::Unsigned((vtf & 0x000f_ffff) as u64),
        ).leaf("ipv6.plen"@, a + 4, a + 6, ValueView::Unsigned(plen as u64)).leaf(
            "ipv6.nxt"@,
            a + 6,
            a + 7,
            ValueView::Unsigned(nxt as u64),
        ).leaf("ipv6.hlim"@, a + 7, a + 8, ValueView::Unsigned(d[7] as u64)).leaf(
            "ipv6.src"@,
            a + 8,
            a + 24,
            ValueView::Ipv6(src),
        ).leaf("ipv6.dst"@, a + 24, a + 40, ValueView::Ipv6(dst));
        // Payload is bounded by the payload length field (jumbograms aside).
        let len = if plen < n - 40 {
            plen as int
        } else {
            n - 40
        };
        let x = extensions(
            MAX_EXT_HEADERS as nat,
            d.subrange(40, 40 + len),
            0,
            a + 40,
            nxt,
            false,
            m,
        );
        if x.error is Some {
            (x.m, x.error)
        } else {
            let m = x.m.end_at(ip, a + 40 + len);
            if x.fragment {
                // Fragments are shown as data.
                (
                    m.set_info(
                        "Fragmented IPv6 (proto="@ + named_or(
                            IPPROTOS@,
                            x.next as u64,
                            "Unknown"@,
                        ) + " "@ + dec(x.next as int) + ")"@,
                    ).call_next_bounded(Proto::Data, 40 + x.at, len - x.at),
                    None,
                )
            } else if x.next == 59 {
                (m.set_info("No next header"@), None)
            } else {
                (m.call_next_bounded(next_by_ipproto(x.next), 40 + x.at, len - x.at), None)
            }
        }
    }
}

#[verifier::rlimit(40)]
pub fn dissect(data: &[u8], ctx: &mut Ctx) -> (r: Result<(), DissectError>)
    requires
        addressable(data@, old(ctx)@),
    ensures
        (final(ctx)@, error_of(r)) == layer(data@, old(ctx)@),
{
    let a: usize = ctx.base();
    let n: usize = data.len();
    if n < 4 {
        return Err(first_short(a, n, &FIRST));
    }
    let vtf: u32 = get_be32(data, 0);
    if vtf >> 28 != 6 {
        return Err(DissectError::Invalid { at: a, what: "IP version (expected 6)" });
    }
    if n < 40 {
        return Err(first_short(a + 4, n - 4, &REST));
    }
    let plen: u16 = get_be16(data, 4);
    let nxt: u8 = data[6];
    let src: [u8; 16] = ipv6_at(data, 8);
    let dst: [u8; 16] = ipv6_at(data, 24);
    ctx.set_protocol("ipv6");
    ctx.set_addresses(Addr::Ipv6(src), Addr::Ipv6(dst));
    ctx.set_net_addrs(Some(NetAddrs::V6(src, dst)));
    let ip: usize = ctx.begin("ipv6", a..a);
    let _ = ctx.leaf("ipv6.version", a..a + 4, Value::Unsigned((vtf >> 28) as u64));
    let _ = ctx.leaf("ipv6.tclass", a..a + 4, Value::Unsigned(((vtf >> 20) & 0xff) as u64));
    let _ = ctx.leaf("ipv6.flow", a..a + 4, Value::Unsigned((vtf & 0x000f_ffff) as u64));
    let _ = ctx.leaf("ipv6.plen", a + 4..a + 6, Value::Unsigned(plen as u64));
    let _ = ctx.leaf("ipv6.nxt", a + 6..a + 7, Value::Unsigned(nxt as u64));
    let _ = ctx.leaf("ipv6.hlim", a + 7..a + 8, Value::Unsigned(data[7] as u64));
    let _ = ctx.leaf("ipv6.src", a + 8..a + 24, Value::Ipv6(src));
    let _ = ctx.leaf("ipv6.dst", a + 24..a + 40, Value::Ipv6(dst));
    // Payload is bounded by the payload length field (jumbograms aside).
    let len: usize = if (plen as usize) < n - 40 {
        plen as usize
    } else {
        n - 40
    };
    match walk_extensions(bytes::part(data, 40, 40 + len), a + 40, nxt, ctx) {
        Err(e) => Err(e),
        Ok((at, next, fragment)) => {
            ctx.end_at(ip, a + 40 + len);
            if fragment {
                // IPv6 fragment state is not implemented; show the fragment
                // payload as data.
                let name: &'static str = enum_name_or(&IPPROTOS, next as u64, "Unknown");
                let mut info: String = text::cat("Fragmented IPv6 (proto=", name);
                info.push_str(" ");
                text::push_dec(&mut info, next as u64);
                info.push_str(")");
                ctx.set_info(info);
                ctx.call_next_bounded(Proto::Data, 40 + at, len - at);
                return Ok(());
            }
            if next == 59 {
                ctx.set_info(text::owned("No next header"));
                return Ok(());
            }
            ctx.call_next_bounded(ipproto_next(next), 40 + at, len - at);
            Ok(())
        },
    }
}

} // verus!

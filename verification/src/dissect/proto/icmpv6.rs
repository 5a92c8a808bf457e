//! ICMPv6 (RFC 4443) including Neighbor Discovery messages (RFC 4861).

use vstd::prelude::*;

use crate::bytes::{be16, be32, get_be16, get_be32};
use crate::dissect::ctx::{Ctx, Model};
use crate::dissect::cursor::DissectError;
use crate::dissect::node::{fmt_ipv6, fmt_mac, ipv6_text, mac_text, Value, ValueView};
use crate::dissect::registry::{enum_name_or, named_or};
use crate::dissect::tables::ICMPV6_TYPES;
use crate::text;
use crate::text::{dec, hex_pad, joined, texts};

use super::{
    addressable, bad_option, bad_option_text, checked, cut, error_of, first_short, ipv6_at, judge,
    mac_at, report_checksum, segment_checksum, shortfall, transport_checksum, verdict, Outcome,
    CK_UNVERIFIED,
};

verus! {

/// Widths of the header fields.
pub const HEADER: [usize; 3] = [1, 1, 2];

/// Widths of the fields of an echo.
pub const ECHO: [usize; 2] = [2, 2];

/// Width of one 32-bit field.
pub const ONE: [usize; 1] = [4];

/// Widths of the fields of a router advertisement.
pub const ADVERT: [usize; 5] = [1, 1, 2, 4, 4];

/// Widths of the fields of a neighbor solicitation or advertisement.
pub const NEIGHBOR: [usize; 2] = [4, 16];

/// Widths of the fields of a redirect.
pub const REDIRECT: [usize; 3] = [4, 16, 16];

// ---- options --------------------------------------------------------------------

/// What the body of an option shows, and the option's label. The body lies
/// at position `i` of `d` and is `len * 8 - 2` bytes long.
pub open spec fn option_body(d: Seq<u8>, i: int, at: int, ty: u8, len: u8, m: Model) -> (
    Model,
    Seq<char>,
) {
    let p = at + i;
    let body = len * 8 - 2;
    if (ty == 1 || ty == 2) && body >= 6 {
        let mac = d.subrange(i, i + 6);
        (
            m.leaf("icmpv6.opt.linkaddr"@, p, p + 6, ValueView::Mac(mac)),
            "ICMPv6 Option ("@ + (if ty == 1 {
                "Source"@
            } else {
                "Target"@
            }) + " link-layer address: "@ + mac_text(mac) + ")"@,
        )
    } else if ty == 3 && body >= 30 {
        let plen = d[i];
        let prefix = d.subrange(i + 14, i + 30);
        (
            m.leaf("icmpv6.opt.prefix.length"@, p, p + 1, ValueView::Unsigned(plen as u64)).leaf(
                "icmpv6.opt.prefix.valid_lifetime"@,
                p + 2,
                p + 6,
                ValueView::Unsigned(be32(d, i + 2) as u64),
            ).leaf(
                "icmpv6.opt.prefix.preferred_lifetime"@,
                p + 6,
                p + 10,
                ValueView::Unsigned(be32(d, i + 6) as u64),
            ).leaf("icmpv6.opt.prefix"@, p + 14, p + 30, ValueView::Ipv6(prefix)),
            "ICMPv6 Option (Prefix information: "@ + ipv6_text(prefix) + "/"@ + dec(plen as int)
                + ")"@,
        )
    } else if ty == 5 && body >= 6 {
        let mtu = be32(d, i + 2);
        (
            m.leaf("icmpv6.opt.mtu"@, p + 2, p + 6, ValueView::Unsigned(mtu as u64)),
            "ICMPv6 Option (MTU: "@ + dec(mtu as int) + ")"@,
        )
    } else {
        (
            m.leaf("icmpv6.opt.data"@, p, p + body, ValueView::Bytes),
            "ICMPv6 Option (type "@ + dec(ty as int) + ", "@ + dec(len * 8) + " bytes)"@,
        )
    }
}

fn write_body(data: &[u8], i: usize, at: usize, ty: u8, len: u8, ctx: &mut Ctx) -> (r: String)
    requires
        len > 0,
        i + len * 8 - 2 <= data@.len(),
        at + data@.len() <= usize::MAX,
    ensures
        (final(ctx)@, r@) == option_body(data@, i as int, at as int, ty, len, old(ctx)@),
        final(ctx)@.count() >= old(ctx)@.count(),
        final(ctx)@.base == old(ctx)@.base,
{
    let p: usize = at + i;
    let body: usize = len as usize * 8 - 2;
    if (ty == 1 || ty == 2) && body >= 6 {
        let mac: [u8; 6] = mac_at(data, i);
        let _ = ctx.leaf("icmpv6.opt.linkaddr", p..p + 6, Value::Mac(mac));
        let mut out: String = text::cat(
            "ICMPv6 Option (",
            if ty == 1 {
                "Source"
            } else {
                "Target"
            },
        );
        out.push_str(" link-layer address: ");
        out.push_str(fmt_mac(mac).as_str());
        out.push_str(")");
        out
    } else if ty == 3 && body >= 30 {
        let plen: u8 = data[i];
        let prefix: [u8; 16] = ipv6_at(data, i + 14);
        let _ = ctx.leaf("icmpv6.opt.prefix.length", p..p + 1, Value::Unsigned(plen as u64));
        let _ = ctx.leaf(
            "icmpv6.opt.prefix.valid_lifetime",
            p + 2..p + 6,
            Value::Unsigned(get_be32(data, i + 2) as u64),
        );
        let _ = ctx.leaf(
            "icmpv6.opt.prefix.preferred_lifetime",
            p + 6..p + 10,
            Value::Unsigned(get_be32(data, i + 6) as u64),
        );
        let _ = ctx.leaf("icmpv6.opt.prefix", p + 14..p + 30, Value::Ipv6(prefix));
        let mut out: String = text::cat(
            "ICMPv6 Option (Prefix information: ",
            fmt_ipv6(prefix).as_str(),
        );
        out.push_str("/");
        text::push_dec(&mut out, plen as u64);
        out.push_str(")");
        out
    } else if ty == 5 && body >= 6 {
        let mtu: u32 = get_be32(data, i + 2);
        let _ = ctx.leaf("icmpv6.opt.mtu", p + 2..p + 6, Value::Unsigned(mtu as u64));
        text::cat_dec("ICMPv6 Option (MTU: ", mtu as u64, ")")
    } else {
        let _ = ctx.leaf("icmpv6.opt.data", p..p + body, Value::Bytes);
        let mut out: String = text::cat_dec("ICMPv6 Option (type ", ty as u64, ", ");
        text::push_dec(&mut out, (len as usize * 8) as u64);
        out.push_str(" bytes)");
        out
    }
}

/// One Neighbor Discovery option at position `i`.
pub open spec fn option(d: Seq<u8>, i: int, at: int, m: Model) -> (
    Model,
    int,
    Option<DissectError>,
) {
    let p = at + i;
    let ty = d[i];
    let opt = m.count();
    let m = m.begin("icmpv6.opt"@, p, p).leaf(
        "icmpv6.opt.type"@,
        p,
        p + 1,
        ValueView::Unsigned(ty as u64),
    );
    if i + 1 >= d.len() {
        (m.end_at(opt, p + 1), i + 1, Some(cut(p + 1, 1, 0)))
    } else {
        let len = d[i + 1];
        let left = d.len() - i - 2;
        let m = m.leaf("icmpv6.opt.length"@, p + 1, p + 2, ValueView::Unsigned(len as u64));
        if len == 0 {
            (
                m.end_at(opt, p + 2),
                i + 2,
                Some(
                    DissectError::Invalid {
                        at: (p + 1) as usize,
                        what: "ICMPv6 option length 0",
                    },
                ),
            )
        } else if left < len * 8 - 2 {
            (m.end_at(opt, p + 2), i + 2, Some(cut(p + 2, len * 8 - 2, left)))
        } else {
            let (m, text) = option_body(d, i + 2, at, ty, len, m);
            (m.set_text(opt, text).end_at(opt, p + len * 8), i + len * 8, None)
        }
    }
}

fn read_option(data: &[u8], i: usize, at: usize, ctx: &mut Ctx) -> (r: (
    usize,
    Option<DissectError>,
))
    requires
        i < data@.len(),
        at + data@.len() <= usize::MAX,
    ensures
        (final(ctx)@, r.0 as int, r.1) == option(data@, i as int, at as int, old(ctx)@),
        i < r.0 <= data@.len(),
        final(ctx)@.count() >= old(ctx)@.count(),
        final(ctx)@.base == old(ctx)@.base,
{
    let p: usize = at + i;
    let ty: u8 = data[i];
    let opt: usize = ctx.begin("icmpv6.opt", p..p);
    let _ = ctx.leaf("icmpv6.opt.type", p..p + 1, Value::Unsigned(ty as u64));
    if i + 1 >= data.len() {
        ctx.end_at(opt, p + 1);
        return (i + 1, Some(DissectError::Truncated { at: p + 1, need: 1, have: 0 }));
    }
    let len: u8 = data[i + 1];
    let left: usize = data.len() - i - 2;
    let _ = ctx.leaf("icmpv6.opt.length", p + 1..p + 2, Value::Unsigned(len as u64));
    if len == 0 {
        ctx.end_at(opt, p + 2);
        return (
            i + 2,
            Some(DissectError::Invalid { at: p + 1, what: "ICMPv6 option length 0" }),
        );
    }
    let total: usize = len as usize * 8;
    if left < total - 2 {
        ctx.end_at(opt, p + 2);
        return (i + 2, Some(DissectError::Truncated { at: p + 2, need: total - 2, have: left }));
    }
    let label: String = write_body(data, i + 2, at, ty, len, ctx);
    ctx.set_text(opt, label.as_str());
    ctx.end_at(opt, p + total);
    (i + total, None)
}

/// Neighbor Discovery options from position `i` on; a bad one leaves itself
/// and what follows malformed.
pub open spec fn options(d: Seq<u8>, i: int, at: int, m: Model) -> Model
    decreases d.len() - i,
{
    if i < 0 || i >= d.len() {
        m
    } else {
        let (next, j, e) = option(d, i, at, m);
        match e {
            Some(e) => next.leaf_text(
                "_ws.malformed"@,
                at + i,
                at + d.len(),
                ValueView::Empty,
                bad_option(e),
            ),
            None => if i < j <= d.len() {
                options(d, j, at, next)
            } else {
                next
            },
        }
    }
}

fn read_options(data: &[u8], from: usize, at: usize, ctx: &mut Ctx)
    requires
        from <= data@.len(),
        at + data@.len() <= usize::MAX,
    ensures
        final(ctx)@ == options(data@, from as int, at as int, old(ctx)@),
        final(ctx)@.count() >= old(ctx)@.count(),
        final(ctx)@.base == old(ctx)@.base,
{
    let mut i: usize = from;
    while i < data.len()
        invariant
            i <= data@.len(),
            at + data@.len() <= usize::MAX,
            ctx@.count() >= old(ctx)@.count(),
            ctx@.base == old(ctx)@.base,
            options(data@, from as int, at as int, old(ctx)@) == options(
                data@,
                i as int,
                at as int,
                ctx@,
            ),
        decreases data.len() - i,
    {
        let (j, e) = read_option(data, i, at, ctx);
        match e {
            Some(e) => {
                let _ = ctx.leaf_text(
                    "_ws.malformed",
                    at + i..at + data.len(),
                    Value::Empty,
                    bad_option_text(e).as_str(),
                );
                return;
            },
            None => {
                i = j;
            },
        }
    }
}

// ---- message bodies -------------------------------------------------------------

/// What is left of the message from position `i` on, as data.
pub open spec fn rest_as_data(d: Seq<u8>, i: int, at: int, m: Model) -> Model {
    if d.len() > i {
        m.leaf("icmpv6.data"@, at + i, at + d.len(), ValueView::Bytes)
    } else {
        m
    }
}

fn write_rest(data: &[u8], i: usize, at: usize, ctx: &mut Ctx)
    requires
        i <= data@.len(),
        at + data@.len() <= usize::MAX,
    ensures
        final(ctx)@ == rest_as_data(data@, i as int, at as int, old(ctx)@),
        final(ctx)@.base == old(ctx)@.base,
{
    if data.len() > i {
        let _ = ctx.leaf("icmpv6.data", at + i..at + data.len(), Value::Bytes);
    }
}

/// Router advertisement.
pub open spec fn advert(d: Seq<u8>, a: int, m: Model) -> Model {
    let flags = d[5];
    let m = m.leaf(
        "icmpv6.nd.ra.cur_hop_limit"@,
        a + 4,
        a + 5,
        ValueView::Unsigned(d[4] as u64),
    ).begin_value("icmpv6.nd.ra.flag"@, a + 5, a + 6, ValueView::Unsigned(flags as u64)).leaf(
        "icmpv6.nd.ra.flag.m"@,
        a + 5,
        a + 6,
        ValueView::Bool(flags & 0x80 != 0),
    ).leaf("icmpv6.nd.ra.flag.o"@, a + 5, a + 6, ValueView::Bool(flags & 0x40 != 0)).end().leaf(
        "icmpv6.nd.ra.router_lifetime"@,
        a + 6,
        a + 8,
        ValueView::Unsigned(be16(d, 6) as u64),
    ).leaf(
        "icmpv6.nd.ra.reachable_time"@,
        a + 8,
        a + 12,
        ValueView::Unsigned(be32(d, 8) as u64),
    ).leaf(
        "icmpv6.nd.ra.retrans_timer"@,
        a + 12,
        a + 16,
        ValueView::Unsigned(be32(d, 12) as u64),
    ).set_info("Router Advertisement"@);
    options(d, 16, a, m)
}

fn write_advert(data: &[u8], a: usize, ctx: &mut Ctx)
    requires
        data@.len() >= 16,
        a + data@.len() <= usize::MAX,
    ensures
        final(ctx)@ == advert(data@, a as int, old(ctx)@),
{
    let flags: u8 = data[5];
    let _ = ctx.leaf("icmpv6.nd.ra.cur_hop_limit", a + 4..a + 5, Value::Unsigned(data[4] as u64));
    let _ = ctx.begin_value("icmpv6.nd.ra.flag", a + 5..a + 6, Value::Unsigned(flags as u64));
    let _ = ctx.leaf("icmpv6.nd.ra.flag.m", a + 5..a + 6, Value::Bool(flags & 0x80 != 0));
    let _ = ctx.leaf("icmpv6.nd.ra.flag.o", a + 5..a + 6, Value::Bool(flags & 0x40 != 0));
    ctx.end();
    let _ = ctx.leaf(
        "icmpv6.nd.ra.router_lifetime",
        a + 6..a + 8,
        Value::Unsigned(get_be16(data, 6) as u64),
    );
    let _ = ctx.leaf(
        "icmpv6.nd.ra.reachable_time",
        a + 8..a + 12,
        Value::Unsigned(get_be32(data, 8) as u64),
    );
    let _ = ctx.leaf(
        "icmpv6.nd.ra.retrans_timer",
        a + 12..a + 16,
        Value::Unsigned(get_be32(data, 12) as u64),
    );
    ctx.set_info(text::owned("Router Advertisement"));
    read_options(data, 16, a, ctx);
}

/// The names of the set neighbor advertisement flags.
pub open spec fn neighbor_tags(flags: u32) -> Seq<Seq<char>> {
    let t = Seq::empty();
    let t = if flags & 0x8000_0000 != 0 {
        t.push("rtr"@)
    } else {
        t
    };
    let t = if flags & 0x4000_0000 != 0 {
        t.push("sol"@)
    } else {
        t
    };
    if flags & 0x2000_0000 != 0 {
        t.push("ovr"@)
    } else {
        t
    }
}

fn tag_list(flags: u32) -> (r: String)
    ensures
        r@ == joined(neighbor_tags(flags), ", "@),
{
    let mut tags: Vec<String> = Vec::new();
    assert(texts(tags@) =~= Seq::empty());
    if flags & 0x8000_0000 != 0 {
        text::push_text(&mut tags, text::owned("rtr"));
    }
    if flags & 0x4000_0000 != 0 {
        text::push_text(&mut tags, text::owned("sol"));
    }
    if flags & 0x2000_0000 != 0 {
        text::push_text(&mut tags, text::owned("ovr"));
    }
    text::join(&tags, ", ")
}

/// Neighbor advertisement.
pub open spec fn neighbor_advert(d: Seq<u8>, a: int, m: Model) -> Model {
    let flags = be32(d, 4);
    let target = d.subrange(8, 24);
    let m = m.begin_value(
        "icmpv6.nd.na.flag"@,
        a + 4,
        a + 8,
        ValueView::Unsigned((flags >> 29) as u64),
    ).leaf("icmpv6.nd.na.flag.r"@, a + 4, a + 8, ValueView::Bool(flags & 0x8000_0000 != 0)).leaf(
        "icmpv6.nd.na.flag.s"@,
        a + 4,
        a + 8,
        ValueView::Bool(flags & 0x4000_0000 != 0),
    ).leaf(
        "icmpv6.nd.na.flag.o"@,
        a + 4,
        a + 8,
        ValueView::Bool(flags & 0x2000_0000 != 0),
    ).end().leaf(
        "icmpv6.nd.na.target_address"@,
        a + 8,
        a + 24,
        ValueView::Ipv6(target),
    ).set_info(
        "Neighbor Advertisement "@ + ipv6_text(target) + " is at ("@ + joined(
            neighbor_tags(flags),
            ", "@,
        ) + ")"@,
    );
    options(d, 24, a, m)
}

fn write_neighbor_advert(data: &[u8], a: usize, ctx: &mut Ctx)
    requires
        data@.len() >= 24,
        a + data@.len() <= usize::MAX,
    ensures
        final(ctx)@ == neighbor_advert(data@, a as int, old(ctx)@),
{
    let flags: u32 = get_be32(data, 4);
    let target: [u8; 16] = ipv6_at(data, 8);
    let _ = ctx.begin_value(
        "icmpv6.nd.na.flag",
        a + 4..a + 8,
        Value::Unsigned((flags >> 29) as u64),
    );
    let _ = ctx.leaf(
        "icmpv6.nd.na.flag.r",
        a + 4..a + 8,
        Value::Bool(flags & 0x8000_0000 != 0),
    );
    let _ = ctx.leaf(
        "icmpv6.nd.na.flag.s",
        a + 4..a + 8,
        Value::Bool(flags & 0x4000_0000 != 0),
    );
    let _ = ctx.leaf(
        "icmpv6.nd.na.flag.o",
        a + 4..a + 8,
        Value::Bool(flags & 0x2000_0000 != 0),
    );
    ctx.end();
    let _ = ctx.leaf("icmpv6.nd.na.target_address", a + 8..a + 24, Value::Ipv6(target));
    let mut info: String = text::cat("Neighbor Advertisement ", fmt_ipv6(target).as_str());
    info.push_str(" is at (");
    info.push_str(tag_list(flags).as_str());
    info.push_str(")");
    ctx.set_info(info);
    read_options(data, 24, a, ctx);
}

/// What an error message without a number of its own says.
pub open spec fn detail_of(ty: u8, code: u8, kind: Seq<char>) -> Seq<char> {
    if ty == 1 && code == 0 {
        "No route to destination"@
    } else if ty == 1 && code == 1 {
        "Communication administratively prohibited"@
    } else if ty == 1 && code == 3 {
        "Address unreachable"@
    } else if ty == 1 && code == 4 {
        "Port unreachable"@
    } else if ty == 3 && code == 0 {
        "Hop limit exceeded in transit"@
    } else if ty == 3 && code == 1 {
        "Fragment reassembly time exceeded"@
    } else {
        kind
    }
}

fn detail_text(ty: u8, code: u8, kind: &'static str) -> (r: &'static str)
    ensures
        r@ == detail_of(ty, code, kind@),
{
    if ty == 1 && code == 0 {
        "No route to destination"
    } else if ty == 1 && code == 1 {
        "Communication administratively prohibited"
    } else if ty == 1 && code == 3 {
        "Address unreachable"
    } else if ty == 1 && code == 4 {
        "Port unreachable"
    } else if ty == 3 && code == 0 {
        "Hop limit exceeded in transit"
    } else if ty == 3 && code == 1 {
        "Fragment reassembly time exceeded"
    } else {
        kind
    }
}

/// Error messages. The invoking packet is shown as data.
pub open spec fn problem(d: Seq<u8>, a: int, kind: Seq<char>, m: Model) -> Model {
    let (ty, code) = (d[0], d[1]);
    let v = be32(d, 4);
    let m = if ty == 2 {
        m.leaf("icmpv6.mtu"@, a + 4, a + 8, ValueView::Unsigned(v as u64)).set_info(
            "Packet Too Big (MTU "@ + dec(v as int) + ")"@,
        )
    } else if ty == 4 {
        m.leaf("icmpv6.pointer"@, a + 4, a + 8, ValueView::Unsigned(v as u64)).set_info(
            "Parameter Problem (pointer "@ + dec(v as int) + ")"@,
        )
    } else {
        m.leaf("icmpv6.reserved"@, a + 4, a + 8, ValueView::Unsigned(v as u64)).set_info(
            detail_of(ty, code, kind),
        )
    };
    rest_as_data(d, 8, a, m)
}

fn write_problem(data: &[u8], a: usize, kind: &'static str, ctx: &mut Ctx)
    requires
        data@.len() >= 8,
        a + data@.len() <= usize::MAX,
    ensures
        final(ctx)@ == problem(data@, a as int, kind@, old(ctx)@),
{
    let ty: u8 = data[0];
    let v: u32 = get_be32(data, 4);
    if ty == 2 {
        let _ = ctx.leaf("icmpv6.mtu", a + 4..a + 8, Value::Unsigned(v as u64));
        ctx.set_info(text::cat_dec("Packet Too Big (MTU ", v as u64, ")"));
    } else if ty == 4 {
        let _ = ctx.leaf("icmpv6.pointer", a + 4..a + 8, Value::Unsigned(v as u64));
        ctx.set_info(text::cat_dec("Parameter Problem (pointer ", v as u64, ")"));
    } else {
        let _ = ctx.leaf("icmpv6.reserved", a + 4..a + 8, Value::Unsigned(v as u64));
        ctx.set_info(text::owned(detail_text(ty, data[1], kind)));
    }
    write_rest(data, 8, a, ctx);
}

/// The widths of the fixed fields behind the header, by message type.
pub open spec fn widths_of(ty: u8) -> Seq<usize> {
    if ty == 128 || ty == 129 {
        ECHO@
    } else if ty == 134 {
        ADVERT@
    } else if ty == 135 || ty == 136 {
        NEIGHBOR@
    } else if ty == 137 {
        REDIRECT@
    } else {
        ONE@
    }
}

/// The message length that holds those fields.
pub open spec fn least_len(ty: u8) -> int {
    if ty == 134 {
        16
    } else if ty == 135 || ty == 136 {
        24
    } else if ty == 137 {
        40
    } else if ty == 128 || ty == 129 || ty == 133 || (1 <= ty && ty <= 4) {
        8
    } else {
        4
    }
}

/// The message behind the header.
pub open spec fn body(d: Seq<u8>, a: int, kind: Seq<char>, m: Model) -> Model {
    let ty = d[0];
    if ty == 128 || ty == 129 {
        let (ident, seq) = (be16(d, 4), be16(d, 6));
        let m = m.leaf(
            "icmpv6.echo.identifier"@,
            a + 4,
            a + 6,
            ValueView::Unsigned(ident as u64),
        ).leaf(
            "icmpv6.echo.sequence_number"@,
            a + 6,
            a + 8,
            ValueView::Unsigned(seq as u64),
        ).set_info(kind + " id=0x"@ + hex_pad(ident as int, 4) + ", seq="@ + dec(seq as int));
        rest_as_data(d, 8, a, m)
    } else if ty == 133 {
        let m = m.leaf(
            "icmpv6.reserved"@,
            a + 4,
            a + 8,
            ValueView::Unsigned(be32(d, 4) as u64),
        ).set_info("Router Solicitation"@);
        options(d, 8, a, m)
    } else if ty == 134 {
        advert(d, a, m)
    } else if ty == 135 {
        let target = d.subrange(8, 24);
        let m = m.leaf(
            "icmpv6.reserved"@,
            a + 4,
            a + 8,
            ValueView::Unsigned(be32(d, 4) as u64),
        ).leaf(
            "icmpv6.nd.ns.target_address"@,
            a + 8,
            a + 24,
            ValueView::Ipv6(target),
        ).set_info("Neighbor Solicitation for "@ + ipv6_text(target));
        options(d, 24, a, m)
    } else if ty == 136 {
        neighbor_advert(d, a, m)
    } else if ty == 137 {
        let target = d.subrange(8, 24);
        let dest = d.subrange(24, 40);
        let m = m.leaf(
            "icmpv6.reserved"@,
            a + 4,
            a + 8,
            ValueView::Unsigned(be32(d, 4) as u64),
        ).leaf(
            "icmpv6.nd.rd.target_address"@,
            a + 8,
            a + 24,
            ValueView::Ipv6(target),
        ).leaf(
            "icmpv6.nd.rd.destination_address"@,
            a + 24,
            a + 40,
            ValueView::Ipv6(dest),
        ).set_info("Redirect "@ + ipv6_text(dest) + " to "@ + ipv6_text(target));
        options(d, 40, a, m)
    } else if 1 <= ty && ty <= 4 {
        problem(d, a, kind, m)
    } else {
        let m = m.set_info(
            kind + " (type "@ + dec(ty as int) + ", code "@ + dec(d[1] as int) + ")"@,
        );
        rest_as_data(d, 4, a, m)
    }
}

#[verifier::rlimit(40)]
fn message(data: &[u8], a: usize, kind: &'static str, ctx: &mut Ctx)
    requires
        data@.len() >= 4,
        data@.len() >= least_len(data@[0]),
        a + data@.len() <= usize::MAX,
    ensures
        final(ctx)@ == body(data@, a as int, kind@, old(ctx)@),
{
    let ty: u8 = data[0];
    if ty == 128 || ty == 129 {
        let ident: u16 = get_be16(data, 4);
        let seq: u16 = get_be16(data, 6);
        let _ = ctx.leaf("icmpv6.echo.identifier", a + 4..a + 6, Value::Unsigned(ident as u64));
        let _ = ctx.leaf("icmpv6.echo.sequence_number", a + 6..a + 8, Value::Unsigned(seq as u64));
        let mut info: String = text::cat(kind, " id=0x");
        text::push_hex(&mut info, ident as u64, 4);
        info.push_str(", seq=");
        text::push_dec(&mut info, seq as u64);
        ctx.set_info(info);
        write_rest(data, 8, a, ctx);
    } else if ty == 133 {
        let _ = ctx.leaf(
            "icmpv6.reserved",
            a + 4..a + 8,
            Value::Unsigned(get_be32(data, 4) as u64),
        );
        ctx.set_info(text::owned("Router Solicitation"));
        read_options(data, 8, a, ctx);
    } else if ty == 134 {
        write_advert(data, a, ctx);
    } else if ty == 135 {
        let target: [u8; 16] = ipv6_at(data, 8);
        let _ = ctx.leaf(
            "icmpv6.reserved",
            a + 4..a + 8,
            Value::Unsigned(get_be32(data, 4) as u64),
        );
        let _ = ctx.leaf("icmpv6.nd.ns.target_address", a + 8..a + 24, Value::Ipv6(target));
        ctx.set_info(text::cat("Neighbor Solicitation for ", fmt_ipv6(target).as_str()));
        read_options(data, 24, a, ctx);
    } else if ty == 136 {
        write_neighbor_advert(data, a, ctx);
    } else if ty == 137 {
        let target: [u8; 16] = ipv6_at(data, 8);
        let dest: [u8; 16] = ipv6_at(data, 24);
        let _ = ctx.leaf(
            "icmpv6.reserved",
            a + 4..a + 8,
            Value::Unsigned(get_be32(data, 4) as u64),
        );
        let _ = ctx.leaf("icmpv6.nd.rd.target_address", a + 8..a + 24, Value::Ipv6(target));
        let _ = ctx.leaf("icmpv6.nd.rd.destination_address", a + 24..a + 40, Value::Ipv6(dest));
        let mut info: String = text::cat("Redirect ", fmt_ipv6(dest).as_str());
        info.push_str(" to ");
        info.push_str(fmt_ipv6(target).as_str());
        ctx.set_info(info);
        read_options(data, 40, a, ctx);
    } else if 1 <= ty && ty <= 4 {
        write_problem(data, a, kind, ctx);
    } else {
        let mut info: String = text::cat(kind, " (type ");
        text::push_dec(&mut info, ty as u64);
        info.push_str(", code ");
        text::push_dec(&mut info, data[1] as u64);
        info.push_str(")");
        ctx.set_info(info);
        write_rest(data, 4, a, ctx);
    }
}

// ---- the layer ------------------------------------------------------------------

/// The checksum status of a message.
pub open spec fn status_of(d: Seq<u8>, m: Model) -> u64 {
    if m.options.validate_transport_checksums {
        verdict(segment_checksum(m, 58, d))
    } else {
        CK_UNVERIFIED
    }
}

/// The ICMPv6 layer.
pub open spec fn layer(d: Seq<u8>, m: Model) -> Outcome {
    let a = m.base;
    let n = d.len() as int;
    if n < 4 {
        (m, Some(shortfall(a, n, HEADER@)))
    } else {
        let ty = d[0];
        let kind = named_or(ICMPV6_TYPES@, ty as u64, "Unknown"@);
        let status = status_of(d, m);
        let m = m.set_protocol("icmpv6"@).begin("icmpv6"@, a, a + n).leaf(
            "icmpv6.type"@,
            a,
            a + 1,
            ValueView::Unsigned(ty as u64),
        ).leaf("icmpv6.code"@, a + 1, a + 2, ValueView::Unsigned(d[1] as u64)).leaf(
            "icmpv6.checksum"@,
            a + 2,
            a + 4,
            ValueView::Unsigned(be16(d, 2) as u64),
        );
        let m = checked(m, "icmpv6.checksum.status"@, a + 2, a + 4, status);
        if n < least_len(ty) {
            (m, Some(shortfall(a + 4, n - 4, widths_of(ty))))
        } else {
            (body(d, a, kind, m).end(), None)
        }
    }
}

pub fn dissect(data: &[u8], ctx: &mut Ctx) -> (r: Result<(), DissectError>)
    requires
        addressable(data@, old(ctx)@),
    ensures
        (final(ctx)@, error_of(r)) == layer(data@, old(ctx)@),
{
    let a: usize = ctx.base();
    let n: usize = data.len();
    if n < 4 {
        return Err(first_short(a, n, &HEADER));
    }
    let ty: u8 = data[0];
    let kind: &'static str = enum_name_or(&ICMPV6_TYPES, ty as u64, "Unknown");
    let status: u64 = if ctx.options().validate_transport_checksums {
        judge(transport_checksum(ctx, 58, data))
    } else {
        CK_UNVERIFIED
    };
    ctx.set_protocol("icmpv6");
    let _ = ctx.begin("icmpv6", a..a + n);
    let _ = ctx.leaf("icmpv6.type", a..a + 1, Value::Unsigned(ty as u64));
    let _ = ctx.leaf("icmpv6.code", a + 1..a + 2, Value::Unsigned(data[1] as u64));
    let _ = ctx.leaf("icmpv6.checksum", a + 2..a + 4, Value::Unsigned(get_be16(data, 2) as u64));
    report_checksum(ctx, "icmpv6.checksum.status", a + 2, a + 4, status);
    if ty == 134 {
        if n < 16 {
            return Err(first_short(a + 4, n - 4, &ADVERT));
        }
    } else if ty == 135 || ty == 136 {
        if n < 24 {
            return Err(first_short(a + 4, n - 4, &NEIGHBOR));
        }
    } else if ty == 137 {
        if n < 40 {
            return Err(first_short(a + 4, n - 4, &REDIRECT));
        }
    } else if ty == 128 || ty == 129 {
        if n < 8 {
            return Err(first_short(a + 4, n - 4, &ECHO));
        }
    } else if ty == 133 || (1 <= ty && ty <= 4) {
        if n < 8 {
            return Err(first_short(a + 4, n - 4, &ONE));
        }
    }
    message(data, a, kind, ctx);
    ctx.end();
    Ok(())
}

} // verus!

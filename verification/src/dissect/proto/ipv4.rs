//! Internet Protocol version 4 (RFC 791) with options and fragment
//! reassembly.

use vstd::prelude::*;

use crate::bytes;
use crate::bytes::{be16, get_be16};
use crate::dissect::ctx::{AddrsView, Ctx, Model, NetAddrs, Proto};
use crate::dissect::cursor::DissectError;
use crate::dissect::node::{Value, ValueView};
use crate::dissect::reassembly::{
    machine_sized, FragInfo, FragKey, FragKeyView, FragResult, FragResultView,
};
use crate::dissect::registry::{enum_name_or, named_or};
use crate::dissect::tables::IPPROTOS;
use crate::dissect::{Addr, AddrView};
use crate::text;
use crate::text::{dec, hex, hex_pad};

use super::{
    addressable, bad_option, bad_option_text, checked, checksum_of, cut, error_of, first_short,
    flat, inet_checksum, ipproto_next, ipv4_at, judge, list_text, next_by_ipproto, report_checksum,
    shortfall, verdict, with_name, NameList, Outcome, Step, CK_UNVERIFIED,
};

verus! {

/// Widths of the header fields behind the version.
pub const REST: [usize; 9] = [1, 2, 2, 2, 1, 1, 2, 4, 4];

// ---- options --------------------------------------------------------------------

/// The addresses in a source route, from position `i` on, four bytes each.
pub open spec fn routes(b: Seq<u8>, i: int, at: int, m: Model) -> Model
    decreases b.len() - i,
{
    if i < 0 || i + 4 > b.len() {
        m
    } else {
        routes(
            b,
            i + 4,
            at,
            m.leaf("ip.opt.route"@, at + i, at + i + 4, ValueView::Ipv4(b.subrange(i, i + 4))),
        )
    }
}

fn write_routes(b: &[u8], at: usize, ctx: &mut Ctx)
    requires
        b@.len() >= 1,
        at + b@.len() <= usize::MAX,
    ensures
        final(ctx)@ == routes(b@, 1, at as int, old(ctx)@),
        final(ctx)@.count() >= old(ctx)@.count(),
        final(ctx)@.base == old(ctx)@.base,
{
    let mut i: usize = 1;
    while b.len() - i >= 4
        invariant
            1 <= i <= b@.len(),
            at + b@.len() <= usize::MAX,
            ctx@.count() >= old(ctx)@.count(),
            ctx@.base == old(ctx)@.base,
            routes(b@, 1, at as int, old(ctx)@) == routes(b@, i as int, at as int, ctx@),
        decreases b.len() - i,
    {
        let _ = ctx.leaf("ip.opt.route", at + i..at + i + 4, Value::Ipv4(ipv4_at(b, i)));
        i = i + 4;
    }
}

/// What the body of an option shows, and the option's label.
pub open spec fn option_body(ty: u8, len: u8, b: Seq<u8>, at: int, m: Model) -> (
    Model,
    Seq<char>,
) {
    if ty == 148 && b.len() == 2 {
        let v = be16(b, 0);
        (
            m.leaf("ip.opt.ra"@, at, at + b.len(), ValueView::Unsigned(v as u64)),
            "Router Alert ("@ + dec(len as int) + " bytes): "@ + dec(v as int),
        )
    } else if (ty == 7 || ty == 131 || ty == 137) && b.len() > 0 {
        (
            routes(
                b,
                1,
                at,
                m.leaf("ip.opt.ptr"@, at, at + 1, ValueView::Unsigned(b[0] as u64)),
            ),
            (if ty == 7 {
                "Record Route"@
            } else if ty == 131 {
                "Loose Source Route"@
            } else {
                "Strict Source Route"@
            }) + " ("@ + dec(len as int) + " bytes)"@,
        )
    } else {
        (
            m.leaf("ip.opt.data"@, at, at + b.len(), ValueView::Bytes),
            "Option "@ + dec(ty as int) + " ("@ + dec(len as int) + " bytes)"@,
        )
    }
}

fn write_option_body(ty: u8, len: u8, b: &[u8], at: usize, ctx: &mut Ctx) -> (r: String)
    requires
        at + b@.len() <= usize::MAX,
    ensures
        (final(ctx)@, r@) == option_body(ty, len, b@, at as int, old(ctx)@),
        final(ctx)@.count() >= old(ctx)@.count(),
        final(ctx)@.base == old(ctx)@.base,
{
    if ty == 148 && b.len() == 2 {
        let v: u16 = get_be16(b, 0);
        let _ = ctx.leaf("ip.opt.ra", at..at + b.len(), Value::Unsigned(v as u64));
        let mut out: String = text::cat_dec("Router Alert (", len as u64, " bytes): ");
        text::push_dec(&mut out, v as u64);
        out
    } else if (ty == 7 || ty == 131 || ty == 137) && b.len() > 0 {
        let _ = ctx.leaf("ip.opt.ptr", at..at + 1, Value::Unsigned(b[0] as u64));
        write_routes(b, at, ctx);
        let name: &str = if ty == 7 {
            "Record Route"
        } else if ty == 131 {
            "Loose Source Route"
        } else {
            "Strict Source Route"
        };
        let mut out: String = text::cat(name, " (");
        text::push_dec(&mut out, len as u64);
        out.push_str(" bytes)");
        out
    } else {
        let _ = ctx.leaf("ip.opt.data", at..at + b.len(), Value::Bytes);
        let mut out: String = text::cat_dec("Option ", ty as u64, " (");
        text::push_dec(&mut out, len as u64);
        out.push_str(" bytes)");
        out
    }
}

/// One option at position `i` of the option bytes `o`, whose first byte sits
/// at absolute offset `at`.
pub open spec fn option(o: Seq<u8>, i: int, at: int, m: Model) -> (Model, int, Step) {
    let p = at + i;
    let ty = o[i];
    let opt = m.count();
    let m = m.begin("ip.opt"@, p, p).leaf(
        "ip.opt.type"@,
        p,
        p + 1,
        ValueView::Unsigned(ty as u64),
    );
    if ty == 0 {
        (
            m.set_text(opt, "End of Options List (EOL)"@).end_at(opt, p + 1),
            i + 1,
            Step::Last,
        )
    } else if ty == 1 {
        (m.set_text(opt, "No-Operation (NOP)"@).end_at(opt, p + 1), i + 1, Step::Next)
    } else if i + 1 >= o.len() {
        (m, i + 1, Step::Failed(cut(p + 1, 1, 0)))
    } else {
        let len = o[i + 1];
        let body = len - 2;
        let left = o.len() - i - 2;
        if len < 2 {
            (
                m,
                i + 2,
                Step::Failed(
                    DissectError::Invalid {
                        at: (p + 1) as usize,
                        what: "IPv4 option length (< 2)",
                    },
                ),
            )
        } else {
            let m = m.leaf("ip.opt.len"@, p + 1, p + 2, ValueView::Unsigned(len as u64));
            if left < body {
                (m, i + 2, Step::Failed(cut(p + 2, body, left)))
            } else {
                let (m, text) = option_body(ty, len, o.subrange(i + 2, i + len), p + 2, m);
                (m.set_text(opt, text).end_at(opt, p + len), i + len, Step::Next)
            }
        }
    }
}

fn read_option(o: &[u8], i: usize, at: usize, ctx: &mut Ctx) -> (r: (usize, Step))
    requires
        i < o@.len(),
        at + o@.len() <= usize::MAX,
    ensures
        (final(ctx)@, r.0 as int, r.1) == option(o@, i as int, at as int, old(ctx)@),
        i < r.0 <= o@.len(),
        final(ctx)@.count() >= old(ctx)@.count(),
        final(ctx)@.base == old(ctx)@.base,
{
    let p: usize = at + i;
    let ty: u8 = o[i];
    let opt: usize = ctx.begin("ip.opt", p..p);
    let _ = ctx.leaf("ip.opt.type", p..p + 1, Value::Unsigned(ty as u64));
    if ty == 0 {
        ctx.set_text(opt, "End of Options List (EOL)");
        ctx.end_at(opt, p + 1);
        return (i + 1, Step::Last);
    }
    if ty == 1 {
        ctx.set_text(opt, "No-Operation (NOP)");
        ctx.end_at(opt, p + 1);
        return (i + 1, Step::Next);
    }
    if i + 1 >= o.len() {
        return (i + 1, Step::Failed(DissectError::Truncated { at: p + 1, need: 1, have: 0 }));
    }
    let len: u8 = o[i + 1];
    if len < 2 {
        return (
            i + 2,
            Step::Failed(DissectError::Invalid { at: p + 1, what: "IPv4 option length (< 2)" }),
        );
    }
    let _ = ctx.leaf("ip.opt.len", p + 1..p + 2, Value::Unsigned(len as u64));
    let body: usize = len as usize - 2;
    let left: usize = o.len() - i - 2;
    if left < body {
        return (
            i + 2,
            Step::Failed(DissectError::Truncated { at: p + 2, need: body, have: left }),
        );
    }
    let label: String = write_option_body(
        ty,
        len,
        bytes::part(o, i + 2, i + len as usize),
        p + 2,
        ctx,
    );
    ctx.set_text(opt, label.as_str());
    ctx.end_at(opt, p + len as usize);
    (i + len as usize, Step::Next)
}

/// The options from position `i` on. What follows End-of-Options is padding
/// to the 32-bit boundary; an option that cannot be read leaves the rest
/// malformed.
pub open spec fn options(o: Seq<u8>, i: int, at: int, m: Model) -> Model
    decreases o.len() - i,
{
    if i < 0 || i >= o.len() {
        m
    } else {
        let end = at + o.len();
        let (next, j, step) = option(o, i, at, m);
        match step {
            Step::Next => if i < j <= o.len() {
                options(o, j, at, next)
            } else {
                next
            },
            Step::Last => if j < o.len() {
                next.leaf("ip.opt.padding"@, at + j, end, ValueView::Bytes)
            } else {
                next
            },
            Step::Failed(e) => next.at_depth(m.trace.depth).leaf_text(
                "_ws.malformed"@,
                at + j,
                end,
                ValueView::Empty,
                bad_option(e),
            ),
        }
    }
}

fn read_options(o: &[u8], at: usize, ctx: &mut Ctx)
    requires
        at + o@.len() <= usize::MAX,
    ensures
        final(ctx)@ == options(o@, 0, at as int, old(ctx)@),
        final(ctx)@.count() >= old(ctx)@.count(),
        final(ctx)@.base == old(ctx)@.base,
{
    let mut i: usize = 0;
    let end: usize = at + o.len();
    while i < o.len()
        invariant
            i <= o@.len(),
            end == at + o@.len(),
            end <= usize::MAX,
            ctx@.count() >= old(ctx)@.count(),
            ctx@.base == old(ctx)@.base,
            options(o@, 0, at as int, old(ctx)@) == options(o@, i as int, at as int, ctx@),
        decreases o.len() - i,
    {
        let depth: u8 = ctx.depth();
        let (j, step) = read_option(o, i, at, ctx);
        match step {
            Step::Next => {
                i = j;
            },
            Step::Last => {
                // Everything after EOL is padding to the 32-bit boundary.
                if j < o.len() {
                    let _ = ctx.leaf("ip.opt.padding", at + j..end, Value::Bytes);
                }
                return;
            },
            Step::Failed(e) => {
                ctx.restore_depth(depth);
                let _ = ctx.leaf_text(
                    "_ws.malformed",
                    at + j..end,
                    Value::Empty,
                    bad_option_text(e).as_str(),
                );
                return;
            },
        }
    }
}

// ---- the header -----------------------------------------------------------------

/// The names of the set flags.
pub open spec fn flag_list(flags: u16) -> Seq<u8> {
    let l = Seq::empty();
    let l = if flags & 0x8000 != 0 {
        with_name(l, "Reserved"@)
    } else {
        l
    };
    let l = if flags & 0x4000 != 0 {
        with_name(l, "Don't fragment"@)
    } else {
        l
    };
    if flags & 0x2000 != 0 {
        with_name(l, "More fragments"@)
    } else {
        l
    }
}

/// The label of the flags.
pub open spec fn flags_label(flags: u16) -> Seq<char> {
    let bits = "Flags: 0x"@ + hex((flags >> 13) as int);
    if flag_list(flags).len() == 0 {
        bits
    } else {
        bits + " ("@ + list_text(flag_list(flags)) + ")"@
    }
}

fn flags_text(flags: u16) -> (r: String)
    ensures
        r@ == flags_label(flags),
{
    let mut names = NameList::new();
    if flags & 0x8000 != 0 {
        names.push("Reserved");
    }
    if flags & 0x4000 != 0 {
        names.push("Don't fragment");
    }
    if flags & 0x2000 != 0 {
        names.push("More fragments");
    }
    let mut out: String = text::owned("Flags: 0x");
    text::push_hex(&mut out, (flags >> 13) as u64, 1);
    if !names.is_empty() {
        out.push_str(" (");
        out.push_str(names.as_str());
        out.push_str(")");
    }
    out
}

/// Segmentation offload: the length is left zero for the card to fill in,
/// although there is a payload.
pub open spec fn offloaded(d: Seq<u8>, ihl: int) -> bool {
    be16(d, 2) == 0 && d.len() > ihl
}

/// The header checksum status. It covers the options too, and a card that
/// fills in the length fills in the checksum as well.
pub open spec fn status_of(d: Seq<u8>, m: Model, ihl: int) -> u64 {
    if !m.options.validate_ip_checksums || d.len() < ihl || (offloaded(d, ihl) && be16(d, 10)
        == 0) {
        CK_UNVERIFIED
    } else {
        verdict(Some(checksum_of(d.subrange(0, ihl))))
    }
}

/// The fields of the fixed header.
pub open spec fn header_fields(d: Seq<u8>, m: Model, ihl: int, status: u64) -> Model {
    let a = m.base;
    let ds = d[1];
    let flags = be16(d, 6);
    let src = d.subrange(12, 16);
    let dst = d.subrange(16, 20);
    let m = m.set_protocol("ip"@).between(AddrView::Ipv4(src), AddrView::Ipv4(dst)).with_addrs(
        Some(AddrsView::V4(src, dst)),
    ).begin("ip"@, a, a).leaf(
        "ip.version"@,
        a,
        a + 1,
        ValueView::Unsigned((d[0] >> 4) as u64),
    ).leaf("ip.hdr_len"@, a, a + 1, ValueView::Unsigned(ihl as u64)).begin_value(
        "ip.dsfield"@,
        a + 1,
        a + 2,
        ValueView::Unsigned(ds as u64),
    ).leaf("ip.dsfield.dscp"@, a + 1, a + 2, ValueView::Unsigned((ds >> 2) as u64)).leaf(
        "ip.dsfield.ecn"@,
        a + 1,
        a + 2,
        ValueView::Unsigned((ds & 3) as u64),
    ).end().leaf("ip.len"@, a + 2, a + 4, ValueView::Unsigned(be16(d, 2) as u64));
    let m = if offloaded(d, ihl) {
        m.leaf("ip.len_tso"@, a + 2, a + 4, ValueView::Bool(true))
    } else {
        m
    };
    let m = m.leaf("ip.id"@, a + 4, a + 6, ValueView::Unsigned(be16(d, 4) as u64));
    let fl = m.count();
    let m = m.begin_value(
        "ip.flags"@,
        a + 6,
        a + 8,
        ValueView::Unsigned((flags >> 13) as u64),
    ).set_text(fl, flags_label(flags)).leaf(
        "ip.flags.rb"@,
        a + 6,
        a + 8,
        ValueView::Bool(flags & 0x8000 != 0),
    ).leaf("ip.flags.df"@, a + 6, a + 8, ValueView::Bool(flags & 0x4000 != 0)).leaf(
        "ip.flags.mf"@,
        a + 6,
        a + 8,
        ValueView::Bool(flags & 0x2000 != 0),
    ).end().leaf(
        "ip.frag_offset"@,
        a + 6,
        a + 8,
        ValueView::Unsigned(((flags & 0x1fff) * 8) as u64),
    ).leaf("ip.ttl"@, a + 8, a + 9, ValueView::Unsigned(d[8] as u64)).leaf(
        "ip.proto"@,
        a + 9,
        a + 10,
        ValueView::Unsigned(d[9] as u64),
    ).leaf("ip.checksum"@, a + 10, a + 12, ValueView::Unsigned(be16(d, 10) as u64));
    checked(m, "ip.checksum.status"@, a + 10, a + 12, status).leaf(
        "ip.src"@,
        a + 12,
        a + 16,
        ValueView::Ipv4(src),
    ).leaf("ip.dst"@, a + 16, a + 20, ValueView::Ipv4(dst))
}

/// The row that will be the layer's own.
pub open spec fn own_row(d: Seq<u8>, m: Model) -> int {
    m.set_protocol("ip"@).between(
        AddrView::Ipv4(d.subrange(12, 16)),
        AddrView::Ipv4(d.subrange(16, 20)),
    ).with_addrs(Some(AddrsView::V4(d.subrange(12, 16), d.subrange(16, 20)))).count()
}

fn write_header(data: &[u8], ctx: &mut Ctx, ihl: usize, status: u64) -> (ip: usize)
    requires
        data@.len() >= 20,
        addressable(data@, old(ctx)@),
    ensures
        final(ctx)@ == header_fields(data@, old(ctx)@, ihl as int, status),
        ip == own_row(data@, old(ctx)@),
        ip < final(ctx)@.count(),
        final(ctx)@.base == old(ctx)@.base,
{
    let a: usize = ctx.base();
    let ds: u8 = data[1];
    let total: u16 = get_be16(data, 2);
    let flags: u16 = get_be16(data, 6);
    let src: [u8; 4] = ipv4_at(data, 12);
    let dst: [u8; 4] = ipv4_at(data, 16);
    let low: u16 = flags & 0x1fff;
    assert(low <= 0x1fff) by (bit_vector)
        requires
            low == flags & 0x1fff,
    ;
    ctx.set_protocol("ip");
    ctx.set_addresses(Addr::Ipv4(src), Addr::Ipv4(dst));
    ctx.set_net_addrs(Some(NetAddrs::V4(src, dst)));
    let ip: usize = ctx.begin("ip", a..a);
    let _ = ctx.leaf("ip.version", a..a + 1, Value::Unsigned((data[0] >> 4) as u64));
    let _ = ctx.leaf("ip.hdr_len", a..a + 1, Value::Unsigned(ihl as u64));
    let _ = ctx.begin_value("ip.dsfield", a + 1..a + 2, Value::Unsigned(ds as u64));
    let _ = ctx.leaf("ip.dsfield.dscp", a + 1..a + 2, Value::Unsigned((ds >> 2) as u64));
    let _ = ctx.leaf("ip.dsfield.ecn", a + 1..a + 2, Value::Unsigned((ds & 3) as u64));
    ctx.end();
    let _ = ctx.leaf("ip.len", a + 2..a + 4, Value::Unsigned(total as u64));
    if total == 0 && data.len() > ihl {
        let _ = ctx.leaf("ip.len_tso", a + 2..a + 4, Value::Bool(true));
    }
    let _ = ctx.leaf("ip.id", a + 4..a + 6, Value::Unsigned(get_be16(data, 4) as u64));
    let fl: usize = ctx.begin_value(
        "ip.flags",
        a + 6..a + 8,
        Value::Unsigned((flags >> 13) as u64),
    );
    ctx.set_text(fl, flags_text(flags).as_str());
    let _ = ctx.leaf("ip.flags.rb", a + 6..a + 8, Value::Bool(flags & 0x8000 != 0));
    let _ = ctx.leaf("ip.flags.df", a + 6..a + 8, Value::Bool(flags & 0x4000 != 0));
    let _ = ctx.leaf("ip.flags.mf", a + 6..a + 8, Value::Bool(flags & 0x2000 != 0));
    ctx.end();
    let _ = ctx.leaf("ip.frag_offset", a + 6..a + 8, Value::Unsigned((low * 8) as u64));
    let _ = ctx.leaf("ip.ttl", a + 8..a + 9, Value::Unsigned(data[8] as u64));
    let _ = ctx.leaf("ip.proto", a + 9..a + 10, Value::Unsigned(data[9] as u64));
    let _ = ctx.leaf("ip.checksum", a + 10..a + 12, Value::Unsigned(get_be16(data, 10) as u64));
    report_checksum(ctx, "ip.checksum.status", a + 10, a + 12, status);
    let _ = ctx.leaf("ip.src", a + 12..a + 16, Value::Ipv4(src));
    let _ = ctx.leaf("ip.dst", a + 16..a + 20, Value::Ipv4(dst));
    ip
}

// ---- fragments ------------------------------------------------------------------

/// A row for each fragment of a reassembled datagram, from `i` on.
pub open spec fn fragment_rows(f: Seq<FragInfo>, i: int, m: Model) -> Model
    decreases f.len() - i,
{
    if i < 0 || i >= f.len() {
        m
    } else {
        let (from, to) = (f[i].offset as int, f[i].offset + f[i].len);
        fragment_rows(
            f,
            i + 1,
            m.leaf_text(
                "ip.fragment"@,
                from,
                to,
                ValueView::Empty,
                "[Frame: "@ + dec(f[i].frame as int) + ", payload: "@ + dec(from) + "-"@ + dec(to)
                    + " ("@ + dec(f[i].len as int) + " bytes)]"@,
            ),
        )
    }
}

fn write_fragments(f: &Vec<FragInfo>, ctx: &mut Ctx)
    requires
        machine_sized(f@),
    ensures
        final(ctx)@ == fragment_rows(f@, 0, old(ctx)@),
        final(ctx)@.count() >= old(ctx)@.count(),
        final(ctx)@.base == old(ctx)@.base,
{
    let mut i: usize = 0;
    while i < f.len()
        invariant
            i <= f@.len(),
            machine_sized(f@),
            ctx@.count() >= old(ctx)@.count(),
            ctx@.base == old(ctx)@.base,
            fragment_rows(f@, 0, old(ctx)@) == fragment_rows(f@, i as int, ctx@),
        decreases f.len() - i,
    {
        let info: FragInfo = f[i];
        assert(f@[i as int].end() <= usize::MAX);
        let to: usize = info.offset + info.len;
        let mut label: String = text::cat_dec("[Frame: ", info.frame as u64, ", payload: ");
        text::push_dec(&mut label, info.offset as u64);
        label.push_str("-");
        text::push_dec(&mut label, to as u64);
        label.push_str(" (");
        text::push_dec(&mut label, info.len as u64);
        label.push_str(" bytes)]");
        let _ = ctx.leaf_text("ip.fragment", info.offset..to, Value::Empty, label.as_str());
        i += 1;
    }
}

/// A fragment: hand it to reassembly, unless it is quoted in another packet.
/// The datagram it completes becomes a data source of its own and goes to
/// `next`; short of that, the payload is shown as data.
pub open spec fn fragment(
    m: Model,
    key: FragKeyView,
    offset: usize,
    more: bool,
    payload: Seq<u8>,
    head: int,
    next: Proto,
) -> Model {
    let a = m.base;
    let here = m.source;
    let (m, result) = if m.nesting == 0 {
        m.add_fragment(key, offset, more, payload)
    } else {
        (m, FragResultView::Rejected("nested fragment"@))
    };
    match result {
        FragResultView::Complete { data, frags } => {
            let total = data.len() as int;
            let id = m.next_source();
            let m = m.add_source(data).in_source(id).begin_text(
                "ip.fragments"@,
                0,
                total,
                "["@ + dec(frags.len() as int) + " IPv4 Fragments ("@ + dec(total) + " bytes)]"@,
            );
            fragment_rows(frags, 0, m).leaf(
                "ip.fragment.count"@,
                0,
                0,
                ValueView::Unsigned(frags.len() as u64),
            ).leaf("ip.reassembled.length"@, 0, 0, ValueView::Unsigned(total as u64)).leaf(
                "ip.reassembled.data"@,
                0,
                total,
                ValueView::Bytes,
            ).end().in_source(here).call_next_in_source(next, id)
        },
        _ => {
            // A generated note: the payload bytes are shown by the `data`
            // layer that follows, so this note carries no byte range.
            let m = m.begin_text(
                "ip.fragment"@,
                a + head,
                a + head,
                "[Fragment of IPv4 datagram ID 0x"@ + hex_pad(key.id as int, 4) + ", offset "@
                    + dec(offset as int) + "]"@,
            );
            let m = match result {
                FragResultView::Rejected(why) => m.leaf_text(
                    "_ws.malformed"@,
                    0,
                    0,
                    ValueView::Empty,
                    "[Reassembly rejected: "@ + why + "]"@,
                ),
                _ => m,
            };
            m.end().call_next_bounded(Proto::Data, head, payload.len() as int)
        },
    }
}

fn take_fragment(
    ctx: &mut Ctx,
    key: FragKey,
    offset: usize,
    more: bool,
    payload: &[u8],
    head: usize,
    next: Proto,
)
    requires
        old(ctx)@.base + head <= usize::MAX,
    ensures
        final(ctx)@ == fragment(
            old(ctx)@,
            key@,
            offset,
            more,
            payload@,
            head as int,
            next,
        ),
        final(ctx)@.count() >= old(ctx)@.count(),
        final(ctx)@.base == old(ctx)@.base,
{
    let a: usize = ctx.base();
    let here: u8 = ctx.source();
    let result: FragResult = if ctx.nesting() == 0 {
        ctx.add_fragment(key, offset, more, payload)
    } else {
        FragResult::Rejected("nested fragment")
    };
    match result {
        FragResult::Complete { data, frags } => {
            let total: usize = data.len();
            let id: u8 = ctx.add_source(data);
            ctx.in_source(id);
            let mut label: String = text::cat_dec("[", frags.len() as u64, " IPv4 Fragments (");
            text::push_dec(&mut label, total as u64);
            label.push_str(" bytes)]");
            let _ = ctx.begin_text("ip.fragments", 0..total, label.as_str());
            write_fragments(&frags, ctx);
            let _ = ctx.leaf("ip.fragment.count", 0..0, Value::Unsigned(frags.len() as u64));
            let _ = ctx.leaf("ip.reassembled.length", 0..0, Value::Unsigned(total as u64));
            let _ = ctx.leaf("ip.reassembled.data", 0..total, Value::Bytes);
            ctx.end();
            ctx.in_source(here);
            ctx.call_next_in_source(next, id);
        },
        FragResult::Pending { received: _ } => {
            note_fragment(ctx, a + head, key.id, offset);
            ctx.end();
            ctx.call_next_bounded(Proto::Data, head, payload.len());
        },
        FragResult::Rejected(why) => {
            note_fragment(ctx, a + head, key.id, offset);
            let mut label: String = text::cat("[Reassembly rejected: ", why);
            label.push_str("]");
            let _ = ctx.leaf_text("_ws.malformed", 0..0, Value::Empty, label.as_str());
            ctx.end();
            ctx.call_next_bounded(Proto::Data, head, payload.len());
        },
    }
}

fn note_fragment(ctx: &mut Ctx, at: usize, id: u16, offset: usize)
    ensures
        final(ctx)@ == old(ctx)@.begin_text(
            "ip.fragment"@,
            at as int,
            at as int,
            "[Fragment of IPv4 datagram ID 0x"@ + hex_pad(id as int, 4) + ", offset "@ + dec(
                offset as int,
            ) + "]"@,
        ),
        final(ctx)@.count() >= old(ctx)@.count(),
        final(ctx)@.base == old(ctx)@.base,
{
    let mut label: String = text::owned("[Fragment of IPv4 datagram ID 0x");
    text::push_hex(&mut label, id as u64, 4);
    label.push_str(", offset ");
    text::push_dec(&mut label, offset as u64);
    label.push_str("]");
    let _ = ctx.begin_text("ip.fragment", at..at, label.as_str());
}

// ---- the layer ------------------------------------------------------------------

/// The bytes behind the header that belong to the packet: as many as the
/// total length says, and were captured.
pub open spec fn payload_len(d: Seq<u8>, ihl: int) -> int {
    let said = be16(d, 2) - ihl;
    let left = d.len() - ihl;
    if offloaded(d, ihl) || said > left {
        left
    } else if said < 0 {
        0
    } else {
        said
    }
}

/// The IPv4 layer.
pub open spec fn layer(d: Seq<u8>, m: Model) -> Outcome {
    let a = m.base;
    let n = d.len() as int;
    if n < 1 {
        (m, Some(cut(a, 1, 0)))
    } else if d[0] >> 4 != 4 {
        (m, Some(DissectError::Invalid { at: a as usize, what: "IP version (expected 4)" }))
    } else if (d[0] & 0x0f) * 4 < 20 {
        (m, Some(DissectError::Invalid { at: a as usize, what: "IPv4 header length (IHL < 5)" }))
    } else if n < 20 {
        (m, Some(shortfall(a + 1, n - 1, REST@)))
    } else {
        let ihl = (d[0] & 0x0f) * 4;
        let proto = d[9];
        let id = be16(d, 4);
        let more = be16(d, 6) & 0x2000 != 0;
        let offset = (be16(d, 6) & 0x1fff) * 8;
        let ip = own_row(d, m);
        let m = header_fields(d, m, ihl, status_of(d, m, ihl));
        if ihl > n {
            (m, Some(cut(a + 20, ihl - 20, n - 20)))
        } else {
            let m = if ihl > 20 {
                options(
                    d.subrange(20, ihl),
                    0,
                    a + 20,
                    m.begin_text(
                        "ip.options"@,
                        a + 20,
                        a + ihl,
                        "Options: ("@ + dec(ihl - 20) + " bytes)"@,
                    ),
                ).end()
            } else {
                m
            };
            let len = payload_len(d, ihl);
            let next = next_by_ipproto(proto);
            let name = named_or(IPPROTOS@, proto as u64, "Unknown"@);
            let m = if next == Proto::Data {
                m.set_info(name + " ("@ + dec(proto as int) + ")"@)
            } else {
                m
            };
            if more || offset > 0 {
                let m = m.set_info(
                    "Fragmented IP protocol (proto="@ + name + " "@ + dec(proto as int) + ", off="@
                        + dec(offset) + ", ID="@ + hex_pad(id as int, 4) + ")"@,
                );
                let key = FragKeyView {
                    src: d.subrange(12, 16),
                    dst: d.subrange(16, 20),
                    id,
                    proto,
                };
                (
                    fragment(
                        m,
                        key,
                        offset as usize,
                        more,
                        d.subrange(ihl, ihl + len),
                        ihl,
                        next,
                    ).end_at(ip, a + ihl),
                    None,
                )
            } else {
                (m.end_at(ip, a + ihl).call_next_bounded(next, ihl, len), None)
            }
        }
    }
}

#[verifier::rlimit(40)]
pub fn dissect(data: &[u8], ctx: &mut Ctx) -> (r: Result<(), DissectError>)
    requires
        addressable(data@, old(ctx)@),
    ensures
        (final(ctx)@, error_of(r)) == layer(data@, old(ctx)@),
{
    let a: usize = ctx.base();
    let n: usize = data.len();
    if n < 1 {
        return Err(DissectError::Truncated { at: a, need: 1, have: 0 });
    }
    let first: u8 = data[0];
    if first >> 4 != 4 {
        return Err(DissectError::Invalid { at: a, what: "IP version (expected 4)" });
    }
    let words: u8 = first & 0x0f;
    assert(words <= 15) by (bit_vector)
        requires
            words == first & 0x0f,
    ;
    let ihl: usize = words as usize * 4;
    if ihl < 20 {
        return Err(DissectError::Invalid { at: a, what: "IPv4 header length (IHL < 5)" });
    }
    if n < 20 {
        return Err(first_short(a + 1, n - 1, &REST));
    }
    let proto: u8 = data[9];
    let id: u16 = get_be16(data, 4);
    let total: u16 = get_be16(data, 2);
    let flags: u16 = get_be16(data, 6);
    let more: bool = flags & 0x2000 != 0;
    let low: u16 = flags & 0x1fff;
    assert(low <= 0x1fff) by (bit_vector)
        requires
            low == flags & 0x1fff,
    ;
    let offset: usize = low as usize * 8;
    let tso: bool = total == 0 && n > ihl;
    // Header checksum over the whole header including options.
    let status: u64 = if !ctx.options().validate_ip_checksums || n < ihl || (tso && get_be16(
        data,
        10,
    ) == 0) {
        CK_UNVERIFIED
    } else {
        let head: &[u8] = bytes::part(data, 0, ihl);
        let parts: [&[u8]; 1] = [head];
        proof {
            reveal_with_fuel(flat, 2);
            assert(parts@.drop_last() =~= Seq::empty());
            assert(flat(parts@) =~= head@);
        }
        judge(Some(inet_checksum(&parts)))
    };
    let ip: usize = write_header(data, ctx, ihl, status);
    if ihl > n {
        return Err(DissectError::Truncated { at: a + 20, need: ihl - 20, have: n - 20 });
    }
    // Options occupy the rest of the header.
    if ihl > 20 {
        let label: String = text::cat_dec("Options: (", (ihl - 20) as u64, " bytes)");
        let _ = ctx.begin_text("ip.options", a + 20..a + ihl, label.as_str());
        read_options(bytes::part(data, 20, ihl), a + 20, ctx);
        ctx.end();
    }
    // The payload is bounded by total length (and by what was captured).
    let left: usize = n - ihl;
    let len: usize = if tso {
        left
    } else if (total as usize) < ihl {
        0
    } else if total as usize - ihl > left {
        left
    } else {
        total as usize - ihl
    };
    let next: Proto = ipproto_next(proto);
    let name: &'static str = enum_name_or(&IPPROTOS, proto as u64, "Unknown");
    if next == Proto::Data {
        let mut info: String = text::cat(name, " (");
        text::push_dec(&mut info, proto as u64);
        info.push_str(")");
        ctx.set_info(info);
    }
    if more || offset > 0 {
        // A fragment. Try to reassemble; this frame's payload is shown as
        // data either way.
        let mut info: String = text::cat("Fragmented IP protocol (proto=", name);
        info.push_str(" ");
        text::push_dec(&mut info, proto as u64);
        info.push_str(", off=");
        text::push_dec(&mut info, offset as u64);
        info.push_str(", ID=");
        text::push_hex(&mut info, id as u64, 4);
        info.push_str(")");
        ctx.set_info(info);
        let key = FragKey { src: ipv4_at(data, 12), dst: ipv4_at(data, 16), id, proto };
        take_fragment(ctx, key, offset, more, bytes::part(data, ihl, ihl + len), ihl, next);
        ctx.end_at(ip, a + ihl);
        return Ok(());
    }
    ctx.end_at(ip, a + ihl);
    ctx.call_next_bounded(next, ihl, len);
    Ok(())
}

} // verus!

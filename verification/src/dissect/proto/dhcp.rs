//! DHCP over BOOTP (RFC 2131 / RFC 2132).

use vstd::prelude::*;

use crate::bytes;
use crate::bytes::{be16, be32, get_be16, get_be32};
use crate::dissect::ctx::{Ctx, Model};
use crate::dissect::cursor::DissectError;
use crate::dissect::node::{fmt_ipv4, fmt_mac, ipv4_text, mac_text, Value, ValueView};
use crate::dissect::registry::{enum_name_or, named_or};
use crate::dissect::tables::{DHCP_MSG_TYPES, DHCP_OPTIONS};
use crate::text;
use crate::text::{dec, hex, joined, left_aligned, texts, utf8_lossy};

use super::{
    addressable, bad_option, bad_option_text, cut, error_of, first_short, ipv4_at, mac_at,
    shortfall, Outcome, Step,
};

verus! {

/// The cookie that announces options.
pub const MAGIC: u32 = 0x6382_5363;

/// Widths of the header fields.
pub const HEADER: [usize; 14] = [1, 1, 1, 1, 4, 2, 2, 4, 4, 4, 4, 16, 64, 128];

// ---- text in fixed-size fields --------------------------------------------------

/// The position of the first zero byte from `i` on, or the length.
pub open spec fn terminator(b: Seq<u8>, i: int) -> int
    decreases b.len() - i,
{
    if i < 0 || i >= b.len() || b[i] == 0 {
        i
    } else {
        terminator(b, i + 1)
    }
}

/// The text in `b` up to its first zero byte.
pub open spec fn c_text(b: Seq<u8>) -> Seq<char> {
    utf8_lossy(b.subrange(0, terminator(b, 0)))
}

fn cstr(b: &[u8]) -> (r: String)
    ensures
        r@ == c_text(b@),
{
    let mut i: usize = 0;
    while i < b.len() && b[i] != 0
        invariant
            i <= b@.len(),
            terminator(b@, 0) == terminator(b@, i as int),
        decreases b.len() - i,
    {
        i += 1;
    }
    text::from_utf8_lossy(bytes::part(b, 0, i))
}

// ---- options --------------------------------------------------------------------

/// A field for each address in `b` from `i` on, and the addresses as text.
pub open spec fn address_rows(
    b: Seq<u8>,
    i: int,
    at: int,
    abbrev: Seq<char>,
    m: Model,
    parts: Seq<Seq<char>>,
) -> (Model, Seq<Seq<char>>)
    decreases b.len() - i,
{
    if i < 0 || i + 4 > b.len() {
        (m, parts)
    } else {
        let a = b.subrange(i, i + 4);
        address_rows(
            b,
            i + 4,
            at,
            abbrev,
            m.leaf(abbrev, at + i, at + i + 4, ValueView::Ipv4(a)),
            parts.push(ipv4_text(a)),
        )
    }
}

fn write_addresses(b: &[u8], at: usize, abbrev: &'static str, ctx: &mut Ctx) -> (r: String)
    requires
        at + b@.len() <= usize::MAX,
    ensures
        ({
            let (m, parts) = address_rows(b@, 0, at as int, abbrev@, old(ctx)@, Seq::empty());
            final(ctx)@ == m && r@ == joined(parts, ", "@)
        }),
        final(ctx)@.count() >= old(ctx)@.count(),
        final(ctx)@.base == old(ctx)@.base,
{
    let mut parts: Vec<String> = Vec::new();
    let mut i: usize = 0;
    assert(texts(parts@) =~= Seq::empty());
    while b.len() - i >= 4
        invariant
            i <= b@.len(),
            at + b@.len() <= usize::MAX,
            ctx@.count() >= old(ctx)@.count(),
            ctx@.base == old(ctx)@.base,
            address_rows(b@, 0, at as int, abbrev@, old(ctx)@, Seq::empty()) == address_rows(
                b@,
                i as int,
                at as int,
                abbrev@,
                ctx@,
                texts(parts@),
            ),
        decreases b.len() - i,
    {
        let a: [u8; 4] = ipv4_at(b, i);
        let _ = ctx.leaf(abbrev, at + i..at + i + 4, Value::Ipv4(a));
        text::push_text(&mut parts, fmt_ipv4(a));
        i = i + 4;
    }
    text::join(&parts, ", ")
}

/// A field for each requested option in `b` from `i` on, and their numbers.
pub open spec fn request_rows(
    b: Seq<u8>,
    i: int,
    at: int,
    m: Model,
    parts: Seq<Seq<char>>,
) -> (Model, Seq<Seq<char>>)
    decreases b.len() - i,
{
    if i < 0 || i >= b.len() {
        (m, parts)
    } else {
        request_rows(
            b,
            i + 1,
            at,
            m.leaf(
                "dhcp.option.request_list_item"@,
                at + i,
                at + i + 1,
                ValueView::Unsigned(b[i] as u64),
            ),
            parts.push(dec(b[i] as int)),
        )
    }
}

fn write_requests(b: &[u8], at: usize, ctx: &mut Ctx) -> (r: String)
    requires
        at + b@.len() <= usize::MAX,
    ensures
        ({
            let (m, parts) = request_rows(b@, 0, at as int, old(ctx)@, Seq::empty());
            final(ctx)@ == m && r@ == joined(parts, ","@)
        }),
        final(ctx)@.count() >= old(ctx)@.count(),
        final(ctx)@.base == old(ctx)@.base,
{
    let mut parts: Vec<String> = Vec::new();
    let mut i: usize = 0;
    assert(texts(parts@) =~= Seq::empty());
    while i < b.len()
        invariant
            i <= b@.len(),
            at + b@.len() <= usize::MAX,
            ctx@.count() >= old(ctx)@.count(),
            ctx@.base == old(ctx)@.base,
            request_rows(b@, 0, at as int, old(ctx)@, Seq::empty()) == request_rows(
                b@,
                i as int,
                at as int,
                ctx@,
                texts(parts@),
            ),
        decreases b.len() - i,
    {
        let _ = ctx.leaf(
            "dhcp.option.request_list_item",
            at + i..at + i + 1,
            Value::Unsigned(b[i] as u64),
        );
        text::push_text(&mut parts, text::dec_text(b[i] as u64));
        i = i + 1;
    }
    text::join(&parts, ",")
}

/// Options that hold addresses, and their fields.
pub open spec fn address_field(code: u8) -> Option<Seq<char>> {
    if code == 1 {
        Some("dhcp.option.subnet_mask"@)
    } else if code == 3 {
        Some("dhcp.option.router"@)
    } else if code == 6 {
        Some("dhcp.option.domain_name_server"@)
    } else if code == 28 {
        Some("dhcp.option.broadcast_address"@)
    } else if code == 42 {
        Some("dhcp.option.ntp_server"@)
    } else if code == 50 {
        Some("dhcp.option.requested_ip_address"@)
    } else if code == 54 {
        Some("dhcp.option.dhcp_server_id"@)
    } else {
        None
    }
}

fn address_abbrev(code: u8) -> (r: Option<&'static str>)
    ensures
        match r {
            Some(s) => address_field(code) == Some(s@),
            None => address_field(code) is None,
        },
{
    match code {
        1 => Some("dhcp.option.subnet_mask"),
        3 => Some("dhcp.option.router"),
        6 => Some("dhcp.option.domain_name_server"),
        28 => Some("dhcp.option.broadcast_address"),
        42 => Some("dhcp.option.ntp_server"),
        50 => Some("dhcp.option.requested_ip_address"),
        54 => Some("dhcp.option.dhcp_server_id"),
        _ => None,
    }
}

/// Options that hold a number of seconds, and their fields.
pub open spec fn time_field(code: u8) -> Option<Seq<char>> {
    if code == 51 {
        Some("dhcp.option.ip_address_lease_time"@)
    } else if code == 58 {
        Some("dhcp.option.renewal_time_value"@)
    } else if code == 59 {
        Some("dhcp.option.rebinding_time_value"@)
    } else {
        None
    }
}

fn time_abbrev(code: u8) -> (r: Option<&'static str>)
    ensures
        match r {
            Some(s) => time_field(code) == Some(s@),
            None => time_field(code) is None,
        },
{
    match code {
        51 => Some("dhcp.option.ip_address_lease_time"),
        58 => Some("dhcp.option.renewal_time_value"),
        59 => Some("dhcp.option.rebinding_time_value"),
        _ => None,
    }
}

/// Options that hold text, and their fields.
pub open spec fn text_field(code: u8) -> Option<Seq<char>> {
    if code == 12 {
        Some("dhcp.option.hostname"@)
    } else if code == 15 {
        Some("dhcp.option.domain_name"@)
    } else if code == 60 {
        Some("dhcp.option.vendor_class_id"@)
    } else {
        None
    }
}

fn text_abbrev(code: u8) -> (r: Option<&'static str>)
    ensures
        match r {
            Some(s) => text_field(code) == Some(s@),
            None => text_field(code) is None,
        },
{
    match code {
        12 => Some("dhcp.option.hostname"),
        15 => Some("dhcp.option.domain_name"),
        60 => Some("dhcp.option.vendor_class_id"),
        _ => None,
    }
}

/// What the body `b` of an option shows, and what its label says of it.
pub open spec fn option_body(code: u8, b: Seq<u8>, at: int, m: Model) -> (Model, Seq<char>) {
    let len = b.len() as int;
    let end = at + len;
    if code == 53 && len == 1 {
        (
            m.leaf("dhcp.option.dhcp"@, at, at + 1, ValueView::Unsigned(b[0] as u64)),
            named_or(DHCP_MSG_TYPES@, b[0] as u64, "Unknown"@),
        )
    } else if address_field(code) is Some && len % 4 == 0 && len > 0 {
        let (m, parts) = address_rows(
            b,
            0,
            at,
            address_field(code)->Some_0,
            m,
            Seq::empty(),
        );
        (m, joined(parts, ", "@))
    } else if time_field(code) is Some && len == 4 {
        let v = be32(b, 0);
        (
            m.leaf(time_field(code)->Some_0, at, at + 4, ValueView::Unsigned(v as u64)),
            dec(v as int) + "s"@,
        )
    } else if code == 57 && len == 2 {
        let v = be16(b, 0);
        (
            m.leaf(
                "dhcp.option.dhcp_max_message_size"@,
                at,
                at + 2,
                ValueView::Unsigned(v as u64),
            ),
            dec(v as int),
        )
    } else if text_field(code) is Some {
        (
            m.leaf(text_field(code)->Some_0, at, end, ValueView::Str(utf8_lossy(b))),
            utf8_lossy(b),
        )
    } else if code == 61 {
        (m.leaf("dhcp.option.client_id"@, at, end, ValueView::Bytes), ""@)
    } else if code == 55 {
        let (m, parts) = request_rows(b, 0, at, m, Seq::empty());
        (m, joined(parts, ","@))
    } else {
        (m.leaf("dhcp.option.value"@, at, end, ValueView::Bytes), ""@)
    }
}

fn write_body(code: u8, b: &[u8], at: usize, ctx: &mut Ctx) -> (r: String)
    requires
        at + b@.len() <= usize::MAX,
    ensures
        (final(ctx)@, r@) == option_body(code, b@, at as int, old(ctx)@),
        final(ctx)@.count() >= old(ctx)@.count(),
        final(ctx)@.base == old(ctx)@.base,
{
    let len: usize = b.len();
    let end: usize = at + len;
    if code == 53 && len == 1 {
        let _ = ctx.leaf("dhcp.option.dhcp", at..at + 1, Value::Unsigned(b[0] as u64));
        return text::owned(enum_name_or(&DHCP_MSG_TYPES, b[0] as u64, "Unknown"));
    }
    if let Some(abbrev) = address_abbrev(code) {
        if len % 4 == 0 && len > 0 {
            return write_addresses(b, at, abbrev, ctx);
        }
    }
    if let Some(abbrev) = time_abbrev(code) {
        if len == 4 {
            let v: u32 = get_be32(b, 0);
            let _ = ctx.leaf(abbrev, at..at + 4, Value::Unsigned(v as u64));
            let mut out: String = text::dec_text(v as u64);
            out.push_str("s");
            return out;
        }
    }
    if code == 57 && len == 2 {
        let v: u16 = get_be16(b, 0);
        let _ = ctx.leaf(
            "dhcp.option.dhcp_max_message_size",
            at..at + 2,
            Value::Unsigned(v as u64),
        );
        return text::dec_text(v as u64);
    }
    if let Some(abbrev) = text_abbrev(code) {
        let shown: String = text::from_utf8_lossy(b);
        let out: String = text::owned(shown.as_str());
        let _ = ctx.leaf(abbrev, at..end, Value::Str(shown));
        return out;
    }
    if code == 61 {
        let _ = ctx.leaf("dhcp.option.client_id", at..end, Value::Bytes);
        return text::owned("");
    }
    if code == 55 {
        return write_requests(b, at, ctx);
    }
    let _ = ctx.leaf("dhcp.option.value", at..end, Value::Bytes);
    text::owned("")
}

/// The label of an option.
pub open spec fn option_label(code: u8, detail: Seq<char>) -> Seq<char> {
    let head = "Option: ("@ + dec(code as int) + ") "@ + named_or(
        DHCP_OPTIONS@,
        code as u64,
        "Unknown"@,
    );
    if detail.len() == 0 {
        head
    } else {
        head + " = "@ + detail
    }
}

/// One option at position `i`: the frame, where reading stopped, and what the
/// option came to.
pub open spec fn option(d: Seq<u8>, i: int, at: int, m: Model) -> (Model, int, Step) {
    let p = at + i;
    let code = d[i];
    let opt = m.count();
    let m = m.begin("dhcp.option"@, p, p).leaf(
        "dhcp.option.type"@,
        p,
        p + 1,
        ValueView::Unsigned(code as u64),
    );
    if code == 0 {
        (m.set_text(opt, "Option: (0) Pad"@).end_at(opt, p + 1), i + 1, Step::Next)
    } else if code == 255 {
        (
            m.set_text(opt, "Option: (255) End"@).leaf(
                "dhcp.option.end"@,
                p,
                p + 1,
                ValueView::Empty,
            ).end_at(opt, p + 1),
            i + 1,
            Step::Last,
        )
    } else if i + 1 >= d.len() {
        (m, i + 1, Step::Failed(cut(p + 1, 1, 0)))
    } else {
        let len = d[i + 1] as int;
        let left = d.len() - i - 2;
        let m = m.leaf("dhcp.option.length"@, p + 1, p + 2, ValueView::Unsigned(d[i + 1] as u64));
        if left < len {
            (m, i + 2, Step::Failed(cut(p + 2, len, left)))
        } else {
            let (m, detail) = option_body(code, d.subrange(i + 2, i + 2 + len), p + 2, m);
            (
                m.set_text(opt, option_label(code, detail)).end_at(opt, p + 2 + len),
                i + 2 + len,
                Step::Next,
            )
        }
    }
}

/// The message type that the option at position `i` gives, if it is one.
pub open spec fn type_at(d: Seq<u8>, i: int) -> Option<u8> {
    if d[i] == 53 && i + 2 < d.len() && d[i + 1] == 1 {
        Some(d[i + 2])
    } else {
        None
    }
}

fn read_option(d: &[u8], i: usize, at: usize, ctx: &mut Ctx) -> (r: (usize, Step))
    requires
        i < d@.len(),
        at + d@.len() <= usize::MAX,
    ensures
        (final(ctx)@, r.0 as int, r.1) == option(d@, i as int, at as int, old(ctx)@),
        i < r.0 <= d@.len(),
        final(ctx)@.count() >= old(ctx)@.count(),
        final(ctx)@.base == old(ctx)@.base,
{
    let p: usize = at + i;
    let code: u8 = d[i];
    let opt: usize = ctx.begin("dhcp.option", p..p);
    let _ = ctx.leaf("dhcp.option.type", p..p + 1, Value::Unsigned(code as u64));
    if code == 0 {
        ctx.set_text(opt, "Option: (0) Pad");
        ctx.end_at(opt, p + 1);
        return (i + 1, Step::Next);
    }
    if code == 255 {
        ctx.set_text(opt, "Option: (255) End");
        let _ = ctx.leaf("dhcp.option.end", p..p + 1, Value::Empty);
        ctx.end_at(opt, p + 1);
        return (i + 1, Step::Last);
    }
    if i + 1 >= d.len() {
        return (i + 1, Step::Failed(DissectError::Truncated { at: p + 1, need: 1, have: 0 }));
    }
    let len: usize = d[i + 1] as usize;
    let left: usize = d.len() - i - 2;
    let _ = ctx.leaf("dhcp.option.length", p + 1..p + 2, Value::Unsigned(d[i + 1] as u64));
    if left < len {
        return (
            i + 2,
            Step::Failed(DissectError::Truncated { at: p + 2, need: len, have: left }),
        );
    }
    let detail: String = write_body(code, bytes::part(d, i + 2, i + 2 + len), p + 2, ctx);
    let mut label: String = text::cat_dec("Option: (", code as u64, ") ");
    label.push_str(enum_name_or(&DHCP_OPTIONS, code as u64, "Unknown"));
    if !text::is_empty(detail.as_str()) {
        label.push_str(" = ");
        label.push_str(detail.as_str());
    }
    ctx.set_text(opt, label.as_str());
    ctx.end_at(opt, p + 2 + len);
    (i + 2 + len, Step::Next)
}

/// The options from position `i` on, and the message type given last. What
/// follows the End option is padding; an option that cannot be read leaves
/// the rest malformed.
pub open spec fn options(d: Seq<u8>, i: int, at: int, m: Model, kind: Option<u8>) -> (
    Model,
    Option<u8>,
)
    decreases d.len() - i,
{
    if i < 0 || i >= d.len() {
        (m, kind)
    } else {
        let end = at + d.len();
        let (next, j, step) = option(d, i, at, m);
        let kind = if type_at(d, i) is Some {
            type_at(d, i)
        } else {
            kind
        };
        match step {
            Step::Next => if i < j <= d.len() {
                options(d, j, at, next, kind)
            } else {
                (next, kind)
            },
            Step::Last => (
                if j < d.len() {
                    next.leaf("dhcp.option.padding"@, at + j, end, ValueView::Bytes)
                } else {
                    next
                },
                kind,
            ),
            Step::Failed(e) => (
                next.at_depth(m.trace.depth).leaf_text(
                    "_ws.malformed"@,
                    at + j,
                    end,
                    ValueView::Empty,
                    bad_option(e),
                ),
                kind,
            ),
        }
    }
}

fn read_options(d: &[u8], from: usize, at: usize, ctx: &mut Ctx) -> (r: Option<u8>)
    requires
        from <= d@.len(),
        at + d@.len() <= usize::MAX,
    ensures
        (final(ctx)@, r) == options(d@, from as int, at as int, old(ctx)@, None),
        final(ctx)@.count() >= old(ctx)@.count(),
        final(ctx)@.base == old(ctx)@.base,
{
    let mut i: usize = from;
    let mut kind: Option<u8> = None;
    let end: usize = at + d.len();
    while i < d.len()
        invariant
            i <= d@.len(),
            end == at + d@.len(),
            end <= usize::MAX,
            ctx@.count() >= old(ctx)@.count(),
            ctx@.base == old(ctx)@.base,
            options(d@, from as int, at as int, old(ctx)@, None) == options(
                d@,
                i as int,
                at as int,
                ctx@,
                kind,
            ),
        decreases d.len() - i,
    {
        let depth: u8 = ctx.depth();
        if d[i] == 53 && d.len() - i > 2 && d[i + 1] == 1 {
            kind = Some(d[i + 2]);
        }
        let (j, step) = read_option(d, i, at, ctx);
        match step {
            Step::Next => {
                i = j;
            },
            Step::Last => {
                if j < d.len() {
                    let _ = ctx.leaf("dhcp.option.padding", at + j..end, Value::Bytes);
                }
                return kind;
            },
            Step::Failed(e) => {
                ctx.restore_depth(depth);
                let _ = ctx.leaf_text(
                    "_ws.malformed",
                    at + j..end,
                    Value::Empty,
                    bad_option_text(e).as_str(),
                );
                return kind;
            },
        }
    }
    kind
}

// ---- the layer ------------------------------------------------------------------

/// The fields of the fixed header.
pub open spec fn header_fields(d: Seq<u8>, m: Model) -> Model {
    let a = m.base;
    let flags = be16(d, 10);
    let m = m.set_protocol("dhcp"@).begin("dhcp"@, a, a + d.len()).leaf(
        "dhcp.type"@,
        a,
        a + 1,
        ValueView::Unsigned(d[0] as u64),
    ).leaf("dhcp.hw.type"@, a + 1, a + 2, ValueView::Unsigned(d[1] as u64)).leaf(
        "dhcp.hw.len"@,
        a + 2,
        a + 3,
        ValueView::Unsigned(d[2] as u64),
    ).leaf("dhcp.hops"@, a + 3, a + 4, ValueView::Unsigned(d[3] as u64)).leaf(
        "dhcp.id"@,
        a + 4,
        a + 8,
        ValueView::Unsigned(be32(d, 4) as u64),
    ).leaf("dhcp.secs"@, a + 8, a + 10, ValueView::Unsigned(be16(d, 8) as u64)).begin_value(
        "dhcp.flags"@,
        a + 10,
        a + 12,
        ValueView::Unsigned(flags as u64),
    ).leaf("dhcp.flags.bc"@, a + 10, a + 12, ValueView::Bool(flags & 0x8000 != 0)).end().leaf(
        "dhcp.ip.client"@,
        a + 12,
        a + 16,
        ValueView::Ipv4(d.subrange(12, 16)),
    ).leaf("dhcp.ip.your"@, a + 16, a + 20, ValueView::Ipv4(d.subrange(16, 20))).leaf(
        "dhcp.ip.server"@,
        a + 20,
        a + 24,
        ValueView::Ipv4(d.subrange(20, 24)),
    ).leaf("dhcp.ip.relay"@, a + 24, a + 28, ValueView::Ipv4(d.subrange(24, 28)));
    let m = if d[1] == 1 && d[2] == 6 {
        m.leaf("dhcp.hw.mac_addr"@, a + 28, a + 34, ValueView::Mac(d.subrange(28, 34))).leaf(
            "dhcp.hw.addr_padding"@,
            a + 34,
            a + 44,
            ValueView::Bytes,
        )
    } else {
        m.leaf("dhcp.hw.addr_padding"@, a + 28, a + 44, ValueView::Bytes)
    };
    m.leaf("dhcp.server"@, a + 44, a + 108, ValueView::Str(c_text(d.subrange(44, 108)))).leaf(
        "dhcp.file"@,
        a + 108,
        a + 236,
        ValueView::Str(c_text(d.subrange(108, 236))),
    )
}

#[verifier::rlimit(40)]
fn write_header(data: &[u8], ctx: &mut Ctx) -> (node: usize)
    requires
        data@.len() >= 236,
        addressable(data@, old(ctx)@),
    ensures
        final(ctx)@ == header_fields(data@, old(ctx)@),
        node == old(ctx)@.set_protocol("dhcp"@).count(),
        node < final(ctx)@.count(),
        final(ctx)@.base == old(ctx)@.base,
{
    let a: usize = ctx.base();
    let flags: u16 = get_be16(data, 10);
    ctx.set_protocol("dhcp");
    let node: usize = ctx.begin("dhcp", a..a + data.len());
    let _ = ctx.leaf("dhcp.type", a..a + 1, Value::Unsigned(data[0] as u64));
    let _ = ctx.leaf("dhcp.hw.type", a + 1..a + 2, Value::Unsigned(data[1] as u64));
    let _ = ctx.leaf("dhcp.hw.len", a + 2..a + 3, Value::Unsigned(data[2] as u64));
    let _ = ctx.leaf("dhcp.hops", a + 3..a + 4, Value::Unsigned(data[3] as u64));
    let _ = ctx.leaf("dhcp.id", a + 4..a + 8, Value::Unsigned(get_be32(data, 4) as u64));
    let _ = ctx.leaf("dhcp.secs", a + 8..a + 10, Value::Unsigned(get_be16(data, 8) as u64));
    let _ = ctx.begin_value("dhcp.flags", a + 10..a + 12, Value::Unsigned(flags as u64));
    let _ = ctx.leaf("dhcp.flags.bc", a + 10..a + 12, Value::Bool(flags & 0x8000 != 0));
    ctx.end();
    let _ = ctx.leaf("dhcp.ip.client", a + 12..a + 16, Value::Ipv4(ipv4_at(data, 12)));
    let _ = ctx.leaf("dhcp.ip.your", a + 16..a + 20, Value::Ipv4(ipv4_at(data, 16)));
    let _ = ctx.leaf("dhcp.ip.server", a + 20..a + 24, Value::Ipv4(ipv4_at(data, 20)));
    let _ = ctx.leaf("dhcp.ip.relay", a + 24..a + 28, Value::Ipv4(ipv4_at(data, 24)));
    if data[1] == 1 && data[2] == 6 {
        let _ = ctx.leaf("dhcp.hw.mac_addr", a + 28..a + 34, Value::Mac(mac_at(data, 28)));
        let _ = ctx.leaf("dhcp.hw.addr_padding", a + 34..a + 44, Value::Bytes);
    } else {
        let _ = ctx.leaf("dhcp.hw.addr_padding", a + 28..a + 44, Value::Bytes);
    }
    let _ = ctx.leaf(
        "dhcp.server",
        a + 44..a + 108,
        Value::Str(cstr(bytes::part(data, 44, 108))),
    );
    let _ = ctx.leaf(
        "dhcp.file",
        a + 108..a + 236,
        Value::Str(cstr(bytes::part(data, 108, 236))),
    );
    node
}

/// What the message is called: its type if an option gave one, else by the
/// direction.
pub open spec fn kind_name(op: u8, kind: Option<u8>) -> Seq<char> {
    let other = if op == 1 {
        "Boot Request"@
    } else {
        "Boot Reply"@
    };
    match kind {
        Some(t) => named_or(DHCP_MSG_TYPES@, t as u64, other),
        None => other,
    }
}

fn kind_text(op: u8, kind: Option<u8>) -> (r: &'static str)
    ensures
        r@ == kind_name(op, kind),
{
    let other: &'static str = if op == 1 {
        "Boot Request"
    } else {
        "Boot Reply"
    };
    match kind {
        Some(t) => enum_name_or(&DHCP_MSG_TYPES, t as u64, other),
        None => other,
    }
}

/// The Info column.
pub open spec fn info_text(d: Seq<u8>, kind: Seq<char>) -> Seq<char> {
    let head = "DHCP "@ + left_aligned(kind, 8) + " - Transaction ID 0x"@ + hex(
        be32(d, 4) as int,
    );
    let from = if d[1] == 1 && d[2] == 6 && d[0] == 1 {
        head + " from "@ + mac_text(d.subrange(28, 34))
    } else {
        head
    };
    if d.subrange(16, 20) != seq![0u8, 0, 0, 0] {
        from + " ("@ + ipv4_text(d.subrange(16, 20)) + ")"@
    } else {
        from
    }
}

fn info(data: &[u8], kind: &str) -> (r: String)
    requires
        data@.len() >= 236,
    ensures
        r@ == info_text(data@, kind@),
{
    let mut out: String = text::owned("DHCP ");
    text::push_left(&mut out, kind, 8);
    out.push_str(" - Transaction ID 0x");
    text::push_hex(&mut out, get_be32(data, 4) as u64, 1);
    if data[1] == 1 && data[2] == 6 && data[0] == 1 {
        out.push_str(" from ");
        out.push_str(fmt_mac(mac_at(data, 28)).as_str());
    }
    let yours: [u8; 4] = ipv4_at(data, 16);
    let zero: [u8; 4] = [0, 0, 0, 0];
    assert(zero@ =~= seq![0u8, 0, 0, 0]);
    if !bytes::same(&yours, &zero) {
        out.push_str(" (");
        out.push_str(fmt_ipv4(yours).as_str());
        out.push_str(")");
    }
    out
}

/// The DHCP layer.
pub open spec fn layer(d: Seq<u8>, m: Model) -> Outcome {
    let a = m.base;
    let n = d.len() as int;
    if n < 236 {
        (m, Some(shortfall(a, n, HEADER@)))
    } else {
        let node = m.set_protocol("dhcp"@).count();
        let m = header_fields(d, m);
        let (m, kind) = if n >= 240 {
            let cookie = be32(d, 236);
            let m = m.leaf("dhcp.cookie"@, a + 236, a + 240, ValueView::Unsigned(cookie as u64));
            if cookie == MAGIC {
                options(d, 240, a, m, None)
            } else {
                (m, None)
            }
        } else {
            (m, None)
        };
        let name = kind_name(d[0], kind);
        (
            m.set_text(node, "Dynamic Host Configuration Protocol ("@ + name + ")"@).set_info(
                info_text(d, name),
            ).end(),
            None,
        )
    }
}

pub fn dissect(data: &[u8], ctx: &mut Ctx) -> (r: Result<(), DissectError>)
    requires
        addressable(data@, old(ctx)@),
    ensures
        (final(ctx)@, error_of(r)) == layer(data@, old(ctx)@),
{
    let a: usize = ctx.base();
    let n: usize = data.len();
    if n < 236 {
        return Err(first_short(a, n, &HEADER));
    }
    let node: usize = write_header(data, ctx);
    let mut kind: Option<u8> = None;
    if n >= 240 {
        let cookie: u32 = get_be32(data, 236);
        let _ = ctx.leaf("dhcp.cookie", a + 236..a + 240, Value::Unsigned(cookie as u64));
        if cookie == MAGIC {
            kind = read_options(data, 240, a, ctx);
        }
    }
    let name: &'static str = kind_text(data[0], kind);
    let mut label: String = text::cat("Dynamic Host Configuration Protocol (", name);
    label.push_str(")");
    ctx.set_text(node, label.as_str());
    ctx.set_info(info(data, name));
    ctx.end();
    Ok(())
}

} // verus!

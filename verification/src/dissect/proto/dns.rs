//! Domain Name System (RFC 1035) including compression pointers with a hard
//! hop limit, and the common record types.

use vstd::prelude::*;

use crate::bytes;
use crate::bytes::{be16, be32, get_be16, get_be32};
use crate::dissect::ctx::{Ctx, Model};
use crate::dissect::cursor::{DissectError, SourceId};
use crate::dissect::node::{
    fmt_ipv4, fmt_ipv6, ipv4_text, ipv6_text, Trace, TreeBuilder, Value, ValueView,
};
use crate::dissect::ranges::dns::names_end_inside;
use crate::dissect::registry::{enum_name_or, named_or};
use crate::dissect::tables::{DNS_RCODES, DNS_TYPES};
use crate::text;
use crate::text::{dec, hex_pad, joined, padded, texts, utf8_lossy};

use super::{
    addressable, cut, error_of, first_short, ipv4_at, ipv6_at, shortfall, Outcome,
};

verus! {

/// Maximum compression pointers followed while reading one name. Real names
/// need a handful; a loop needs infinity.
pub const MAX_POINTER_HOPS: usize = 32;

/// Maximum labels in one name (RFC 1035 limits names to 255 octets).
pub const MAX_LABELS: usize = 128;

/// Maximum resource records parsed per section, so a claimed count of 65535
/// on a 40-byte packet fails fast instead of looping.
pub const MAX_RECORDS: u16 = 4096;

/// Widths of the header fields.
pub const HEADER: [usize; 6] = [2, 2, 2, 2, 2, 2];

/// Widths of the fixed fields of a question.
pub const QUESTION: [usize; 2] = [2, 2];

/// Widths of the fixed fields of a record.
pub const RECORD: [usize; 4] = [2, 2, 4, 2];

/// Widths of the numbers in a start-of-authority record.
pub const AUTHORITY: [usize; 5] = [4, 4, 4, 4, 4];

/// Widths of the numbers in a service record.
pub const SERVICE: [usize; 3] = [2, 2, 2];

// ---- names ----------------------------------------------------------------------

/// A byte of a label as shown: printable ones other than the dot as they are,
/// the rest as three decimal digits behind a backslash.
pub open spec fn byte_shown(b: u8) -> Seq<char> {
    if 0x21 <= b < 0x7f && b != 0x2e {
        seq![b as char]
    } else {
        "\\"@ + padded(dec(b as int), 3)
    }
}

/// The first `n` bytes of a label as shown.
pub open spec fn label_shown(l: Seq<u8>, n: int) -> Seq<char>
    decreases n,
{
    if n <= 0 {
        Seq::empty()
    } else {
        label_shown(l, n - 1) + byte_shown(l[n - 1])
    }
}

/// The rest of a name whose next byte is at `p`, after `labels` labels and
/// `hops` compression pointers that came to `name`. Also the offset just past
/// the in-line part, which ends with the first pointer.
///
/// Pointers go strictly backwards ("a prior occurrence", section 4.1.4), so
/// there is no loop.
pub open spec fn name_from(
    d: Seq<u8>,
    p: int,
    labels: int,
    hops: int,
    name: Seq<char>,
    end: Option<int>,
) -> Result<(Seq<char>, int), &'static str>
    decreases MAX_POINTER_HOPS + 1 - hops, d.len() - p,
{
    if p < 0 || p >= d.len() {
        Err("name runs past end of message")
    } else {
        let len = d[p];
        if len & 0xc0 == 0xc0 {
            let target = (len & 0x3f) * 256 + d[p + 1];
            if p + 1 >= d.len() {
                Err("truncated compression pointer")
            } else if hops + 1 > MAX_POINTER_HOPS {
                Err("compression pointer loop")
            } else if target >= p {
                Err("forward compression pointer")
            } else {
                name_from(
                    d,
                    target,
                    labels,
                    hops + 1,
                    name,
                    if end is None {
                        Some(p + 2)
                    } else {
                        end
                    },
                )
            }
        } else if len & 0xc0 != 0 {
            Err("unsupported label type")
        } else if len == 0 {
            Ok(
                (
                    if name.len() == 0 {
                        "<Root>"@
                    } else {
                        name
                    },
                    match end {
                        Some(e) => e,
                        None => p + 1,
                    },
                ),
            )
        } else if labels + 1 > MAX_LABELS {
            Err("too many labels")
        } else if p + 1 + len > d.len() {
            Err("label runs past end of message")
        } else {
            let dotted = if name.len() == 0 {
                name
            } else {
                name + "."@
            };
            name_from(
                d,
                p + 1 + len,
                labels + 1,
                hops,
                dotted + label_shown(d.subrange(p + 1, p + 1 + len), len as int),
                end,
            )
        }
    }
}

/// The possibly-compressed name at `pos`, and the offset just past its
/// in-line part.
pub open spec fn name_at(d: Seq<u8>, pos: int) -> Result<(Seq<char>, int), &'static str> {
    name_from(d, pos, 0, 0, Seq::empty(), None)
}

fn push_label(out: &mut String, l: &[u8])
    ensures
        final(out)@ == old(out)@ + label_shown(l@, l@.len() as int),
{
    let mut i: usize = 0;
    assert(old(out)@ + label_shown(l@, 0) =~= old(out)@);
    while i < l.len()
        invariant
            i <= l@.len(),
            out@ == old(out)@ + label_shown(l@, i as int),
        decreases l.len() - i,
    {
        let b: u8 = l[i];
        let ghost before = out@;
        if 0x21 <= b && b < 0x7f && b != 0x2e {
            out.push(b as char);
            assert(out@ =~= before + byte_shown(b));
        } else {
            out.push_str("\\");
            text::push_dec_padded(out, b as u64, 3);
            assert(out@ =~= before + byte_shown(b));
        }
        i += 1;
        assert(out@ =~= old(out)@ + label_shown(l@, i as int));
    }
}

/// Read a possibly-compressed name starting at `pos` in `msg`.
/// Returns the name and the offset just past its in-line part.
pub fn read_name(msg: &[u8], pos: usize) -> (r: Result<(String, usize), &'static str>)
    ensures
        match r {
            Ok((name, end)) => name_at(msg@, pos as int) == Ok::<_, &'static str>(
                (name@, end as int),
            ) && end <= msg@.len(),
            Err(what) => name_at(msg@, pos as int) == Err::<(Seq<char>, int), _>(what),
        },
{
    let mut name: String = String::new();
    let mut labels: usize = 0;
    let mut hops: usize = 0;
    let mut p: usize = pos;
    let mut end: Option<usize> = None;
    assert(name@ =~= Seq::empty());
    assert(msg.len() == msg@.len());
    loop
        invariant
            labels <= MAX_LABELS,
            hops <= MAX_POINTER_HOPS,
            msg.len() == msg@.len(),
            end matches Some(e) ==> e <= msg@.len(),
            name_at(msg@, pos as int) == name_from(
                msg@,
                p as int,
                labels as int,
                hops as int,
                name@,
                match end {
                    Some(e) => Some(e as int),
                    None => None,
                },
            ),
        decreases MAX_POINTER_HOPS + 1 - hops, msg@.len() - p,
    {
        if p >= msg.len() {
            return Err("name runs past end of message");
        }
        let len: u8 = msg[p];
        if len & 0xc0 == 0xc0 {
            if msg.len() - p < 2 {
                return Err("truncated compression pointer");
            }
            let target: usize = (len & 0x3f) as usize * 256 + msg[p + 1] as usize;
            if end.is_none() {
                end = Some(p + 2);
            }
            hops += 1;
            if hops > MAX_POINTER_HOPS {
                return Err("compression pointer loop");
            }
            if target >= p {
                return Err("forward compression pointer");
            }
            p = target;
        } else if len & 0xc0 != 0 {
            return Err("unsupported label type");
        } else if len == 0 {
            let stop: usize = match end {
                Some(e) => e,
                None => p + 1,
            };
            if text::is_empty(name.as_str()) {
                name = text::owned("<Root>");
            }
            return Ok((name, stop));
        } else {
            labels += 1;
            if labels > MAX_LABELS {
                return Err("too many labels");
            }
            if msg.len() - p - 1 < len as usize {
                return Err("label runs past end of message");
            }
            if !text::is_empty(name.as_str()) {
                name.push_str(".");
            }
            push_label(&mut name, bytes::part(msg, p + 1, p + 1 + len as usize));
            p = p + 1 + len as usize;
        }
    }
}

/// The error for a name at `pos` that cannot be read.
pub open spec fn bad_name(base: int, pos: int, what: &'static str) -> DissectError {
    DissectError::Invalid { at: (base + pos) as usize, what }
}

fn name_or_error(msg: &[u8], base: usize, pos: usize) -> (r: Result<(String, usize), DissectError>)
    requires
        base + msg@.len() <= usize::MAX,
        pos <= msg@.len(),
    ensures
        match r {
            Ok((name, end)) => name_at(msg@, pos as int) == Ok::<_, &'static str>(
                (name@, end as int),
            ) && end <= msg@.len(),
            Err(e) => name_at(msg@, pos as int) is Err && e == bad_name(
                base as int,
                pos as int,
                name_at(msg@, pos as int)->Err_0,
            ),
        },
{
    match read_name(msg, pos) {
        Ok(v) => Ok(v),
        Err(what) => Err(DissectError::Invalid { at: base + pos, what }),
    }
}

// ---- questions ------------------------------------------------------------------

/// A class as shown; the top bit is multicast DNS's own.
pub open spec fn class_text(class: u16) -> Seq<char> {
    let c = class & 0x7fff;
    if c == 1 {
        "IN"@
    } else if c == 3 {
        "CH"@
    } else if c == 4 {
        "HS"@
    } else if c == 255 {
        "ANY"@
    } else {
        "0x"@ + hex_pad(c as int, 4)
    }
}

fn class_name(class: u16) -> (r: String)
    ensures
        r@ == class_text(class),
{
    let c: u16 = class & 0x7fff;
    match c {
        1 => text::owned("IN"),
        3 => text::owned("CH"),
        4 => text::owned("HS"),
        255 => text::owned("ANY"),
        _ => {
            let mut out: String = text::owned("0x");
            text::push_hex(&mut out, c as u64, 4);
            out
        },
    }
}

/// Rows of a question or record, where the next one starts, and what the Info
/// column says of it.
pub type Piece = (Trace, int, Seq<char>);

/// The question at `pos` of the message `d`, which sits at `base`.
pub open spec fn question(d: Seq<u8>, pos: int, base: int, s: SourceId, t: Trace) -> Result<
    Piece,
    DissectError,
> {
    match name_at(d, pos) {
        Err(what) => Err(bad_name(base, pos, what)),
        Ok((name, after)) => if d.len() < after + 4 {
            Err(shortfall(base + after, d.len() - after, QUESTION@))
        } else {
            let (ty, class) = (be16(d, after), be16(d, after + 2));
            let kind = named_or(DNS_TYPES@, ty as u64, "Unknown"@);
            let p = base + after;
            Ok(
                (
                    t.leaf_text(
                        "dns.qry"@,
                        s,
                        base + pos,
                        p + 4,
                        ValueView::Empty,
                        name + ": type "@ + kind + ", class "@ + class_text(class),
                    ).down().leaf(
                        "dns.qry.name"@,
                        s,
                        base + pos,
                        p,
                        ValueView::Str(name),
                    ).leaf("dns.qry.type"@, s, p, p + 2, ValueView::Unsigned(ty as u64)).leaf(
                        "dns.qry.class"@,
                        s,
                        p + 2,
                        p + 4,
                        ValueView::Unsigned(class as u64),
                    ),
                    after + 4,
                    kind + " "@ + name,
                ),
            )
        },
    }
}

fn read_question(d: &[u8], pos: usize, base: usize, s: SourceId, depth: u8) -> (r: Result<
    (TreeBuilder, usize, String),
    DissectError,
>)
    requires
        pos <= d@.len(),
        base + d@.len() <= usize::MAX,
    ensures
        match r {
            Ok((t, next, info)) => question(
                d@,
                pos as int,
                base as int,
                s,
                Trace { rows: Seq::empty(), depth: depth as int },
            ) == Ok::<Piece, DissectError>((t@, next as int, info@)) && next <= d@.len(),
            Err(e) => question(
                d@,
                pos as int,
                base as int,
                s,
                Trace { rows: Seq::empty(), depth: depth as int },
            ) == Err::<Piece, DissectError>(e),
        },
{
    let (name, after) = match name_or_error(d, base, pos) {
        Ok(v) => v,
        Err(e) => {
            return Err(e);
        },
    };
    let p: usize = base + after;
    if d.len() - after < 4 {
        return Err(first_short(p, d.len() - after, &QUESTION));
    }
    let ty: u16 = get_be16(d, after);
    let class: u16 = get_be16(d, after + 2);
    let kind: &'static str = enum_name_or(&DNS_TYPES, ty as u64, "Unknown");
    let mut label: String = text::cat(name.as_str(), ": type ");
    label.push_str(kind);
    label.push_str(", class ");
    label.push_str(class_name(class).as_str());
    let mut info: String = text::cat(kind, " ");
    info.push_str(name.as_str());
    let mut t: TreeBuilder = TreeBuilder::at(depth);
    let _ = t.leaf_text("dns.qry", s, base + pos..p + 4, Value::Empty, label);
    t.down();
    let _ = t.leaf("dns.qry.name", s, base + pos..p, Value::Str(name));
    let _ = t.leaf("dns.qry.type", s, p..p + 2, Value::Unsigned(ty as u64));
    let _ = t.leaf("dns.qry.class", s, p + 2..p + 4, Value::Unsigned(class as u64));
    Ok((t, after + 4, info))
}

// ---- record data ----------------------------------------------------------------

/// What the data of a record shows: rows and text.
pub type Shown = (Trace, Seq<char>);

/// The strings of a text record, from `i` on up to `end`.
pub open spec fn strings(
    d: Seq<u8>,
    i: int,
    end: int,
    base: int,
    s: SourceId,
    t: Trace,
    parts: Seq<Seq<char>>,
) -> Result<(Trace, Seq<Seq<char>>), DissectError>
    decreases end - i,
{
    if i >= end {
        Ok((t, parts))
    } else {
        let len = d[i] as int;
        let left = end - i - 1;
        if left < len {
            Err(cut(base + i + 1, len, left))
        } else {
            let shown = utf8_lossy(d.subrange(i + 1, i + 1 + len));
            strings(
                d,
                i + 1 + len,
                end,
                base,
                s,
                t.leaf("dns.txt"@, s, base + i + 1, base + i + 1 + len, ValueView::Str(shown)),
                parts.push(shown),
            )
        }
    }
}

fn read_strings(
    d: &[u8],
    from: usize,
    end: usize,
    base: usize,
    s: SourceId,
    t: &mut TreeBuilder,
) -> (r:
    Result<String, DissectError>)
    requires
        from <= end <= d@.len(),
        base + d@.len() <= usize::MAX,
    ensures
        match strings(
            d@,
            from as int,
            end as int,
            base as int,
            s,
            old(t)@,
            Seq::empty(),
        ) {
            Ok((u, parts)) => final(t)@ == u && (r matches Ok(v) && v@ == joined(parts, " "@)),
            Err(e) => r == Err::<String, DissectError>(e),
        },
{
    let mut parts: Vec<String> = Vec::new();
    let mut i: usize = from;
    assert(texts(parts@) =~= Seq::empty());
    while i < end
        invariant
            from <= i <= end <= d@.len(),
            base + d@.len() <= usize::MAX,
            strings(
                d@,
                from as int,
                end as int,
                base as int,
                s,
                old(t)@,
                Seq::empty(),
            ) == strings(d@, i as int, end as int, base as int, s, t@, texts(parts@)),
        decreases end - i,
    {
        let len: usize = d[i] as usize;
        let left: usize = end - i - 1;
        if left < len {
            return Err(
                DissectError::Truncated { at: base + i + 1, need: len, have: left },
            );
        }
        let shown: String = text::from_utf8_lossy(bytes::part(d, i + 1, i + 1 + len));
        text::push_text(&mut parts, text::owned(shown.as_str()));
        let _ = t.leaf("dns.txt", s, base + i + 1..base + i + 1 + len, Value::Str(shown));
        i = i + 1 + len;
    }
    Ok(text::join(&parts, " "))
}

/// A name in the data of a record that ends at `end`: what stands in line of
/// it may not run past that.
pub open spec fn bounded_name(d: Seq<u8>, pos: int, end: int, base: int) -> Result<
    (Seq<char>, int),
    DissectError,
> {
    match name_at(d, pos) {
        Err(what) => Err(bad_name(base, pos, what)),
        Ok((name, next)) => if next > end {
            Err(cut(base + pos, next - pos, end - pos))
        } else {
            Ok((name, next))
        },
    }
}

fn bounded_name_or_error(d: &[u8], pos: usize, end: usize, base: usize) -> (r: Result<
    (String, usize),
    DissectError,
>)
    requires
        pos <= end <= d@.len(),
        base + d@.len() <= usize::MAX,
    ensures
        match bounded_name(d@, pos as int, end as int, base as int) {
            Ok((name, next)) => r matches Ok(v) && v.0@ == name && v.1 == next,
            Err(e) => r == Err::<(String, usize), DissectError>(e),
        },
        r matches Ok(v) ==> pos <= v.1 <= end,
{
    proof {
        names_end_inside(d@, pos as int);
    }
    match name_or_error(d, base, pos) {
        Err(e) => Err(e),
        Ok((name, next)) => {
            if next > end {
                return Err(
                    DissectError::Truncated { at: base + pos, need: next - pos, have: end - pos },
                );
            }
            Ok((name, next))
        },
    }
}

/// A start of authority: two names and five numbers, all in the record's data,
/// which ends at `end`.
pub open spec fn authority(
    d: Seq<u8>,
    rd: int,
    end: int,
    base: int,
    s: SourceId,
    t: Trace,
) -> Result<Shown, DissectError> {
    match bounded_name(d, rd, end, base) {
        Err(e) => Err(e),
        Ok((mname, p1)) => match bounded_name(d, p1, end, base) {
            Err(e) => Err(e),
            Ok((rname, p2)) => if end < p2 + 20 {
                Err(shortfall(base + p2, end - p2, AUTHORITY@))
            } else {
                let q = base + p2;
                let serial = be32(d, p2);
                Ok(
                    (
                        t.leaf(
                            "dns.soa.mname"@,
                            s,
                            base + rd,
                            base + p1,
                            ValueView::Str(mname),
                        ).leaf("dns.soa.rname"@, s, base + p1, q, ValueView::Str(rname)).leaf(
                            "dns.soa.serial_number"@,
                            s,
                            q,
                            q + 4,
                            ValueView::Unsigned(serial as u64),
                        ).leaf(
                            "dns.soa.refresh_interval"@,
                            s,
                            q + 4,
                            q + 8,
                            ValueView::Unsigned(be32(d, p2 + 4) as u64),
                        ).leaf(
                            "dns.soa.retry_interval"@,
                            s,
                            q + 8,
                            q + 12,
                            ValueView::Unsigned(be32(d, p2 + 8) as u64),
                        ).leaf(
                            "dns.soa.expire_limit"@,
                            s,
                            q + 12,
                            q + 16,
                            ValueView::Unsigned(be32(d, p2 + 12) as u64),
                        ).leaf(
                            "dns.soa.minimum_ttl"@,
                            s,
                            q + 16,
                            q + 20,
                            ValueView::Unsigned(be32(d, p2 + 16) as u64),
                        ),
                        mname + " "@ + rname + " "@ + dec(serial as int),
                    ),
                )
            },
        },
    }
}

fn read_authority(
    d: &[u8],
    rd: usize,
    end: usize,
    base: usize,
    s: SourceId,
    t: &mut TreeBuilder,
) -> (r: Result<String, DissectError>)
    requires
        rd <= end <= d@.len(),
        base + d@.len() <= usize::MAX,
    ensures
        match authority(d@, rd as int, end as int, base as int, s, old(t)@) {
            Ok((u, shown)) => final(t)@ == u && (r matches Ok(v) && v@ == shown),
            Err(e) => r == Err::<String, DissectError>(e),
        },
{
    let (mname, p1) = match bounded_name_or_error(d, rd, end, base) {
        Ok(v) => v,
        Err(e) => {
            return Err(e);
        },
    };
    let (rname, p2) = match bounded_name_or_error(d, p1, end, base) {
        Ok(v) => v,
        Err(e) => {
            return Err(e);
        },
    };
    let q: usize = base + p2;
    if end - p2 < 20 {
        return Err(first_short(q, end - p2, &AUTHORITY));
    }
    let serial: u32 = get_be32(d, p2);
    let mut out: String = text::cat(mname.as_str(), " ");
    out.push_str(rname.as_str());
    out.push_str(" ");
    text::push_dec(&mut out, serial as u64);
    let _ = t.leaf("dns.soa.mname", s, base + rd..base + p1, Value::Str(mname));
    let _ = t.leaf("dns.soa.rname", s, base + p1..q, Value::Str(rname));
    let _ = t.leaf("dns.soa.serial_number", s, q..q + 4, Value::Unsigned(serial as u64));
    let _ = t.leaf(
        "dns.soa.refresh_interval",
        s,
        q + 4..q + 8,
        Value::Unsigned(get_be32(d, p2 + 4) as u64),
    );
    let _ = t.leaf(
        "dns.soa.retry_interval",
        s,
        q + 8..q + 12,
        Value::Unsigned(get_be32(d, p2 + 8) as u64),
    );
    let _ = t.leaf(
        "dns.soa.expire_limit",
        s,
        q + 12..q + 16,
        Value::Unsigned(get_be32(d, p2 + 12) as u64),
    );
    let _ = t.leaf(
        "dns.soa.minimum_ttl",
        s,
        q + 16..q + 20,
        Value::Unsigned(get_be32(d, p2 + 16) as u64),
    );
    Ok(out)
}

/// The field a record that holds one name is shown as.
pub open spec fn name_field(ty: u16) -> Seq<char> {
    if ty == 2 {
        "dns.ns"@
    } else if ty == 5 {
        "dns.cname"@
    } else {
        "dns.ptr.domain_name"@
    }
}

/// The data of a record of type `ty`: `len` bytes from `rd` on.
pub open spec fn record_data(
    ty: u16,
    d: Seq<u8>,
    rd: int,
    len: u16,
    base: int,
    s: SourceId,
    t: Trace,
) -> Result<Shown, DissectError> {
    let p = base + rd;
    let end = p + len;
    if ty == 1 && len == 4 {
        let a = d.subrange(rd, rd + 4);
        Ok((t.leaf("dns.a"@, s, p, p + 4, ValueView::Ipv4(a)), ipv4_text(a)))
    } else if ty == 28 && len == 16 {
        let a = d.subrange(rd, rd + 16);
        Ok((t.leaf("dns.aaaa"@, s, p, p + 16, ValueView::Ipv6(a)), ipv6_text(a)))
    } else if ty == 2 || ty == 5 || ty == 12 {
        match name_at(d, rd) {
            Err(what) => Err(bad_name(base, rd, what)),
            Ok((target, _)) => Ok(
                (t.leaf(name_field(ty), s, p, end, ValueView::Str(target)), target),
            ),
        }
    } else if ty == 15 {
        if len < 2 {
            Err(cut(p, 2, len as int))
        } else {
            match name_at(d, rd + 2) {
                Err(what) => Err(bad_name(base, rd + 2, what)),
                Ok((mx, _)) => Ok(
                    (
                        t.leaf(
                            "dns.mx.preference"@,
                            s,
                            p,
                            p + 2,
                            ValueView::Unsigned(be16(d, rd) as u64),
                        ).leaf("dns.mx.mail_exchange"@, s, p + 2, end, ValueView::Str(mx)),
                        dec(be16(d, rd) as int) + " "@ + mx,
                    ),
                ),
            }
        }
    } else if ty == 16 {
        match strings(d, rd, rd + len, base, s, t, Seq::empty()) {
            Err(e) => Err(e),
            Ok((t, parts)) => Ok((t, joined(parts, " "@))),
        }
    } else if ty == 6 {
        authority(d, rd, rd + len, base, s, t)
    } else if ty == 33 {
        if len < 6 {
            Err(shortfall(p, len as int, SERVICE@))
        } else {
            match name_at(d, rd + 6) {
                Err(what) => Err(bad_name(base, rd + 6, what)),
                Ok((target, _)) => {
                    let (prio, weight, port) = (be16(d, rd), be16(d, rd + 2), be16(d, rd + 4));
                    Ok(
                        (
                            t.leaf(
                                "dns.srv.priority"@,
                                s,
                                p,
                                p + 2,
                                ValueView::Unsigned(prio as u64),
                            ).leaf(
                                "dns.srv.weight"@,
                                s,
                                p + 2,
                                p + 4,
                                ValueView::Unsigned(weight as u64),
                            ).leaf(
                                "dns.srv.port"@,
                                s,
                                p + 4,
                                p + 6,
                                ValueView::Unsigned(port as u64),
                            ).leaf("dns.srv.target"@, s, p + 6, end, ValueView::Str(target)),
                            dec(prio as int) + " "@ + dec(weight as int) + " "@ + dec(port as int)
                                + " "@ + target,
                        ),
                    )
                },
            }
        }
    } else {
        Ok(
            (
                t.leaf("dns.resp.data"@, s, p, end, ValueView::Bytes),
                dec(len as int) + " bytes"@,
            ),
        )
    }
}

#[verifier::rlimit(60)]
fn read_data(
    ty: u16,
    d: &[u8],
    rd: usize,
    len: u16,
    base: usize,
    s: SourceId,
    t: &mut TreeBuilder,
) -> (r: Result<String, DissectError>)
    requires
        rd + len <= d@.len(),
        base + d@.len() <= usize::MAX,
    ensures
        match record_data(ty, d@, rd as int, len, base as int, s, old(t)@) {
            Ok((u, shown)) => final(t)@ == u && (r matches Ok(v) && v@ == shown),
            Err(e) => r == Err::<String, DissectError>(e),
        },
{
    let p: usize = base + rd;
    let end: usize = p + len as usize;
    if ty == 1 && len == 4 {
        let a: [u8; 4] = ipv4_at(d, rd);
        let _ = t.leaf("dns.a", s, p..p + 4, Value::Ipv4(a));
        Ok(fmt_ipv4(a))
    } else if ty == 28 && len == 16 {
        let a: [u8; 16] = ipv6_at(d, rd);
        let _ = t.leaf("dns.aaaa", s, p..p + 16, Value::Ipv6(a));
        Ok(fmt_ipv6(a))
    } else if ty == 2 || ty == 5 || ty == 12 {
        match name_or_error(d, base, rd) {
            Err(e) => Err(e),
            Ok((target, _)) => {
                let abbrev: &'static str = if ty == 2 {
                    "dns.ns"
                } else if ty == 5 {
                    "dns.cname"
                } else {
                    "dns.ptr.domain_name"
                };
                let out: String = text::owned(target.as_str());
                let _ = t.leaf(abbrev, s, p..end, Value::Str(target));
                Ok(out)
            },
        }
    } else if ty == 15 {
        if len < 2 {
            return Err(DissectError::Truncated { at: p, need: 2, have: len as usize });
        }
        match name_or_error(d, base, rd + 2) {
            Err(e) => Err(e),
            Ok((mx, _)) => {
                let pref: u16 = get_be16(d, rd);
                let mut out: String = text::dec_text(pref as u64);
                out.push_str(" ");
                out.push_str(mx.as_str());
                let _ = t.leaf("dns.mx.preference", s, p..p + 2, Value::Unsigned(pref as u64));
                let _ = t.leaf("dns.mx.mail_exchange", s, p + 2..end, Value::Str(mx));
                Ok(out)
            },
        }
    } else if ty == 16 {
        read_strings(d, rd, rd + len as usize, base, s, t)
    } else if ty == 6 {
        read_authority(d, rd, rd + len as usize, base, s, t)
    } else if ty == 33 {
        if len < 6 {
            return Err(first_short(p, len as usize, &SERVICE));
        }
        match name_or_error(d, base, rd + 6) {
            Err(e) => Err(e),
            Ok((target, _)) => {
                let prio: u16 = get_be16(d, rd);
                let weight: u16 = get_be16(d, rd + 2);
                let port: u16 = get_be16(d, rd + 4);
                let mut out: String = text::dec_text(prio as u64);
                out.push_str(" ");
                text::push_dec(&mut out, weight as u64);
                out.push_str(" ");
                text::push_dec(&mut out, port as u64);
                out.push_str(" ");
                out.push_str(target.as_str());
                let _ = t.leaf("dns.srv.priority", s, p..p + 2, Value::Unsigned(prio as u64));
                let _ = t.leaf("dns.srv.weight", s, p + 2..p + 4, Value::Unsigned(weight as u64));
                let _ = t.leaf("dns.srv.port", s, p + 4..p + 6, Value::Unsigned(port as u64));
                let _ = t.leaf("dns.srv.target", s, p + 6..end, Value::Str(target));
                Ok(out)
            },
        }
    } else {
        let _ = t.leaf("dns.resp.data", s, p..end, Value::Bytes);
        let mut out: String = text::dec_text(len as u64);
        out.push_str(" bytes");
        Ok(out)
    }
}

// ---- records --------------------------------------------------------------------

/// The resource record at `pos` of the message `d`, which sits at `base`.
pub open spec fn record(d: Seq<u8>, pos: int, base: int, s: SourceId, t: Trace) -> Result<
    Piece,
    DissectError,
> {
    match name_at(d, pos) {
        Err(what) => Err(bad_name(base, pos, what)),
        Ok((name, after)) => {
            let p = base + after;
            if d.len() < after + 10 {
                Err(shortfall(p, d.len() - after, RECORD@))
            } else {
                let (ty, class, ttl, len) = (
                    be16(d, after),
                    be16(d, after + 2),
                    be32(d, after + 4),
                    be16(d, after + 8),
                );
                let rd = after + 10;
                if d.len() < rd + len {
                    Err(cut(base + rd, len as int, d.len() - rd))
                } else {
                    let kind = named_or(DNS_TYPES@, ty as u64, "Unknown"@);
                    let row = t.rows.len() as int;
                    let t = t.leaf(
                        "dns.resp"@,
                        s,
                        base + pos,
                        base + rd + len,
                        ValueView::Empty,
                    ).down().leaf(
                        "dns.resp.name"@,
                        s,
                        base + pos,
                        p,
                        ValueView::Str(name),
                    ).leaf("dns.resp.type"@, s, p, p + 2, ValueView::Unsigned(ty as u64)).leaf(
                        "dns.resp.class"@,
                        s,
                        p + 2,
                        p + 4,
                        ValueView::Unsigned(class as u64),
                    ).leaf(
                        "dns.resp.ttl"@,
                        s,
                        p + 4,
                        p + 8,
                        ValueView::Unsigned(ttl as u64),
                    ).leaf("dns.resp.len"@, s, p + 8, p + 10, ValueView::Unsigned(len as u64));
                    match record_data(ty, d, rd, len, base, s, t) {
                        Err(e) => Err(e),
                        Ok((t, value)) => Ok(
                            (
                                t.label(
                                    row,
                                    name + ": type "@ + kind + ", class "@ + class_text(class)
                                        + ", "@ + value,
                                ),
                                rd + len,
                                kind + " "@ + value,
                            ),
                        ),
                    }
                }
            }
        },
    }
}

/// Rows are only ever added.
proof fn lemma_strings_grow(
    d: Seq<u8>,
    i: int,
    end: int,
    base: int,
    s: SourceId,
    t: Trace,
    parts: Seq<Seq<char>>,
)
    ensures
        strings(d, i, end, base, s, t, parts) matches Ok(v) ==> v.0.rows.len() >= t.rows.len(),
    decreases end - i,
{
    if i < end && d[i] <= end - i - 1 {
        let len = d[i] as int;
        let shown = utf8_lossy(d.subrange(i + 1, i + 1 + len));
        lemma_strings_grow(
            d,
            i + 1 + len,
            end,
            base,
            s,
            t.leaf("dns.txt"@, s, base + i + 1, base + i + 1 + len, ValueView::Str(shown)),
            parts.push(shown),
        );
    }
}

proof fn lemma_data_grows(
    ty: u16,
    d: Seq<u8>,
    rd: int,
    len: u16,
    base: int,
    s: SourceId,
    t: Trace,
)
    ensures
        record_data(ty, d, rd, len, base, s, t) matches Ok(v) ==> v.0.rows.len() >= t.rows.len(),
{
    lemma_strings_grow(d, rd, rd + len, base, s, t, Seq::empty());
}

#[verifier::rlimit(60)]
fn read_record(d: &[u8], pos: usize, base: usize, s: SourceId, depth: u8) -> (r: Result<
    (TreeBuilder, usize, String),
    DissectError,
>)
    requires
        pos <= d@.len(),
        base + d@.len() <= usize::MAX,
    ensures
        match r {
            Ok((t, next, info)) => record(
                d@,
                pos as int,
                base as int,
                s,
                Trace { rows: Seq::empty(), depth: depth as int },
            ) == Ok::<Piece, DissectError>((t@, next as int, info@)) && next <= d@.len(),
            Err(e) => record(
                d@,
                pos as int,
                base as int,
                s,
                Trace { rows: Seq::empty(), depth: depth as int },
            ) == Err::<Piece, DissectError>(e),
        },
{
    let (name, after) = match name_or_error(d, base, pos) {
        Ok(v) => v,
        Err(e) => {
            return Err(e);
        },
    };
    let p: usize = base + after;
    if d.len() - after < 10 {
        return Err(first_short(p, d.len() - after, &RECORD));
    }
    let ty: u16 = get_be16(d, after);
    let class: u16 = get_be16(d, after + 2);
    let ttl: u32 = get_be32(d, after + 4);
    let len: u16 = get_be16(d, after + 8);
    let rd: usize = after + 10;
    if d.len() - rd < len as usize {
        return Err(
            DissectError::Truncated { at: base + rd, need: len as usize, have: d.len() - rd },
        );
    }
    let kind: &'static str = enum_name_or(&DNS_TYPES, ty as u64, "Unknown");
    let mut label: String = text::cat(name.as_str(), ": type ");
    label.push_str(kind);
    label.push_str(", class ");
    label.push_str(class_name(class).as_str());
    label.push_str(", ");
    let mut t: TreeBuilder = TreeBuilder::at(depth);
    let row: usize = t.leaf("dns.resp", s, base + pos..base + rd + len as usize, Value::Empty);
    t.down();
    let _ = t.leaf("dns.resp.name", s, base + pos..p, Value::Str(name));
    let _ = t.leaf("dns.resp.type", s, p..p + 2, Value::Unsigned(ty as u64));
    let _ = t.leaf("dns.resp.class", s, p + 2..p + 4, Value::Unsigned(class as u64));
    let _ = t.leaf("dns.resp.ttl", s, p + 4..p + 8, Value::Unsigned(ttl as u64));
    let _ = t.leaf("dns.resp.len", s, p + 8..p + 10, Value::Unsigned(len as u64));
    proof {
        lemma_data_grows(ty, d@, rd as int, len, base as int, s, t@);
    }
    match read_data(ty, d, rd, len, base, s, &mut t) {
        Err(e) => Err(e),
        Ok(value) => {
            label.push_str(value.as_str());
            t.set_text(row, label);
            let mut info: String = text::cat(kind, " ");
            info.push_str(value.as_str());
            Ok((t, rd + len as usize, info))
        },
    }
}

// ---- sections -------------------------------------------------------------------

/// What a section came to: the frame, where it ends, the Info column, and
/// whether all of it could be read.
pub struct Section {
    pub m: Model,
    pub pos: int,
    pub info: Seq<char>,
    pub ok: bool,
}

/// Up to `k` questions or records from `pos` on, written behind what is there.
/// Those of the question and answer sections are told in the Info column. One
/// that cannot be read leaves the rest of the message malformed.
pub open spec fn items(
    k: nat,
    d: Seq<u8>,
    pos: int,
    base: int,
    questions: bool,
    told: bool,
    m: Model,
    info: Seq<char>,
) -> Section
    decreases k,
{
    if k == 0 {
        Section { m, pos, info, ok: true }
    } else {
        let t = Trace { rows: Seq::empty(), depth: m.trace.depth };
        let item = if questions {
            question(d, pos, base, m.source, t)
        } else {
            record(d, pos, base, m.source, t)
        };
        match item {
            Ok((rows, next, text)) => items(
                (k - 1) as nat,
                d,
                next,
                base,
                questions,
                told,
                m.append(rows),
                if told {
                    info + " "@ + text
                } else {
                    info
                },
            ),
            Err(e) => Section {
                m: m.leaf_text(
                    "_ws.malformed"@,
                    base + pos,
                    base + d.len(),
                    ValueView::Empty,
                    "[Malformed Packet: dns] "@ + e.message(),
                ),
                pos,
                info,
                ok: false,
            },
        }
    }
}

/// How many items of a section are read.
pub open spec fn capped(count: u16) -> nat {
    if count < MAX_RECORDS {
        count as nat
    } else {
        MAX_RECORDS as nat
    }
}

/// A section of `count` items, unless it is empty or reading has failed. It
/// spans its items; a malformed rest reaches to the end.
pub open spec fn section(
    x: Section,
    count: u16,
    abbrev: Seq<char>,
    questions: bool,
    told: bool,
    d: Seq<u8>,
    base: int,
) -> Section {
    if !x.ok || count == 0 {
        x
    } else {
        let sec = x.m.count();
        let p = base + x.pos;
        let y = items(
            capped(count),
            d,
            x.pos,
            base,
            questions,
            told,
            x.m.begin(abbrev, p, p),
            x.info,
        );
        Section {
            m: y.m.end_at(
                sec,
                base + (if y.ok {
                    y.pos
                } else {
                    d.len() as int
                }),
            ),
            ..y
        }
    }
}

#[verifier::rlimit(40)]
fn read_section(
    d: &[u8],
    pos: usize,
    base: usize,
    count: u16,
    abbrev: &'static str,
    questions: bool,
    told: bool,
    ctx: &mut Ctx,
    info: &mut String,
) -> (r: (usize, bool))
    requires
        pos <= d@.len(),
        base + d@.len() <= usize::MAX,
    ensures
        section(
            Section { m: old(ctx)@, pos: pos as int, info: old(info)@, ok: true },
            count,
            abbrev@,
            questions,
            told,
            d@,
            base as int,
        ) == (Section { m: final(ctx)@, pos: r.0 as int, info: final(info)@, ok: r.1 }),
        r.0 <= d@.len(),
        final(ctx)@.count() >= old(ctx)@.count(),
        final(ctx)@.base == old(ctx)@.base,
{
    if count == 0 {
        return (pos, true);
    }
    let sec: usize = ctx.begin(abbrev, base + pos..base + pos);
    let mut pos: usize = pos;
    let mut k: u16 = if count < MAX_RECORDS {
        count
    } else {
        MAX_RECORDS
    };
    let mut ok: bool = true;
    let ghost all = items(
        capped(count),
        d@,
        pos as int,
        base as int,
        questions,
        told,
        ctx@,
        info@,
    );
    let ghost sec_count = ctx@.count();
    while k > 0 && ok
        invariant
            pos <= d@.len(),
            base + d@.len() <= usize::MAX,
            sec < ctx@.count(),
            ctx@.count() >= old(ctx)@.count(),
            ctx@.base == old(ctx)@.base,
            ok ==> all == items(
                k as nat,
                d@,
                pos as int,
                base as int,
                questions,
                told,
                ctx@,
                info@,
            ),
            !ok ==> all == (Section { m: ctx@, pos: pos as int, info: info@, ok: false }),
        decreases k,
    {
        let source: SourceId = ctx.source();
        let depth: u8 = ctx.depth();
        let item: Result<(TreeBuilder, usize, String), DissectError> = if questions {
            read_question(d, pos, base, source, depth)
        } else {
            read_record(d, pos, base, source, depth)
        };
        match item {
            Ok((rows, next, shown)) => {
                ctx.append(rows);
                if told {
                    info.push_str(" ");
                    info.push_str(shown.as_str());
                }
                pos = next;
                k = k - 1;
            },
            Err(e) => {
                let label: String = text::cat("[Malformed Packet: dns] ", e.text().as_str());
                let _ = ctx.leaf_text(
                    "_ws.malformed",
                    base + pos..base + d.len(),
                    Value::Empty,
                    label.as_str(),
                );
                ok = false;
                k = 0;
            },
        }
    }
    ctx.end_at(
        sec,
        base + (if ok {
            pos
        } else {
            d.len()
        }),
    );
    (pos, ok)
}

// ---- the layer ------------------------------------------------------------------

/// A flag of the header.
pub open spec fn flag(m: Model, abbrev: Seq<char>, a: int, flags: u16, mask: u16) -> Model {
    m.leaf(abbrev, a + 2, a + 4, ValueView::Bool(flags & mask != 0))
}

/// The fields of the header. Some flags only mean something in a response.
pub open spec fn header_fields(d: Seq<u8>, m: Model) -> Model {
    let a = m.base;
    let flags = be16(d, 2);
    let response = flags & 0x8000 != 0;
    let m = m.set_protocol("dns"@).begin_text(
        "dns"@,
        a,
        a + d.len(),
        "Domain Name System ("@ + (if response {
            "response"@
        } else {
            "query"@
        }) + ")"@,
    ).leaf("dns.id"@, a, a + 2, ValueView::Unsigned(be16(d, 0) as u64)).begin_value_text(
        "dns.flags"@,
        a + 2,
        a + 4,
        ValueView::Unsigned(flags as u64),
        "Flags: 0x"@ + hex_pad(flags as int, 4) + " "@ + (if response {
            "Standard query response"@
        } else {
            "Standard query"@
        }),
    ).leaf("dns.flags.response"@, a + 2, a + 4, ValueView::Bool(response)).leaf(
        "dns.flags.opcode"@,
        a + 2,
        a + 4,
        ValueView::Unsigned(((flags >> 11) & 0xf) as u64),
    );
    let m = if response {
        flag(m, "dns.flags.authoritative"@, a, flags, 0x0400)
    } else {
        m
    };
    let m = flag(m, "dns.flags.truncated"@, a, flags, 0x0200);
    let m = flag(m, "dns.flags.recdesired"@, a, flags, 0x0100);
    let m = if response {
        flag(m, "dns.flags.recavail"@, a, flags, 0x0080)
    } else {
        m
    };
    let m = flag(m, "dns.flags.z"@, a, flags, 0x0040);
    let m = if response {
        flag(m, "dns.flags.authenticated"@, a, flags, 0x0020)
    } else {
        m
    };
    let m = flag(m, "dns.flags.checkdisable"@, a, flags, 0x0010);
    let m = if response {
        m.leaf("dns.flags.rcode"@, a + 2, a + 4, ValueView::Unsigned((flags & 0xf) as u64))
    } else {
        m
    };
    m.end().leaf("dns.count.queries"@, a + 4, a + 6, ValueView::Unsigned(be16(d, 4) as u64)).leaf(
        "dns.count.answers"@,
        a + 6,
        a + 8,
        ValueView::Unsigned(be16(d, 6) as u64),
    ).leaf("dns.count.auth_rr"@, a + 8, a + 10, ValueView::Unsigned(be16(d, 8) as u64)).leaf(
        "dns.count.add_rr"@,
        a + 10,
        a + 12,
        ValueView::Unsigned(be16(d, 10) as u64),
    )
}

fn write_flag(ctx: &mut Ctx, abbrev: &'static str, a: usize, flags: u16, mask: u16)
    requires
        a + 4 <= usize::MAX,
    ensures
        final(ctx)@ == flag(old(ctx)@, abbrev@, a as int, flags, mask),
        final(ctx)@.base == old(ctx)@.base,
{
    let _ = ctx.leaf(abbrev, a + 2..a + 4, Value::Bool(flags & mask != 0));
}

#[verifier::rlimit(40)]
fn write_header(data: &[u8], ctx: &mut Ctx)
    requires
        data@.len() >= 12,
        addressable(data@, old(ctx)@),
    ensures
        final(ctx)@ == header_fields(data@, old(ctx)@),
        final(ctx)@.base == old(ctx)@.base,
{
    let a: usize = ctx.base();
    let flags: u16 = get_be16(data, 2);
    let response: bool = flags & 0x8000 != 0;
    ctx.set_protocol("dns");
    let mut label: String = text::cat(
        "Domain Name System (",
        if response {
            "response"
        } else {
            "query"
        },
    );
    label.push_str(")");
    let _ = ctx.begin_text("dns", a..a + data.len(), label.as_str());
    let _ = ctx.leaf("dns.id", a..a + 2, Value::Unsigned(get_be16(data, 0) as u64));
    let mut label: String = text::owned("Flags: 0x");
    text::push_hex(&mut label, flags as u64, 4);
    label.push_str(" ");
    label.push_str(
        if response {
            "Standard query response"
        } else {
            "Standard query"
        },
    );
    let _ = ctx.begin_value_text(
        "dns.flags",
        a + 2..a + 4,
        Value::Unsigned(flags as u64),
        label.as_str(),
    );
    let _ = ctx.leaf("dns.flags.response", a + 2..a + 4, Value::Bool(response));
    let _ = ctx.leaf(
        "dns.flags.opcode",
        a + 2..a + 4,
        Value::Unsigned(((flags >> 11) & 0xf) as u64),
    );
    if response {
        write_flag(ctx, "dns.flags.authoritative", a, flags, 0x0400);
    }
    write_flag(ctx, "dns.flags.truncated", a, flags, 0x0200);
    write_flag(ctx, "dns.flags.recdesired", a, flags, 0x0100);
    if response {
        write_flag(ctx, "dns.flags.recavail", a, flags, 0x0080);
    }
    write_flag(ctx, "dns.flags.z", a, flags, 0x0040);
    if response {
        write_flag(ctx, "dns.flags.authenticated", a, flags, 0x0020);
    }
    write_flag(ctx, "dns.flags.checkdisable", a, flags, 0x0010);
    if response {
        let _ = ctx.leaf("dns.flags.rcode", a + 2..a + 4, Value::Unsigned((flags & 0xf) as u64));
    }
    ctx.end();
    let _ = ctx.leaf("dns.count.queries", a + 4..a + 6, Value::Unsigned(get_be16(data, 4) as u64));
    let _ = ctx.leaf("dns.count.answers", a + 6..a + 8, Value::Unsigned(get_be16(data, 6) as u64));
    let _ = ctx.leaf("dns.count.auth_rr", a + 8..a + 10, Value::Unsigned(get_be16(data, 8) as u64));
    let _ = ctx.leaf(
        "dns.count.add_rr",
        a + 10..a + 12,
        Value::Unsigned(get_be16(data, 10) as u64),
    );
}

/// How the Info column begins: the direction, the id, and the error code of a
/// response that has one.
pub open spec fn info_head(d: Seq<u8>) -> Seq<char> {
    let flags = be16(d, 2);
    let response = flags & 0x8000 != 0;
    let rcode = flags & 0xf;
    let head = (if response {
        "Standard query response 0x"@
    } else {
        "Standard query 0x"@
    }) + hex_pad(be16(d, 0) as int, 4);
    if response && rcode != 0 {
        head + " "@ + named_or(DNS_RCODES@, rcode as u64, "Error"@)
    } else {
        head
    }
}

/// The DNS layer.
pub open spec fn layer(d: Seq<u8>, m: Model) -> Outcome {
    let a = m.base;
    let n = d.len() as int;
    if n < 12 {
        (m, Some(shortfall(a, n, HEADER@)))
    } else {
        let m = header_fields(d, m);
        let x = Section { m, pos: 12, info: info_head(d), ok: true };
        let x = section(x, be16(d, 4), "dns.queries"@, true, true, d, a);
        let x = section(x, be16(d, 6), "dns.answers"@, false, true, d, a);
        let x = section(x, be16(d, 8), "dns.authority"@, false, false, d, a);
        let x = section(x, be16(d, 10), "dns.additional"@, false, false, d, a);
        let info = if x.ok {
            x.info
        } else {
            x.info + " [Malformed]"@
        };
        (x.m.set_info(info).end(), None)
    }
}

pub fn dissect(data: &[u8], ctx: &mut Ctx) -> (r: Result<(), DissectError>)
    requires
        addressable(data@, old(ctx)@),
    ensures
        (final(ctx)@, error_of(r)) == layer(data@, old(ctx)@),
{
    let a: usize = ctx.base();
    let n: usize = data.len();
    if n < 12 {
        return Err(first_short(a, n, &HEADER));
    }
    write_header(data, ctx);
    let flags: u16 = get_be16(data, 2);
    let response: bool = flags & 0x8000 != 0;
    let rcode: u16 = flags & 0xf;
    let mut info: String = text::owned(
        if response {
            "Standard query response 0x"
        } else {
            "Standard query 0x"
        },
    );
    text::push_hex(&mut info, get_be16(data, 0) as u64, 4);
    if response && rcode != 0 {
        info.push_str(" ");
        info.push_str(enum_name_or(&DNS_RCODES, rcode as u64, "Error"));
    }
    let mut pos: usize = 12;
    let mut ok: bool = true;
    let x = read_section(
        data,
        pos,
        a,
        get_be16(data, 4),
        "dns.queries",
        true,
        true,
        ctx,
        &mut info,
    );
    pos = x.0;
    ok = x.1;
    if ok {
        let x = read_section(
            data,
            pos,
            a,
            get_be16(data, 6),
            "dns.answers",
            false,
            true,
            ctx,
            &mut info,
        );
        pos = x.0;
        ok = x.1;
    }
    if ok {
        let x = read_section(
            data,
            pos,
            a,
            get_be16(data, 8),
            "dns.authority",
            false,
            false,
            ctx,
            &mut info,
        );
        pos = x.0;
        ok = x.1;
    }
    if ok {
        let x = read_section(
            data,
            pos,
            a,
            get_be16(data, 10),
            "dns.additional",
            false,
            false,
            ctx,
            &mut info,
        );
        ok = x.1;
    }
    if !ok {
        info.push_str(" [Malformed]");
    }
    ctx.set_info(info);
    ctx.end();
    Ok(())
}

} // verus!

//! ICMPv4 (RFC 792). Error messages carry the offending IP header, which is
//! dissected as a nested layer.

use vstd::prelude::*;

use crate::bytes;
use crate::bytes::{be16, be32, get_be16, get_be32};
use crate::dissect::ctx::{Ctx, Handoff, Model, NetAddrs, Proto};
use crate::dissect::cursor::{DissectError, SourceId};
use crate::dissect::node::{Value, ValueView};
use crate::dissect::registry::{enum_name_or, named_or};
use crate::dissect::tables::ICMP_TYPES;
use crate::dissect::Summary;
use crate::text;
use crate::text::{dec, hex_pad};

use super::{
    addressable, bad_packet, bad_packet_text, checked, checksum_of, data_layer, error_of,
    first_short, flat, inet_checksum, ipv4, ipv4_at, judge, report_checksum, shortfall, tcp, udp,
    verdict, Outcome, CK_UNVERIFIED,
};

verus! {

/// Widths of the header fields.
pub const HEADER: [usize; 3] = [1, 1, 2];

/// Widths of two 16-bit fields.
pub const TWO: [usize; 2] = [2, 2];

/// Width of one 32-bit field.
pub const ONE: [usize; 1] = [4];

/// Widths of a pointer and what follows it.
pub const POINTER: [usize; 2] = [1, 3];

/// How deep packets quoted in packets are followed.
pub const MAX_NESTING: u8 = 2;

/// What an error message says.
pub open spec fn detail_of(ty: u8, code: u8, kind: Seq<char>) -> Seq<char> {
    if ty == 3 && code == 0 {
        "Destination network unreachable"@
    } else if ty == 3 && code == 1 {
        "Destination host unreachable"@
    } else if ty == 3 && code == 2 {
        "Destination protocol unreachable"@
    } else if ty == 3 && code == 3 {
        "Destination port unreachable"@
    } else if ty == 3 && code == 4 {
        "Fragmentation needed"@
    } else if ty == 3 && code == 13 {
        "Communication administratively filtered"@
    } else if ty == 11 && code == 0 {
        "Time to live exceeded in transit"@
    } else if ty == 11 && code == 1 {
        "Fragment reassembly time exceeded"@
    } else {
        kind
    }
}

fn detail_text(ty: u8, code: u8, kind: &'static str) -> (r: &'static str)
    ensures
        r@ == detail_of(ty, code, kind@),
{
    if ty == 3 && code == 0 {
        "Destination network unreachable"
    } else if ty == 3 && code == 1 {
        "Destination host unreachable"
    } else if ty == 3 && code == 2 {
        "Destination protocol unreachable"
    } else if ty == 3 && code == 3 {
        "Destination port unreachable"
    } else if ty == 3 && code == 4 {
        "Fragmentation needed"
    } else if ty == 3 && code == 13 {
        "Communication administratively filtered"
    } else if ty == 11 && code == 0 {
        "Time to live exceeded in transit"
    } else if ty == 11 && code == 1 {
        "Fragment reassembly time exceeded"
    } else {
        kind
    }
}

/// Error messages, which quote the packet that caused them.
pub open spec fn is_error(ty: u8) -> bool {
    ty == 3 || ty == 4 || ty == 5 || ty == 11 || ty == 12
}

/// Queries and replies with an identifier and a sequence number.
pub open spec fn is_query(ty: u8) -> bool {
    ty == 0 || ty == 8 || ty == 13 || ty == 14
}

/// The widths of the four bytes between the header and the quoted packet.
pub open spec fn error_widths(ty: u8, code: u8) -> Seq<usize> {
    if ty == 3 && code == 4 {
        TWO@
    } else if ty == 12 {
        POINTER@
    } else {
        ONE@
    }
}

/// The four bytes between the header of an error and the quoted packet.
pub open spec fn error_fields(d: Seq<u8>, m: Model) -> Model {
    let a = m.base;
    let (ty, code) = (d[0], d[1]);
    if ty == 3 && code == 4 {
        m.leaf("icmp.unused"@, a + 4, a + 6, ValueView::Unsigned(0)).leaf(
            "icmp.mtu"@,
            a + 6,
            a + 8,
            ValueView::Unsigned(be16(d, 6) as u64),
        )
    } else if ty == 5 {
        m.leaf("icmp.gateway"@, a + 4, a + 8, ValueView::Ipv4(d.subrange(4, 8)))
    } else if ty == 12 {
        m.leaf("icmp.pointer"@, a + 4, a + 5, ValueView::Unsigned(d[4] as u64)).leaf(
            "icmp.unused"@,
            a + 5,
            a + 8,
            ValueView::Unsigned(0),
        )
    } else {
        m.leaf("icmp.unused"@, a + 4, a + 8, ValueView::Unsigned(be32(d, 4) as u64))
    }
}

fn write_error_fields(data: &[u8], ctx: &mut Ctx)
    requires
        data@.len() >= 8,
        addressable(data@, old(ctx)@),
    ensures
        final(ctx)@ == error_fields(data@, old(ctx)@),
        final(ctx)@.count() >= old(ctx)@.count(),
        final(ctx)@.base == old(ctx)@.base,
{
    let a: usize = ctx.base();
    let ty: u8 = data[0];
    if ty == 3 && data[1] == 4 {
        let _ = ctx.leaf("icmp.unused", a + 4..a + 6, Value::Unsigned(0));
        let _ = ctx.leaf("icmp.mtu", a + 6..a + 8, Value::Unsigned(get_be16(data, 6) as u64));
    } else if ty == 5 {
        let _ = ctx.leaf("icmp.gateway", a + 4..a + 8, Value::Ipv4(ipv4_at(data, 4)));
    } else if ty == 12 {
        let _ = ctx.leaf("icmp.pointer", a + 4..a + 5, Value::Unsigned(data[4] as u64));
        let _ = ctx.leaf("icmp.unused", a + 5..a + 8, Value::Unsigned(0));
    } else {
        let _ = ctx.leaf("icmp.unused", a + 4..a + 8, Value::Unsigned(get_be32(data, 4) as u64));
    }
}

/// The part of the quoted packet `d`, which sits at `base`, that a layer at
/// `offset` sees: `len` bytes if it was told how many.
pub open spec fn quoted_slice(d: Seq<u8>, base: int, offset: int, len: Option<usize>) -> Seq<u8> {
    let end = base + d.len();
    let stop = match len {
        Some(l) => if offset + l < end {
            offset + l
        } else {
            end
        },
        None => end,
    };
    d.subrange(offset - base, stop - base)
}

/// One layer of a quoted packet.
pub open spec fn quoted_layer(proto: Proto, slice: Seq<u8>, m: Model, level: u8) -> Outcome
    decreases 3 - level, 2int,
{
    match proto {
        Proto::Ipv4 => ipv4::layer(slice, m),
        Proto::Tcp => tcp::layer(slice, m),
        Proto::Udp => udp::layer(slice, m),
        Proto::Icmp => layer_at(slice, m, level),
        _ => (data_layer(slice, m), None),
    }
}

/// Up to `k` layers of the quoted packet `d`, which sits at `base` in data
/// source `source`, beginning with `proto` at `offset`. A layer that cannot
/// be read is a malformed row rather than a failure of the quoting message.
pub open spec fn quoted(
    k: nat,
    d: Seq<u8>,
    base: int,
    source: SourceId,
    proto: Proto,
    offset: int,
    len: Option<usize>,
    level: u8,
    m: Model,
) -> Model
    decreases 3 - level, 2 + k,
{
    if k == 0 || level > MAX_NESTING {
        m
    } else {
        let end = base + d.len();
        let slice = quoted_slice(d, base, offset, len);
        let (after, e) = quoted_layer(proto, slice, m.nested(level).with_base(offset), level);
        match e {
            Some(e) => after.at_depth(m.trace.depth).leaf_text(
                "_ws.malformed"@,
                offset,
                end,
                ValueView::Empty,
                bad_packet(proto, e),
            ).next_taken(),
            None => match after.next {
                Some(h) => if h.source == source && base <= h.offset < end {
                    quoted(
                        (k - 1) as nat,
                        d,
                        base,
                        source,
                        h.proto,
                        h.offset as int,
                        h.len,
                        level,
                        after.next_taken(),
                    )
                } else {
                    after.next_taken()
                },
                None => after.next_taken(),
            },
        }
    }
}

/// The packet quoted at `base`, unless quotes are already as deep as they
/// are followed.
pub open spec fn quote(d: Seq<u8>, base: int, level: u8, m: Model) -> Model
    decreases 3 - level, 0int,
{
    if level >= MAX_NESTING {
        m
    } else {
        quoted(
            4,
            d,
            base,
            m.source,
            Proto::Ipv4,
            base,
            None,
            (level + 1) as u8,
            m,
        ).with_base(m.base).nested(level)
    }
}

/// The checksum status of a message.
pub open spec fn status_of(d: Seq<u8>, m: Model) -> u64 {
    if m.options.validate_ip_checksums {
        verdict(Some(checksum_of(d)))
    } else {
        CK_UNVERIFIED
    }
}

/// The ICMP layer inside `level` quotes.
pub open spec fn layer_at(d: Seq<u8>, m: Model, level: u8) -> Outcome
    decreases 3 - level, 1int,
{
    let a = m.base;
    let n = d.len() as int;
    if n < 4 {
        (m, Some(shortfall(a, n, HEADER@)))
    } else {
        let (ty, code) = (d[0], d[1]);
        let kind = named_or(ICMP_TYPES@, ty as u64, "Unknown"@);
        let status = status_of(d, m);
        let m = m.set_protocol("icmp"@).begin("icmp"@, a, a + n).leaf(
            "icmp.type"@,
            a,
            a + 1,
            ValueView::Unsigned(ty as u64),
        ).leaf("icmp.code"@, a + 1, a + 2, ValueView::Unsigned(code as u64)).leaf(
            "icmp.checksum"@,
            a + 2,
            a + 4,
            ValueView::Unsigned(be16(d, 2) as u64),
        );
        let m = checked(m, "icmp.checksum.status"@, a + 2, a + 4, status);
        if is_query(ty) {
            if n < 8 {
                (m, Some(shortfall(a + 4, n - 4, TWO@)))
            } else {
                let (ident, seq) = (be16(d, 4), be16(d, 6));
                let m = m.leaf("icmp.ident"@, a + 4, a + 6, ValueView::Unsigned(ident as u64)).leaf(
                    "icmp.seq"@,
                    a + 6,
                    a + 8,
                    ValueView::Unsigned(seq as u64),
                ).set_info(
                    kind + " id=0x"@ + hex_pad(ident as int, 4) + ", seq="@ + dec(seq as int),
                );
                let m = if n > 8 {
                    m.leaf("icmp.data"@, a + 8, a + n, ValueView::Bytes)
                } else {
                    m
                };
                (m.end(), None)
            }
        } else if is_error(ty) {
            if n < 8 {
                (m, Some(shortfall(a + 4, n - 4, error_widths(ty, code))))
            } else {
                let m = error_fields(d, m).set_info(detail_of(ty, code, kind));
                // The original datagram's header + 8 bytes follows; it is
                // nested so its addresses do not overwrite the columns.
                let m = if n > 8 {
                    let inner = if level < MAX_NESTING {
                        quote(d.subrange(8, n), a + 8, level, m)
                    } else {
                        m
                    };
                    inner.with_summary(m.summary).with_addrs(m.addrs).truncate_protocols(
                        m.protocols.len() as int,
                    )
                } else {
                    m
                };
                (m.end(), None)
            }
        } else {
            let m = m.set_info(
                kind + " (type "@ + dec(ty as int) + ", code "@ + dec(code as int) + ")"@,
            );
            let m = if n > 4 {
                m.leaf("icmp.data"@, a + 4, a + n, ValueView::Bytes)
            } else {
                m
            };
            (m.end(), None)
        }
    }
}

/// The ICMP layer.
pub open spec fn layer(d: Seq<u8>, m: Model) -> Outcome {
    layer_at(d, m, m.nesting)
}

pub fn dissect(data: &[u8], ctx: &mut Ctx) -> (r: Result<(), DissectError>)
    requires
        addressable(data@, old(ctx)@),
    ensures
        (final(ctx)@, error_of(r)) == layer(data@, old(ctx)@),
{
    let level: u8 = ctx.nesting();
    dissect_at(data, ctx, level)
}

#[verifier::rlimit(40)]
fn dissect_at(data: &[u8], ctx: &mut Ctx, level: u8) -> (r: Result<(), DissectError>)
    requires
        addressable(data@, old(ctx)@),
    ensures
        (final(ctx)@, error_of(r)) == layer_at(data@, old(ctx)@, level),
    decreases 3 - level, 1int,
{
    let a: usize = ctx.base();
    let n: usize = data.len();
    if n < 4 {
        return Err(first_short(a, n, &HEADER));
    }
    let ty: u8 = data[0];
    let code: u8 = data[1];
    let kind: &'static str = enum_name_or(&ICMP_TYPES, ty as u64, "Unknown");
    let status: u64 = if ctx.options().validate_ip_checksums {
        let parts: [&[u8]; 1] = [data];
        proof {
            reveal_with_fuel(flat, 2);
            assert(parts@.drop_last() =~= Seq::empty());
            assert(flat(parts@) =~= data@);
        }
        judge(Some(inet_checksum(&parts)))
    } else {
        CK_UNVERIFIED
    };
    ctx.set_protocol("icmp");
    let _ = ctx.begin("icmp", a..a + n);
    let _ = ctx.leaf("icmp.type", a..a + 1, Value::Unsigned(ty as u64));
    let _ = ctx.leaf("icmp.code", a + 1..a + 2, Value::Unsigned(code as u64));
    let _ = ctx.leaf("icmp.checksum", a + 2..a + 4, Value::Unsigned(get_be16(data, 2) as u64));
    report_checksum(ctx, "icmp.checksum.status", a + 2, a + 4, status);
    if ty == 0 || ty == 8 || ty == 13 || ty == 14 {
        if n < 8 {
            return Err(first_short(a + 4, n - 4, &TWO));
        }
        let ident: u16 = get_be16(data, 4);
        let seq: u16 = get_be16(data, 6);
        let _ = ctx.leaf("icmp.ident", a + 4..a + 6, Value::Unsigned(ident as u64));
        let _ = ctx.leaf("icmp.seq", a + 6..a + 8, Value::Unsigned(seq as u64));
        let mut info: String = text::cat(kind, " id=0x");
        text::push_hex(&mut info, ident as u64, 4);
        info.push_str(", seq=");
        text::push_dec(&mut info, seq as u64);
        ctx.set_info(info);
        if n > 8 {
            let _ = ctx.leaf("icmp.data", a + 8..a + n, Value::Bytes);
        }
    } else if ty == 3 || ty == 4 || ty == 5 || ty == 11 || ty == 12 {
        if n < 8 {
            let e: DissectError = if ty == 3 && code == 4 {
                first_short(a + 4, n - 4, &TWO)
            } else if ty == 12 {
                first_short(a + 4, n - 4, &POINTER)
            } else {
                first_short(a + 4, n - 4, &ONE)
            };
            return Err(e);
        }
        write_error_fields(data, ctx);
        ctx.set_info(text::owned(detail_text(ty, code, kind)));
        // The original datagram's header + 8 bytes follows; dissect it
        // nested so its addresses do not overwrite the summary columns.
        if n > 8 {
            let summary: Summary = ctx.summary();
            let addrs: Option<NetAddrs> = ctx.net_addrs();
            let count: usize = ctx.protocol_count();
            if level < MAX_NESTING {
                nested_at(bytes::part(data, 8, n), a + 8, ctx, level);
            }
            ctx.set_summary(summary);
            ctx.set_net_addrs(addrs);
            ctx.truncate_protocols(count);
        }
    } else {
        let mut info: String = text::cat(kind, " (type ");
        text::push_dec(&mut info, ty as u64);
        info.push_str(", code ");
        text::push_dec(&mut info, code as u64);
        info.push_str(")");
        ctx.set_info(info);
        if n > 4 {
            let _ = ctx.leaf("icmp.data", a + 4..a + n, Value::Bytes);
        }
    }
    ctx.end();
    Ok(())
}

/// Dissect an embedded IPv4 datagram (and its transport header) as child
/// nodes. Errors become `[Malformed]` children rather than failing ICMP.
pub fn nested_ipv4(data: &[u8], base: usize, ctx: &mut Ctx)
    requires
        base + data@.len() <= usize::MAX,
    ensures
        final(ctx)@ == quote(data@, base as int, old(ctx)@.nesting, old(ctx)@),
{
    let level: u8 = ctx.nesting();
    if level < MAX_NESTING {
        nested_at(data, base, ctx, level);
    }
}

fn run_quoted(proto: Proto, slice: &[u8], ctx: &mut Ctx, level: u8) -> (r: Result<
    (),
    DissectError,
>)
    requires
        addressable(slice@, old(ctx)@),
    ensures
        (final(ctx)@, error_of(r)) == quoted_layer(proto, slice@, old(ctx)@, level),
    decreases 3 - level, 2int,
{
    match proto {
        Proto::Ipv4 => ipv4::dissect(slice, ctx),
        Proto::Tcp => tcp::dissect(slice, ctx),
        Proto::Udp => udp::dissect(slice, ctx),
        Proto::Icmp => dissect_at(slice, ctx, level),
        _ => super::data(slice, ctx),
    }
}

fn nested_at(data: &[u8], base: usize, ctx: &mut Ctx, level: u8)
    requires
        base + data@.len() <= usize::MAX,
        level < MAX_NESTING,
    ensures
        final(ctx)@ == quote(data@, base as int, level, old(ctx)@),
    decreases 3 - level, 0int,
{
    let saved_base: usize = ctx.base();
    let source: SourceId = ctx.source();
    let end: usize = base + data.len();
    let mut proto: Proto = Proto::Ipv4;
    let mut offset: usize = base;
    let mut len: Option<usize> = None;
    let mut k: usize = 4;
    let mut done: bool = false;
    let ghost all = quoted(
        4,
        data@,
        base as int,
        source,
        Proto::Ipv4,
        base as int,
        None,
        (level + 1) as u8,
        ctx@,
    );
    while k > 0 && !done
        invariant
            level < MAX_NESTING,
            k <= 4,
            end == base + data@.len(),
            end <= usize::MAX,
            base <= offset <= end,
            !done ==> all == quoted(
                k as nat,
                data@,
                base as int,
                source,
                proto,
                offset as int,
                len,
                (level + 1) as u8,
                ctx@,
            ),
            done ==> all == ctx@,
        decreases k,
    {
        let depth: u8 = ctx.depth();
        let stop: usize = match len {
            Some(l) => if l < end - offset {
                offset + l
            } else {
                end
            },
            None => end,
        };
        let slice: &[u8] = bytes::part(data, offset - base, stop - base);
        ctx.set_nesting(level + 1);
        ctx.set_base(offset);
        proof {
            reveal(Model::with_base);
        }
        match run_quoted(proto, slice, ctx, level + 1) {
            Err(e) => {
                ctx.restore_depth(depth);
                let _ = ctx.leaf_text(
                    "_ws.malformed",
                    offset..end,
                    Value::Empty,
                    bad_packet_text(proto, e).as_str(),
                );
                let _ = ctx.take_next();
                done = true;
            },
            Ok(()) => {
                let next: Option<Handoff> = ctx.take_next();
                match next {
                    Some(h) => {
                        if h.source == source && base <= h.offset && h.offset < end {
                            proto = h.proto;
                            offset = h.offset;
                            len = h.len;
                            k = k - 1;
                        } else {
                            done = true;
                        }
                    },
                    None => {
                        done = true;
                    },
                }
            },
        }
        if done {
            k = 0;
        }
    }
    ctx.set_base(saved_base);
    ctx.set_nesting(level);
}

} // verus!

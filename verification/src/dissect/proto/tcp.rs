//! Transmission Control Protocol (RFC 9293) with all flags and the common
//! options: MSS, window scale, SACK-permitted, SACK blocks, timestamps. The
//! segment is also placed in its conversation, checked against what that has
//! sent so far, and joined to bytes a sub-dissector is still waiting on.

use vstd::prelude::*;

use crate::bytes;
use crate::bytes::{be16, be32, get_be16, get_be32};
use crate::dissect::ctx::{Ctx, Model, Proto};
use crate::dissect::cursor::DissectError;
use crate::dissect::expert::{Group, Severity};
use crate::dissect::node::{Value, ValueView};
use crate::dissect::stream::desegment::{prefix_for, Origin, Prefix, PrefixView};
use crate::dissect::stream::table::{Lookup, LookupView};
use crate::dissect::stream::tcp::{Findings, Segment};
use crate::dissect::stream::{endpoints, endpoints_of};
use crate::text;
use crate::text::{dec, hex_pad};

use super::{
    addressable, bad_option, bad_option_text, checked, cut, error_of, first_short, judge,
    list_text, report_checksum, segment_checksum, shortfall, transport_checksum, verdict, with_name,
    NameList, Outcome, Step, CK_UNVERIFIED,
};

verus! {

/// Widths of the header fields.
pub const HEADER: [usize; 8] = [2, 2, 4, 4, 2, 2, 2, 2];

/// The flag bits, their fields and their names, highest bit first.
pub const FLAG_NAMES: [(u16, &'static str, &'static str); 10] = [
    (0x800, "tcp.flags.res", "RES"),
    (0x100, "tcp.flags.ae", "AE"),
    (0x080, "tcp.flags.cwr", "CWR"),
    (0x040, "tcp.flags.ece", "ECE"),
    (0x020, "tcp.flags.urg", "URG"),
    (0x010, "tcp.flags.ack", "ACK"),
    (0x008, "tcp.flags.push", "PSH"),
    (0x004, "tcp.flags.reset", "RST"),
    (0x002, "tcp.flags.syn", "SYN"),
    (0x001, "tcp.flags.fin", "FIN"),
];

// ---- flags ----------------------------------------------------------------------

/// The names of the set flags from row `i` of the table back to the first:
/// lowest bit first, as in `[SYN, ACK]`.
pub open spec fn set_names(flags: u16, i: int, list: Seq<u8>) -> Seq<u8>
    decreases i + 1,
{
    if i < 0 {
        list
    } else if flags & FLAG_NAMES@[i].0 != 0 {
        set_names(flags, i - 1, with_name(list, FLAG_NAMES@[i].2@))
    } else {
        set_names(flags, i - 1, list)
    }
}

/// The set flags as shown.
pub open spec fn flags_shown(flags: u16) -> Seq<char> {
    list_text(set_names(flags, 9, Seq::empty()))
}

fn flag_list(flags: u16) -> (r: NameList)
    ensures
        list_text(r@) == flags_shown(flags),
{
    let mut names = NameList::new();
    let mut i: usize = 10;
    while i > 0
        invariant
            i <= 10,
            set_names(flags, 9, Seq::empty()) == set_names(flags, i - 1, names@),
        decreases i,
    {
        i -= 1;
        if flags & FLAG_NAMES[i].0 != 0 {
            names.push(FLAG_NAMES[i].2);
        }
    }
    names
}

/// A field for each flag, from row `i` of the table on.
pub open spec fn flag_fields(m: Model, flags: u16, start: int, end: int, i: int) -> Model
    decreases FLAG_NAMES@.len() - i,
{
    if i < 0 || i >= FLAG_NAMES@.len() {
        m
    } else {
        flag_fields(
            m.leaf(
                FLAG_NAMES@[i].1@,
                start,
                end,
                ValueView::Bool(flags & FLAG_NAMES@[i].0 != 0),
            ),
            flags,
            start,
            end,
            i + 1,
        )
    }
}

fn write_flags(ctx: &mut Ctx, flags: u16, start: usize, end: usize)
    ensures
        final(ctx)@ == flag_fields(old(ctx)@, flags, start as int, end as int, 0),
        final(ctx)@.count() >= old(ctx)@.count(),
        final(ctx)@.base == old(ctx)@.base,
{
    let mut i: usize = 0;
    while i < FLAG_NAMES.len()
        invariant
            i <= FLAG_NAMES@.len(),
            ctx@.count() >= old(ctx)@.count(),
            ctx@.base == old(ctx)@.base,
            flag_fields(old(ctx)@, flags, start as int, end as int, 0) == flag_fields(
                ctx@,
                flags,
                start as int,
                end as int,
                i as int,
            ),
        decreases FLAG_NAMES.len() - i,
    {
        let _ = ctx.leaf(
            FLAG_NAMES[i].1,
            start..end,
            Value::Bool(flags & FLAG_NAMES[i].0 != 0),
        );
        i += 1;
    }
}

// ---- options --------------------------------------------------------------------

/// The field an option is shown as, by its kind and body length.
pub open spec fn option_field(kind: u8, body: int) -> Seq<char> {
    if kind == 2 && body == 2 {
        "tcp.options.mss"@
    } else if kind == 3 && body == 1 {
        "tcp.options.wscale"@
    } else if kind == 4 && body == 0 {
        "tcp.options.sack_perm"@
    } else if kind == 5 && body % 8 == 0 {
        "tcp.options.sack"@
    } else if kind == 8 && body == 8 {
        "tcp.options.timestamp"@
    } else {
        "tcp.options.unknown"@
    }
}

fn option_abbrev(kind: u8, body: usize) -> (r: &'static str)
    ensures
        r@ == option_field(kind, body as int),
{
    if kind == 2 && body == 2 {
        "tcp.options.mss"
    } else if kind == 3 && body == 1 {
        "tcp.options.wscale"
    } else if kind == 4 && body == 0 {
        "tcp.options.sack_perm"
    } else if kind == 5 && body % 8 == 0 {
        "tcp.options.sack"
    } else if kind == 8 && body == 8 {
        "tcp.options.timestamp"
    } else {
        "tcp.options.unknown"
    }
}

/// SACK blocks: `n` pairs of edges from position `i` on. What is shown, where
/// reading stopped, the frame, and the error if the list is cut short.
pub open spec fn sack_blocks(
    o: Seq<u8>,
    i: int,
    n: int,
    at: int,
    m: Model,
    shown: Seq<char>,
) -> (Model, int, Seq<char>, Option<DissectError>)
    decreases n,
{
    let left = o.len() - i;
    if n <= 0 {
        (m, i, shown, None)
    } else if left < 4 {
        (m, i, shown, Some(cut(at + i, 4, left)))
    } else if left < 8 {
        (m, i + 4, shown, Some(cut(at + i + 4, 4, left - 4)))
    } else {
        let (le, re) = (be32(o, i), be32(o, i + 4));
        sack_blocks(
            o,
            i + 8,
            n - 1,
            at,
            m.leaf(
                "tcp.options.sack_le"@,
                at + i,
                at + i + 4,
                ValueView::Unsigned(le as u64),
            ).leaf(
                "tcp.options.sack_re"@,
                at + i + 4,
                at + i + 8,
                ValueView::Unsigned(re as u64),
            ),
            shown + " "@ + dec(le as int) + "-"@ + dec(re as int),
        )
    }
}

fn sack(
    o: &[u8],
    first: usize,
    blocks: usize,
    at: usize,
    ctx: &mut Ctx,
    shown: &mut String,
) -> (r: (
    usize,
    Option<DissectError>,
))
    requires
        first <= o@.len(),
        at + o@.len() <= usize::MAX,
    ensures
        (final(ctx)@, r.0 as int, final(shown)@, r.1) == sack_blocks(
            o@,
            first as int,
            blocks as int,
            at as int,
            old(ctx)@,
            old(shown)@,
        ),
        first <= r.0 <= o@.len(),
        r.1 is None ==> r.0 == first + 8 * blocks,
        final(ctx)@.count() >= old(ctx)@.count(),
        final(ctx)@.base == old(ctx)@.base,
{
    let mut i: usize = first;
    let mut n: usize = blocks;
    while n > 0
        invariant
            first <= i <= o@.len(),
            i + 8 * n == first + 8 * blocks,
            at + o@.len() <= usize::MAX,
            ctx@.count() >= old(ctx)@.count(),
            ctx@.base == old(ctx)@.base,
            sack_blocks(
                o@,
                first as int,
                blocks as int,
                at as int,
                old(ctx)@,
                old(shown)@,
            ) == sack_blocks(
                o@,
                i as int,
                n as int,
                at as int,
                ctx@,
                shown@,
            ),
        decreases n,
    {
        let left: usize = o.len() - i;
        if left < 4 {
            return (i, Some(DissectError::Truncated { at: at + i, need: 4, have: left }));
        }
        if left < 8 {
            return (
                i + 4,
                Some(DissectError::Truncated { at: at + i + 4, need: 4, have: left - 4 }),
            );
        }
        let le: u32 = get_be32(o, i);
        let re: u32 = get_be32(o, i + 4);
        let _ = ctx.leaf(
            "tcp.options.sack_le",
            at + i..at + i + 4,
            Value::Unsigned(le as u64),
        );
        let _ = ctx.leaf(
            "tcp.options.sack_re",
            at + i + 4..at + i + 8,
            Value::Unsigned(re as u64),
        );
        shown.push_str(" ");
        text::push_dec(shown, le as u64);
        shown.push_str("-");
        text::push_dec(shown, re as u64);
        i = i + 8;
        n = n - 1;
    }
    (i, None)
}

/// The factor a window scale stands for; shifts beyond 14 count as 14.
pub open spec fn multiplier(shift: u8) -> u64 {
    1u64 << (if shift < 14 {
        shift as u64
    } else {
        14u64
    })
}

/// The body of an option of `kind` and body length `body` at position `i`,
/// row `node` being the option's own. Where reading stopped and the error if
/// the body is cut short.
pub open spec fn option_body(
    o: Seq<u8>,
    i: int,
    at: int,
    kind: u8,
    body: int,
    node: int,
    m: Model,
) -> (Model, int, Option<DissectError>) {
    let left = o.len() - i;
    let p = at + i;
    let field = option_field(kind, body);
    if field == "tcp.options.sack_perm"@ {
        (m.set_text(node, "SACK permitted"@), i, None)
    } else if field == "tcp.options.sack"@ {
        let (m, j, shown, e) = sack_blocks(o, i, body / 8, at, m, "SACK:"@);
        if e is Some {
            (m, j, e)
        } else {
            (m.set_text(node, shown), j, None)
        }
    } else if field == "tcp.options.timestamp"@ {
        if left < 4 {
            (m, i, Some(cut(p, 4, left)))
        } else if left < 8 {
            (m, i + 4, Some(cut(p + 4, 4, left - 4)))
        } else {
            let (v, e) = (be32(o, i), be32(o, i + 4));
            (
                m.leaf(
                    "tcp.options.timestamp.tsval"@,
                    p,
                    p + 4,
                    ValueView::Unsigned(v as u64),
                ).leaf(
                    "tcp.options.timestamp.tsecr"@,
                    p + 4,
                    p + 8,
                    ValueView::Unsigned(e as u64),
                ).set_text(
                    node,
                    "Timestamps: TSval "@ + dec(v as int) + ", TSecr "@ + dec(e as int),
                ),
                i + 8,
                None,
            )
        }
    } else if left < body {
        (m, i, Some(cut(p, body, left)))
    } else if field == "tcp.options.mss"@ {
        let mss = be16(o, i);
        (
            m.leaf("tcp.options.mss_val"@, p, p + 2, ValueView::Unsigned(mss as u64)).set_text(
                node,
                "Maximum segment size: "@ + dec(mss as int) + " bytes"@,
            ),
            i + 2,
            None,
        )
    } else if field == "tcp.options.wscale"@ {
        let shift = o[i];
        let by = multiplier(shift);
        (
            m.leaf(
                "tcp.options.wscale.shift"@,
                p,
                p + 1,
                ValueView::Unsigned(shift as u64),
            ).leaf("tcp.options.wscale.multiplier"@, p, p + 1, ValueView::Unsigned(by)).set_text(
                node,
                "Window scale: "@ + dec(shift as int) + " (multiply by "@ + dec(by as int) + ")"@,
            ),
            i + 1,
            None,
        )
    } else {
        (
            m.leaf("tcp.options.data"@, p, p + body, ValueView::Bytes).set_text(
                node,
                "Option kind "@ + dec(kind as int) + " ("@ + dec(body + 2) + " bytes)"@,
            ),
            i + body,
            None,
        )
    }
}

#[verifier::rlimit(40)]
fn write_body(
    o: &[u8],
    i: usize,
    at: usize,
    kind: u8,
    body: usize,
    node: usize,
    ctx: &mut Ctx,
) -> (r: (usize, Option<DissectError>))
    requires
        i <= o@.len(),
        at + o@.len() <= usize::MAX,
        body <= 253,
        node < old(ctx)@.count(),
    ensures
        (final(ctx)@, r.0 as int, r.1) == option_body(
            o@,
            i as int,
            at as int,
            kind,
            body as int,
            node as int,
            old(ctx)@,
        ),
        i <= r.0 <= o@.len(),
        final(ctx)@.count() >= old(ctx)@.count(),
        final(ctx)@.base == old(ctx)@.base,
{
    let left: usize = o.len() - i;
    let p: usize = at + i;
    let field: &'static str = option_abbrev(kind, body);
    if text::same(field, "tcp.options.sack_perm") {
        ctx.set_text(node, "SACK permitted");
        (i, None)
    } else if text::same(field, "tcp.options.sack") {
        let mut shown: String = text::owned("SACK:");
        let (j, e) = sack(o, i, body / 8, at, ctx, &mut shown);
        if e.is_some() {
            return (j, e);
        }
        ctx.set_text(node, shown.as_str());
        (j, None)
    } else if text::same(field, "tcp.options.timestamp") {
        if left < 4 {
            return (i, Some(DissectError::Truncated { at: p, need: 4, have: left }));
        }
        if left < 8 {
            return (i + 4, Some(DissectError::Truncated { at: p + 4, need: 4, have: left - 4 }));
        }
        let v: u32 = get_be32(o, i);
        let e: u32 = get_be32(o, i + 4);
        let _ = ctx.leaf("tcp.options.timestamp.tsval", p..p + 4, Value::Unsigned(v as u64));
        let _ = ctx.leaf("tcp.options.timestamp.tsecr", p + 4..p + 8, Value::Unsigned(e as u64));
        let mut label: String = text::cat_dec("Timestamps: TSval ", v as u64, ", TSecr ");
        text::push_dec(&mut label, e as u64);
        ctx.set_text(node, label.as_str());
        (i + 8, None)
    } else if left < body {
        (i, Some(DissectError::Truncated { at: p, need: body, have: left }))
    } else if text::same(field, "tcp.options.mss") {
        proof {
            lemma_field_widths(kind, body as int);
        }
        let mss: u16 = get_be16(o, i);
        let _ = ctx.leaf("tcp.options.mss_val", p..p + 2, Value::Unsigned(mss as u64));
        let label: String = text::cat_dec("Maximum segment size: ", mss as u64, " bytes");
        ctx.set_text(node, label.as_str());
        (i + 2, None)
    } else if text::same(field, "tcp.options.wscale") {
        proof {
            lemma_field_widths(kind, body as int);
        }
        let shift: u8 = o[i];
        let by: u64 = 1u64 << (if shift < 14 {
            shift as u64
        } else {
            14u64
        });
        let _ = ctx.leaf("tcp.options.wscale.shift", p..p + 1, Value::Unsigned(shift as u64));
        let _ = ctx.leaf("tcp.options.wscale.multiplier", p..p + 1, Value::Unsigned(by));
        let mut label: String = text::cat_dec("Window scale: ", shift as u64, " (multiply by ");
        text::push_dec(&mut label, by);
        label.push_str(")");
        ctx.set_text(node, label.as_str());
        (i + 1, None)
    } else {
        let _ = ctx.leaf("tcp.options.data", p..p + body, Value::Bytes);
        let mut label: String = text::cat_dec("Option kind ", kind as u64, " (");
        text::push_dec(&mut label, (body + 2) as u64);
        label.push_str(" bytes)");
        ctx.set_text(node, label.as_str());
        (i + body, None)
    }
}

proof fn lemma_field_widths(kind: u8, body: int)
    ensures
        option_field(kind, body) == "tcp.options.mss"@ ==> body == 2,
        option_field(kind, body) == "tcp.options.wscale"@ ==> body == 1,
{
    reveal_strlit("tcp.options.mss");
    reveal_strlit("tcp.options.wscale");
    reveal_strlit("tcp.options.sack_perm");
    reveal_strlit("tcp.options.sack");
    reveal_strlit("tcp.options.timestamp");
    reveal_strlit("tcp.options.unknown");
    assert("tcp.options.mss"@[12] == 'm');
    assert("tcp.options.sack"@[12] == 's');
    assert("tcp.options.sack_perm"@[12] == 's');
    assert("tcp.options.timestamp"@[12] == 't');
    assert("tcp.options.unknown"@[12] == 'u');
    assert("tcp.options.wscale"@[12] == 'w');
}

/// One option at position `i` of the option bytes `o`, whose first byte sits
/// at absolute offset `at`. The frame after it, where reading stopped, and
/// what the option came to.
pub open spec fn option(o: Seq<u8>, i: int, at: int, m: Model) -> (Model, int, Step) {
    let p = at + i;
    let kind = o[i];
    let node = m.count();
    if kind == 0 || kind == 1 {
        (
            m.begin(
                if kind == 0 {
                    "tcp.options.eol"@
                } else {
                    "tcp.options.nop"@
                },
                p,
                p + 1,
            ).leaf("tcp.option_kind"@, p, p + 1, ValueView::Unsigned(kind as u64)).end_at(
                node,
                p + 1,
            ),
            i + 1,
            if kind == 0 {
                Step::Last
            } else {
                Step::Next
            },
        )
    } else if i + 1 >= o.len() {
        (m, i + 1, Step::Failed(cut(p + 1, 1, 0)))
    } else if o[i + 1] < 2 {
        (
            m,
            i + 2,
            Step::Failed(
                DissectError::Invalid { at: (p + 1) as usize, what: "TCP option length (< 2)" },
            ),
        )
    } else {
        let len = o[i + 1];
        let body = len - 2;
        let m = m.begin(option_field(kind, body), p, p).leaf(
            "tcp.option_kind"@,
            p,
            p + 1,
            ValueView::Unsigned(kind as u64),
        ).leaf("tcp.option_len"@, p + 1, p + 2, ValueView::Unsigned(len as u64));
        let (m, j, e) = option_body(o, i + 2, at, kind, body, node, m);
        match e {
            Some(e) => (m, j, Step::Failed(e)),
            None => (m.end_at(node, at + j), j, Step::Next),
        }
    }
}

fn read_option(o: &[u8], i: usize, at: usize, ctx: &mut Ctx) -> (r: (usize, Step))
    requires
        i < o@.len(),
        at + o@.len() <= usize::MAX,
    ensures
        (final(ctx)@, r.0 as int, r.1) == option(o@, i as int, at as int, old(ctx)@),
        i < r.0 <= o@.len(),
        final(ctx)@.count() >= old(ctx)@.count(),
        final(ctx)@.base == old(ctx)@.base,
{
    let p: usize = at + i;
    let kind: u8 = o[i];
    if kind == 0 {
        let n: usize = ctx.begin("tcp.options.eol", p..p + 1);
        let _ = ctx.leaf("tcp.option_kind", p..p + 1, Value::Unsigned(kind as u64));
        ctx.end_at(n, p + 1);
        return (i + 1, Step::Last);
    }
    if kind == 1 {
        let n: usize = ctx.begin("tcp.options.nop", p..p + 1);
        let _ = ctx.leaf("tcp.option_kind", p..p + 1, Value::Unsigned(kind as u64));
        ctx.end_at(n, p + 1);
        return (i + 1, Step::Next);
    }
    if i + 1 >= o.len() {
        return (i + 1, Step::Failed(DissectError::Truncated { at: p + 1, need: 1, have: 0 }));
    }
    let len: u8 = o[i + 1];
    if len < 2 {
        return (
            i + 2,
            Step::Failed(DissectError::Invalid { at: p + 1, what: "TCP option length (< 2)" }),
        );
    }
    let body: usize = len as usize - 2;
    let node: usize = ctx.begin(option_abbrev(kind, body), p..p);
    let _ = ctx.leaf("tcp.option_kind", p..p + 1, Value::Unsigned(kind as u64));
    let _ = ctx.leaf("tcp.option_len", p + 1..p + 2, Value::Unsigned(len as u64));
    let (j, e) = write_body(o, i + 2, at, kind, body, node, ctx);
    match e {
        Some(e) => (j, Step::Failed(e)),
        None => {
            ctx.end_at(node, at + j);
            (j, Step::Next)
        },
    }
}

/// The window scale that the option at position `i` asks for.
pub open spec fn scale_at(o: Seq<u8>, i: int) -> Option<u8> {
    if o[i] == 3 && i + 2 < o.len() && o[i + 1] == 3 {
        Some(o[i + 2])
    } else {
        None
    }
}

/// The options from position `i` on, until the bytes or the list end. An
/// option that cannot be read leaves the rest malformed. Also the window
/// scale asked for last, `scale` if none was.
pub open spec fn options(
    o: Seq<u8>,
    i: int,
    at: int,
    m: Model,
    scale: Option<u8>,
) -> (Model, Option<u8>)
    decreases o.len() - i,
{
    if i < 0 || i >= o.len() {
        (m, scale)
    } else {
        let end = at + o.len();
        let (next, j, step) = option(o, i, at, m);
        let scale = if scale_at(o, i) is Some {
            scale_at(o, i)
        } else {
            scale
        };
        match step {
            Step::Next => if i < j <= o.len() {
                options(o, j, at, next, scale)
            } else {
                (next, scale)
            },
            Step::Last => (
                if j < o.len() {
                    next.leaf("tcp.options.data"@, at + j, end, ValueView::Bytes)
                } else {
                    next
                },
                scale,
            ),
            Step::Failed(e) => (
                next.at_depth(m.trace.depth).leaf_text(
                    "_ws.malformed"@,
                    at + j,
                    end,
                    ValueView::Empty,
                    bad_option(e),
                ),
                scale,
            ),
        }
    }
}

fn read_options(o: &[u8], at: usize, ctx: &mut Ctx) -> (r: Option<u8>)
    requires
        at + o@.len() <= usize::MAX,
    ensures
        (final(ctx)@, r) == options(o@, 0, at as int, old(ctx)@, None),
        final(ctx)@.count() >= old(ctx)@.count(),
        final(ctx)@.base == old(ctx)@.base,
{
    let mut i: usize = 0;
    let mut scale: Option<u8> = None;
    let end: usize = at + o.len();
    while i < o.len()
        invariant
            i <= o@.len(),
            end == at + o@.len(),
            end <= usize::MAX,
            ctx@.count() >= old(ctx)@.count(),
            ctx@.base == old(ctx)@.base,
            options(o@, 0, at as int, old(ctx)@, None) == options(
                o@,
                i as int,
                at as int,
                ctx@,
                scale,
            ),
        decreases o.len() - i,
    {
        let depth: u8 = ctx.depth();
        if o[i] == 3 && o.len() - i > 2 && o[i + 1] == 3 {
            scale = Some(o[i + 2]);
        }
        let (j, step) = read_option(o, i, at, ctx);
        match step {
            Step::Next => {
                i = j;
            },
            Step::Last => {
                // EOL: the rest of the header is padding.
                if j < o.len() {
                    let _ = ctx.leaf("tcp.options.data", at + j..end, Value::Bytes);
                }
                return scale;
            },
            Step::Failed(e) => {
                ctx.restore_depth(depth);
                let _ = ctx.leaf_text(
                    "_ws.malformed",
                    at + j..end,
                    Value::Empty,
                    bad_option_text(e).as_str(),
                );
                return scale;
            },
        }
    }
    scale
}

// ---- conversation ---------------------------------------------------------------

/// The frame's conversation, for a segment that is not quoted in another
/// packet. A SYN without ACK starts a new one.
pub open spec fn flow(m: Model, sport: u16, dport: u16, flags: u16) -> (Model, Option<LookupView>) {
    match m.addrs {
        Some(a) => if m.nesting == 0 {
            let ends = endpoints_of(a, sport, dport);
            let fresh = flags & 0x02 != 0 && flags & 0x10 == 0;
            let (m, look) = m.look_up(ends.0, ends.1, 6, fresh);
            (m.with_stream(Some((look.id, look.direction))), Some(look))
        } else {
            (m, None)
        },
        None => (m, None),
    }
}

/// Sentences for the findings that are not about the sequence.
pub const DUPLICATE_ACK: &'static str = "Duplicate ACK";

pub const ZERO_WINDOW: &'static str = "TCP zero window";

pub const WINDOW_FULL: &'static str = "TCP window full";

pub const KEEP_ALIVE: &'static str = "TCP keep-alive segment";

pub const ACK_LOST: &'static str = "ACKed segment that wasn't captured (common at capture start)";

/// A finding in the Sequence group, on a generated row.
pub open spec fn found(m: Model, abbrev: Seq<char>, severity: Severity, why: Seq<char>) -> Model {
    m.expert(abbrev, 0, 0, severity, Group::Sequence, why)
}

/// The analysis subtree: one field for each finding, and the bytes in flight.
/// An ordinary segment has none.
pub open spec fn analysis(m: Model, f: Findings) -> Model {
    if f == crate::dissect::stream::tcp::no_findings() {
        m
    } else {
        let m = m.begin_text("tcp.analysis"@, 0, 0, "SEQ/ACK analysis"@);
        let m = match f.sequence {
            Some(s) => found(m, s.field(), s.weight(), s.sentence()),
            None => m,
        };
        let m = match f.duplicate_ack {
            Some(d) => found(
                m,
                "tcp.analysis.duplicate_ack"@,
                Severity::Note,
                DUPLICATE_ACK@,
            ).leaf(
                "tcp.analysis.duplicate_ack_num"@,
                0,
                0,
                ValueView::Unsigned(d.number as u64),
            ).leaf("tcp.analysis.duplicate_ack_frame"@, 0, 0, ValueView::Unsigned(d.frame as u64)),
            None => m,
        };
        let m = if f.zero_window {
            found(m, "tcp.analysis.zero_window"@, Severity::Warn, ZERO_WINDOW@)
        } else {
            m
        };
        let m = if f.window_full {
            found(m, "tcp.analysis.window_full"@, Severity::Note, WINDOW_FULL@)
        } else {
            m
        };
        let m = if f.keep_alive {
            found(m, "tcp.analysis.keep_alive"@, Severity::Note, KEEP_ALIVE@)
        } else {
            m
        };
        let m = if f.ack_lost_segment {
            found(m, "tcp.analysis.ack_lost_segment"@, Severity::Warn, ACK_LOST@)
        } else {
            m
        };
        let m = if f.bytes_in_flight > 0 {
            m.leaf(
                "tcp.analysis.bytes_in_flight"@,
                0,
                0,
                ValueView::Unsigned(f.bytes_in_flight as u64),
            )
        } else {
            m
        };
        m.end()
    }
}

fn write_analysis(ctx: &mut Ctx, f: &Findings)
    ensures
        final(ctx)@ == analysis(old(ctx)@, *f),
        final(ctx)@.count() >= old(ctx)@.count(),
        final(ctx)@.base == old(ctx)@.base,
{
    if f.is_empty() && f.bytes_in_flight == 0 {
        return;
    }
    let _ = ctx.begin_text("tcp.analysis", 0..0, "SEQ/ACK analysis");
    if let Some(s) = f.sequence {
        ctx.expert(s.abbrev(), 0..0, s.severity(), Group::Sequence, s.summary());
    }
    if let Some(d) = f.duplicate_ack {
        ctx.expert(
            "tcp.analysis.duplicate_ack",
            0..0,
            Severity::Note,
            Group::Sequence,
            DUPLICATE_ACK,
        );
        let _ = ctx.leaf(
            "tcp.analysis.duplicate_ack_num",
            0..0,
            Value::Unsigned(d.number as u64),
        );
        let _ = ctx.leaf(
            "tcp.analysis.duplicate_ack_frame",
            0..0,
            Value::Unsigned(d.frame as u64),
        );
    }
    if f.zero_window {
        ctx.expert(
            "tcp.analysis.zero_window",
            0..0,
            Severity::Warn,
            Group::Sequence,
            ZERO_WINDOW,
        );
    }
    if f.window_full {
        ctx.expert(
            "tcp.analysis.window_full",
            0..0,
            Severity::Note,
            Group::Sequence,
            WINDOW_FULL,
        );
    }
    if f.keep_alive {
        ctx.expert(
            "tcp.analysis.keep_alive",
            0..0,
            Severity::Note,
            Group::Sequence,
            KEEP_ALIVE,
        );
    }
    if f.ack_lost_segment {
        ctx.expert(
            "tcp.analysis.ack_lost_segment",
            0..0,
            Severity::Warn,
            Group::Sequence,
            ACK_LOST,
        );
    }
    if f.bytes_in_flight > 0 {
        let _ = ctx.leaf(
            "tcp.analysis.bytes_in_flight",
            0..0,
            Value::Unsigned(f.bytes_in_flight as u64),
        );
    }
    ctx.end();
}

// ---- payload --------------------------------------------------------------------

/// The dissector for a payload that continues nothing: by what it looks like,
/// else by port.
pub open spec fn next_by_payload(payload: Seq<u8>, sport: u16, dport: u16) -> Proto {
    if super::tls::resembles_tls(payload) {
        Proto::Tls
    } else if super::http::resembles_http(payload) {
        Proto::Http
    } else if sport == 443 || dport == 443 || sport == 8443 || dport == 8443 {
        Proto::Tls
    } else if sport == 80 || dport == 80 || sport == 8080 || dport == 8080 {
        Proto::Http
    } else {
        Proto::Data
    }
}

fn payload_next(payload: &[u8], sport: u16, dport: u16) -> (r: Proto)
    ensures
        r == next_by_payload(payload@, sport, dport),
{
    if super::tls::looks_like_tls(payload) {
        Proto::Tls
    } else if super::http::looks_like_http(payload) {
        Proto::Http
    } else if sport == 443 || dport == 443 || sport == 8443 || dport == 8443 {
        Proto::Tls
    } else if sport == 80 || dport == 80 || sport == 8080 || dport == 8080 {
        Proto::Http
    } else {
        Proto::Data
    }
}

/// A segment that does not simply continue its direction: what is held for
/// it cannot be continued either.
pub open spec fn disturbed(f: Findings) -> bool {
    f.sequence is Some || f.keep_alive
}

/// Close the TCP layer, whose row is `tcp`, and hand the payload on. Bytes
/// held for the direction go in front of it, in a data source of their own,
/// to the dissector that asked for them.
pub open spec fn hand_on(
    m: Model,
    tcp: int,
    head: int,
    payload: Seq<u8>,
    sport: u16,
    dport: u16,
    look: Option<LookupView>,
    f: Findings,
    reset: bool,
) -> Model {
    let a = m.base;
    let end = a + head + payload.len();
    let next = next_by_payload(payload, sport, dport);
    let here = Origin { proto: next, first_frame: m.frame_number, frames: 1 };
    match look {
        None => {
            let m = m.end_at(tcp, a + head);
            if payload.len() > 0 {
                m.call_next(next, head)
            } else {
                m
            }
        },
        Some(look) => if disturbed(f) || reset {
            let m = m.drop_held().with_origin(None).end_at(tcp, a + head);
            if payload.len() > 0 {
                m.call_next(next, head)
            } else {
                m
            }
        } else if payload.len() == 0 {
            m.end_at(tcp, a + head)
        } else {
            let prefix = prefix_for(m.state.desegment, look.id, look.direction, payload, m.ts);
            let m = m.take_held(look.id, look.direction);
            match prefix {
                PrefixView::Nothing => m.with_origin(Some(here)).end_at(tcp, a + head).call_next(
                    next,
                    head,
                ),
                PrefixView::Combined { bytes, origin } => {
                    let m = m.with_origin(Some(origin)).leaf(
                        "tcp.payload"@,
                        a + head,
                        end,
                        ValueView::Bytes,
                    ).end_at(tcp, end);
                    m.add_source(bytes).call_next_in_source(origin.proto, m.next_source())
                },
            }
        },
    }
}

fn pass_on(
    ctx: &mut Ctx,
    tcp: usize,
    head: usize,
    payload: &[u8],
    sport: u16,
    dport: u16,
    look: Option<Lookup>,
    f: &Findings,
    reset: bool,
)
    requires
        tcp < old(ctx)@.count(),
        old(ctx)@.base + head + payload@.len() <= usize::MAX,
    ensures
        final(ctx)@ == hand_on(
            old(ctx)@,
            tcp as int,
            head as int,
            payload@,
            sport,
            dport,
            match look {
                Some(l) => Some(l@),
                None => None,
            },
            *f,
            reset,
        ),
{
    let a: usize = ctx.base();
    let frame: u32 = ctx.frame_number();
    let end: usize = a + head + payload.len();
    match look {
        None => {
            ctx.end_at(tcp, a + head);
            if payload.len() > 0 {
                ctx.call_next(payload_next(payload, sport, dport), head);
            }
        },
        Some(look) => {
            if f.sequence.is_some() || f.keep_alive || reset {
                ctx.drop_held();
                ctx.set_origin(None);
                ctx.end_at(tcp, a + head);
                if payload.len() > 0 {
                    ctx.call_next(payload_next(payload, sport, dport), head);
                }
            } else if payload.len() == 0 {
                ctx.end_at(tcp, a + head);
            } else {
                match ctx.take_held(look.id, look.direction, payload) {
                    Prefix::Nothing => {
                        let next: Proto = payload_next(payload, sport, dport);
                        ctx.set_origin(Some(Origin { proto: next, first_frame: frame, frames: 1 }));
                        ctx.end_at(tcp, a + head);
                        ctx.call_next(next, head);
                    },
                    Prefix::Combined { bytes, origin } => {
                        ctx.set_origin(Some(origin));
                        let _ = ctx.leaf("tcp.payload", a + head..end, Value::Bytes);
                        ctx.end_at(tcp, end);
                        let id: u8 = ctx.add_source(bytes);
                        ctx.call_next_in_source(origin.proto, id);
                    },
                }
            }
        },
    }
}

// ---- the layer ------------------------------------------------------------------

/// The Info column of a segment.
pub open spec fn info_text(d: Seq<u8>, flags: u16, payload: int) -> Seq<char> {
    dec(be16(d, 0) as int) + " → "@ + dec(be16(d, 2) as int) + " ["@ + flags_shown(flags)
        + "] Seq="@ + dec(be32(d, 4) as int) + " Ack="@ + dec(be32(d, 8) as int) + " Win="@ + dec(
        be16(d, 14) as int,
    ) + " Len="@ + dec(payload)
}

/// The segment as the analyser sees it.
pub open spec fn segment_of(d: Seq<u8>, m: Model, payload: int, scale: Option<u8>) -> Segment {
    let flags = be16(d, 12) & 0x0fff;
    Segment {
        frame: m.frame_number,
        ts: m.ts,
        seq: be32(d, 4),
        ack: be32(d, 8),
        payload_len: payload as u32,
        window: be16(d, 14) as u32,
        syn: flags & 0x02 != 0,
        fin: flags & 0x01 != 0,
        rst: flags & 0x04 != 0,
        ack_flag: flags & 0x10 != 0,
        window_scale: if flags & 0x02 != 0 {
            scale
        } else {
            None
        },
    }
}

/// The fields of the fixed header.
pub open spec fn header_fields(
    d: Seq<u8>,
    m: Model,
    payload: int,
    stream: Option<u32>,
    status: u64,
) -> Model {
    let a = m.base;
    let flags = be16(d, 12) & 0x0fff;
    let hdr_len = (be16(d, 12) >> 12) * 4;
    let m = m.set_protocol("tcp"@).set_info(info_text(d, flags, payload)).begin(
        "tcp"@,
        a,
        a,
    ).leaf("tcp.srcport"@, a, a + 2, ValueView::Unsigned(be16(d, 0) as u64)).leaf(
        "tcp.dstport"@,
        a + 2,
        a + 4,
        ValueView::Unsigned(be16(d, 2) as u64),
    );
    let m = match stream {
        Some(id) => m.leaf("tcp.stream"@, 0, 0, ValueView::Unsigned(id as u64)),
        None => m,
    };
    let m = m.leaf("tcp.len"@, 0, 0, ValueView::Unsigned(payload as u64)).leaf(
        "tcp.seq"@,
        a + 4,
        a + 8,
        ValueView::Unsigned(be32(d, 4) as u64),
    ).leaf("tcp.ack"@, a + 8, a + 12, ValueView::Unsigned(be32(d, 8) as u64)).leaf(
        "tcp.hdr_len"@,
        a + 12,
        a + 13,
        ValueView::Unsigned(hdr_len as u64),
    ).begin_value_text(
        "tcp.flags"@,
        a + 12,
        a + 14,
        ValueView::Unsigned(flags as u64),
        "Flags: 0x"@ + hex_pad(flags as int, 3) + " ("@ + flags_shown(flags) + ")"@,
    );
    let m = flag_fields(m, flags, a + 12, a + 14, 0).end().leaf(
        "tcp.window_size_value"@,
        a + 14,
        a + 16,
        ValueView::Unsigned(be16(d, 14) as u64),
    ).leaf("tcp.checksum"@, a + 16, a + 18, ValueView::Unsigned(be16(d, 16) as u64));
    checked(m, "tcp.checksum.status"@, a + 16, a + 18, status).leaf(
        "tcp.urgent_pointer"@,
        a + 18,
        a + 20,
        ValueView::Unsigned(be16(d, 18) as u64),
    )
}

fn write_header(
    data: &[u8],
    ctx: &mut Ctx,
    payload: usize,
    stream: Option<u32>,
    status: u64,
) -> (tcp: usize)
    requires
        data@.len() >= 20,
        addressable(data@, old(ctx)@),
    ensures
        final(ctx)@ == header_fields(data@, old(ctx)@, payload as int, stream, status),
        tcp == old(ctx)@.set_protocol("tcp"@).set_info(
            info_text(data@, be16(data@, 12) & 0x0fff, payload as int),
        ).count(),
        tcp < final(ctx)@.count(),
        final(ctx)@.base == old(ctx)@.base,
{
    let a: usize = ctx.base();
    let sport: u16 = get_be16(data, 0);
    let dport: u16 = get_be16(data, 2);
    let seq: u32 = get_be32(data, 4);
    let ack: u32 = get_be32(data, 8);
    let off_flags: u16 = get_be16(data, 12);
    let window: u16 = get_be16(data, 14);
    let flags: u16 = off_flags & 0x0fff;
    let top: u16 = off_flags >> 12;
    assert(top <= 15) by (bit_vector)
        requires
            top == off_flags >> 12u16,
    ;
    let names: NameList = flag_list(flags);
    let set: &str = names.as_str();
    ctx.set_protocol("tcp");
    let mut info: String = text::dec_text(sport as u64);
    info.push_str(" → ");
    text::push_dec(&mut info, dport as u64);
    info.push_str(" [");
    info.push_str(set);
    info.push_str("] Seq=");
    text::push_dec(&mut info, seq as u64);
    info.push_str(" Ack=");
    text::push_dec(&mut info, ack as u64);
    info.push_str(" Win=");
    text::push_dec(&mut info, window as u64);
    info.push_str(" Len=");
    text::push_dec(&mut info, payload as u64);
    ctx.set_info(info);
    let tcp: usize = ctx.begin("tcp", a..a);
    let _ = ctx.leaf("tcp.srcport", a..a + 2, Value::Unsigned(sport as u64));
    let _ = ctx.leaf("tcp.dstport", a + 2..a + 4, Value::Unsigned(dport as u64));
    if let Some(id) = stream {
        let _ = ctx.leaf("tcp.stream", 0..0, Value::Unsigned(id as u64));
    }
    let _ = ctx.leaf("tcp.len", 0..0, Value::Unsigned(payload as u64));
    let _ = ctx.leaf("tcp.seq", a + 4..a + 8, Value::Unsigned(seq as u64));
    let _ = ctx.leaf("tcp.ack", a + 8..a + 12, Value::Unsigned(ack as u64));
    let _ = ctx.leaf("tcp.hdr_len", a + 12..a + 13, Value::Unsigned((top * 4) as u64));
    let mut label: String = text::owned("Flags: 0x");
    text::push_hex(&mut label, flags as u64, 3);
    label.push_str(" (");
    label.push_str(set);
    label.push_str(")");
    let _ = ctx.begin_value_text(
        "tcp.flags",
        a + 12..a + 14,
        Value::Unsigned(flags as u64),
        label.as_str(),
    );
    write_flags(ctx, flags, a + 12, a + 14);
    ctx.end();
    let _ = ctx.leaf("tcp.window_size_value", a + 14..a + 16, Value::Unsigned(window as u64));
    let _ = ctx.leaf(
        "tcp.checksum",
        a + 16..a + 18,
        Value::Unsigned(get_be16(data, 16) as u64),
    );
    report_checksum(ctx, "tcp.checksum.status", a + 16, a + 18, status);
    let _ = ctx.leaf(
        "tcp.urgent_pointer",
        a + 18..a + 20,
        Value::Unsigned(get_be16(data, 18) as u64),
    );
    tcp
}

/// The checksum status of a segment.
pub open spec fn status_of(d: Seq<u8>, m: Model) -> u64 {
    if m.options.validate_transport_checksums {
        verdict(segment_checksum(m, 6, d))
    } else {
        CK_UNVERIFIED
    }
}

/// The TCP layer.
pub open spec fn layer(d: Seq<u8>, m: Model) -> Outcome {
    let a = m.base;
    let n = d.len() as int;
    if n < 20 {
        (m, Some(shortfall(a, n, HEADER@)))
    } else {
        let head = (be16(d, 12) >> 12) * 4;
        let flags = be16(d, 12) & 0x0fff;
        let (sport, dport) = (be16(d, 0), be16(d, 2));
        if head < 20 {
            (
                m,
                Some(
                    DissectError::Invalid {
                        at: (a + 12) as usize,
                        what: "TCP header length (data offset < 5)",
                    },
                ),
            )
        } else {
            let payload = if head < n {
                n - head
            } else {
                0
            };
            let status = status_of(d, m);
            let (m, look) = flow(m, sport, dport, flags);
            let stream = match look {
                Some(l) => Some(l.id),
                None => None,
            };
            let tcp = m.set_protocol("tcp"@).set_info(info_text(d, flags, payload)).count();
            let m = header_fields(d, m, payload, stream, status);
            if head > n {
                (m, Some(cut(a + 20, head - 20, n - 20)))
            } else {
                let (m, scale) = if head > 20 {
                    let m = m.begin_text(
                        "tcp.options"@,
                        a + 20,
                        a + head,
                        "Options: ("@ + dec(head - 20) + " bytes)"@,
                    );
                    let (m, scale) = options(d.subrange(20, head), 0, a + 20, m, None);
                    (m.end(), scale)
                } else {
                    (m, None)
                };
                let (m, f) = match look {
                    Some(l) => m.analyse(l.key, l.direction, segment_of(d, m, payload, scale)),
                    None => (m, crate::dissect::stream::tcp::no_findings()),
                };
                let m = analysis(m, f);
                (
                    hand_on(
                        m,
                        tcp,
                        head as int,
                        d.subrange(head as int, n),
                        sport,
                        dport,
                        look,
                        f,
                        flags & 0x04 != 0,
                    ),
                    None,
                )
            }
        }
    }
}

#[verifier::rlimit(40)]
pub fn dissect(data: &[u8], ctx: &mut Ctx) -> (r: Result<(), DissectError>)
    requires
        addressable(data@, old(ctx)@),
    ensures
        (final(ctx)@, error_of(r)) == layer(data@, old(ctx)@),
{
    let a: usize = ctx.base();
    let n: usize = data.len();
    if n < 20 {
        return Err(first_short(a, n, &HEADER));
    }
    let sport: u16 = get_be16(data, 0);
    let dport: u16 = get_be16(data, 2);
    let off_flags: u16 = get_be16(data, 12);
    let flags: u16 = off_flags & 0x0fff;
    let top: u16 = off_flags >> 12;
    assert(top <= 15) by (bit_vector)
        requires
            top == off_flags >> 12u16,
    ;
    let head: usize = top as usize * 4;
    if head < 20 {
        return Err(
            DissectError::Invalid { at: a + 12, what: "TCP header length (data offset < 5)" },
        );
    }
    let payload: usize = if head < n {
        n - head
    } else {
        0
    };
    let status: u64 = if ctx.options().validate_transport_checksums {
        judge(transport_checksum(ctx, 6, data))
    } else {
        CK_UNVERIFIED
    };
    let mut look: Option<Lookup> = None;
    let mut stream: Option<u32> = None;
    if let Some(addrs) = ctx.net_addrs() {
        if ctx.nesting() == 0 {
            let ends = endpoints(addrs, sport, dport);
            let fresh: bool = flags & 0x02 != 0 && flags & 0x10 == 0;
            let l: Lookup = ctx.look_up(ends.0, ends.1, 6, fresh);
            ctx.set_stream(Some((l.id, l.direction)));
            stream = Some(l.id);
            look = Some(l);
        }
    }
    let tcp: usize = write_header(data, ctx, payload, stream, status);
    if head > n {
        return Err(DissectError::Truncated { at: a + 20, need: head - 20, have: n - 20 });
    }
    let mut scale: Option<u8> = None;
    if head > 20 {
        let label: String = text::cat_dec("Options: (", (head - 20) as u64, " bytes)");
        let _ = ctx.begin_text("tcp.options", a + 20..a + head, label.as_str());
        scale = read_options(bytes::part(data, 20, head), a + 20, ctx);
        ctx.end();
    }
    let mut f: Findings = Findings::default();
    if let Some(l) = look {
        #[verifier::truncate]
        let payload_len: u32 = payload as u32;
        let seg = Segment {
            frame: ctx.frame_number(),
            ts: ctx.ts(),
            seq: get_be32(data, 4),
            ack: get_be32(data, 8),
            payload_len,
            window: get_be16(data, 14) as u32,
            syn: flags & 0x02 != 0,
            fin: flags & 0x01 != 0,
            rst: flags & 0x04 != 0,
            ack_flag: flags & 0x10 != 0,
            window_scale: if flags & 0x02 != 0 {
                scale
            } else {
                None
            },
        };
        f = ctx.analyse(&l, &seg);
    }
    write_analysis(ctx, &f);
    // The payload is the next layer, not a child of the TCP header.
    pass_on(
        ctx,
        tcp,
        head,
        bytes::part(data, head, n),
        sport,
        dport,
        look,
        &f,
        flags & 0x04 != 0,
    );
    Ok(())
}

} // verus!

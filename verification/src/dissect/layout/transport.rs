//! The fields of TCP.

use vstd::prelude::*;

use super::{byte_at, four, nothing_written, over, two, writing, written, Field};
use crate::bytes::{be16, be32};
use crate::dissect::ctx::{Model, Proto};
use crate::dissect::cursor::SourceId;
use crate::dissect::node::ValueView;
use crate::dissect::proto::tcp::{
    flag_fields, header_fields, next_by_payload, option, sack_blocks, scale_at, segment_of,
    FLAG_NAMES,
};

verus! {

/// The flag worth `unit` in the fourteenth byte and the half byte before it.
pub open spec fn flag(d: Seq<u8>, unit: u64) -> bool {
    two(d, 12) / unit % 2 == 1
}

/// The fields of the flags from row `i` of their table on.
spec fn flag_list(flags: u16, source: SourceId, start: int, end: int, i: int) -> Seq<Field> {
    Seq::new(
        (10 - i) as nat,
        |k: int|
            Field {
                abbrev: FLAG_NAMES@[i + k].1@,
                source,
                start,
                end,
                value: ValueView::Bool(flags & FLAG_NAMES@[i + k].0 != 0),
            },
    )
}

proof fn flags_written(m: Model, flags: u16, start: int, end: int, i: int, n: int)
    requires
        0 <= i <= 10,
        0 <= n <= m.count(),
    ensures
        ({
            let after = flag_fields(m, flags, start, end, i);
            &&& after == (Model { trace: after.trace, ..m })
            &&& after.count() == m.count() + 10 - i
            &&& written(after, n) == written(m, n) + flag_list(flags, m.source, start, end, i)
        }),
    decreases 10 - i,
{
    broadcast use writing;

    let list = flag_list(flags, m.source, start, end, i);
    if i < 10 {
        let next = m.leaf(
            FLAG_NAMES@[i].1@,
            start,
            end,
            ValueView::Bool(flags & FLAG_NAMES@[i].0 != 0),
        );
        flags_written(next, flags, start, end, i + 1, n);
        assert(flag_fields(m, flags, start, end, i) == flag_fields(next, flags, start, end, i + 1));
        assert(written(flag_fields(m, flags, start, end, i), n) =~= written(m, n) + list);
    } else {
        assert(written(m, n) =~= written(m, n) + list);
    }
}

/// A TCP header is shown field by field, each over its own bytes: ports,
/// sequence and acknowledgement number, the length of the header in units of
/// four bytes, twelve bits of flags, window, checksum and urgent pointer.
#[verifier::rlimit(80)]
pub proof fn tcp_shows_its_header(
    d: Seq<u8>,
    m: Model,
    payload: int,
    stream: Option<u32>,
    status: u64,
)
    requires
        d.len() >= 20,
        0 <= payload <= u64::MAX,
    ensures
        ({
            let after = header_fields(d, m, payload, stream, status);
            let s = written(after, m.count());
            let k: int = if stream is Some {
                4
            } else {
                3
            };
            &&& s[0] == over(m, "tcp"@, 0, 0, ValueView::Empty)
            &&& s[1] == over(m, "tcp.srcport"@, 0, 2, ValueView::Unsigned(two(d, 0)))
            &&& s[2] == over(m, "tcp.dstport"@, 2, 4, ValueView::Unsigned(two(d, 2)))
            &&& stream matches Some(id) ==> s[3] == (Field {
                abbrev: "tcp.stream"@,
                source: m.source,
                start: 0,
                end: 0,
                value: ValueView::Unsigned(id as u64),
            })
            &&& s[k] == (Field {
                abbrev: "tcp.len"@,
                source: m.source,
                start: 0,
                end: 0,
                value: ValueView::Unsigned(payload as u64),
            })
            &&& s[k + 1] == over(m, "tcp.seq"@, 4, 8, ValueView::Unsigned(four(d, 4)))
            &&& s[k + 2] == over(m, "tcp.ack"@, 8, 12, ValueView::Unsigned(four(d, 8)))
            &&& s[k + 3] == over(
                m,
                "tcp.hdr_len"@,
                12,
                13,
                ValueView::Unsigned((d[12] / 16 * 4) as u64),
            )
            &&& s[k + 4] == over(
                m,
                "tcp.flags"@,
                12,
                14,
                ValueView::Unsigned(two(d, 12) % 0x1000),
            )
            &&& s[k + 5] == over(m, "tcp.flags.res"@, 12, 14, ValueView::Bool(flag(d, 0x800)))
            &&& s[k + 6] == over(m, "tcp.flags.ae"@, 12, 14, ValueView::Bool(flag(d, 0x100)))
            &&& s[k + 7] == over(m, "tcp.flags.cwr"@, 12, 14, ValueView::Bool(flag(d, 0x80)))
            &&& s[k + 8] == over(m, "tcp.flags.ece"@, 12, 14, ValueView::Bool(flag(d, 0x40)))
            &&& s[k + 9] == over(m, "tcp.flags.urg"@, 12, 14, ValueView::Bool(flag(d, 0x20)))
            &&& s[k + 10] == over(m, "tcp.flags.ack"@, 12, 14, ValueView::Bool(flag(d, 0x10)))
            &&& s[k + 11] == over(m, "tcp.flags.push"@, 12, 14, ValueView::Bool(flag(d, 0x8)))
            &&& s[k + 12] == over(m, "tcp.flags.reset"@, 12, 14, ValueView::Bool(flag(d, 0x4)))
            &&& s[k + 13] == over(m, "tcp.flags.syn"@, 12, 14, ValueView::Bool(flag(d, 0x2)))
            &&& s[k + 14] == over(m, "tcp.flags.fin"@, 12, 14, ValueView::Bool(flag(d, 0x1)))
            &&& s[k + 15] == over(
                m,
                "tcp.window_size_value"@,
                14,
                16,
                ValueView::Unsigned(two(d, 14)),
            )
            &&& s[k + 16] == over(m, "tcp.checksum"@, 16, 18, ValueView::Unsigned(two(d, 16)))
            &&& s[k + 17] == over(
                m,
                "tcp.checksum.status"@,
                16,
                18,
                ValueView::Unsigned(status),
            )
            &&& s[s.len() - 1] == over(
                m,
                "tcp.urgent_pointer"@,
                18,
                20,
                ValueView::Unsigned(two(d, 18)),
            )
        }),
{
    broadcast use writing;

    nothing_written(m);
    let raw = be16(d, 12);
    let flags = raw & 0x0fff;
    assert(raw & 0x0fff == raw % 0x1000 && raw >> 12 == raw / 0x1000) by (bit_vector);
    assert(((raw & 0x0fff) & 0x800 != 0) == (raw / 0x800 % 2 == 1) && ((raw & 0x0fff) & 0x100 != 0)
        == (raw / 0x100 % 2 == 1) && ((raw & 0x0fff) & 0x80 != 0) == (raw / 0x80 % 2 == 1) && ((raw
        & 0x0fff) & 0x40 != 0) == (raw / 0x40 % 2 == 1) && ((raw & 0x0fff) & 0x20 != 0) == (raw
        / 0x20 % 2 == 1) && ((raw & 0x0fff) & 0x10 != 0) == (raw / 0x10 % 2 == 1) && ((raw & 0x0fff)
        & 0x8 != 0) == (raw / 0x8 % 2 == 1) && ((raw & 0x0fff) & 0x4 != 0) == (raw / 0x4 % 2 == 1)
        && ((raw & 0x0fff) & 0x2 != 0) == (raw / 0x2 % 2 == 1) && ((raw & 0x0fff) & 0x1 != 0)
        == (raw % 2 == 1)) by (bit_vector);
    assert(two(d, 12) == raw);
    assert(raw / 0x1000 == d[12] / 16);
    let a = m.base;
    assert forall|x: Model| m.count() <= x.count() implies ({
        let y = #[trigger] flag_fields(x, flags, a + 12, a + 14, 0);
        &&& y == (Model { trace: y.trace, ..x })
        &&& y.count() == x.count() + 10
        &&& written(y, m.count()) == written(x, m.count()) + flag_list(
            flags,
            x.source,
            a + 12,
            a + 14,
            0,
        )
    }) by {
        flags_written(x, flags, a + 12, a + 14, 0, m.count());
    }
    let after = header_fields(d, m, payload, stream, status);
    assert(written(after, m.count()).len() == after.count() - m.count());
}

// ---- options --------------------------------------------------------------------

/// A field over bytes `i..j` of the options, which stand at `at`.
pub open spec fn within_options(
    m: Model,
    at: int,
    name: Seq<char>,
    i: int,
    j: int,
    value: ValueView,
) -> Field {
    Field { abbrev: name, source: m.source, start: at + i, end: at + j, value }
}

/// An option of `w` bytes at `i` shows its kind and its length, under the name
/// `name`.
pub open spec fn option_shown(
    o: Seq<u8>,
    i: int,
    at: int,
    m: Model,
    name: Seq<char>,
    w: int,
) -> bool {
    let (after, j, step) = option(o, i, at, m);
    let s = written(after, m.count());
    &&& step is Next
    &&& j == i + w
    &&& s.len() >= 3
    &&& s[0] == within_options(m, at, name, i, i + w, ValueView::Empty)
    &&& s[1] == within_options(m, at, "tcp.option_kind"@, i, i + 1, byte_at(o, i))
    &&& s[2] == within_options(m, at, "tcp.option_len"@, i + 1, i + 2, byte_at(o, i + 1))
}

/// The options of one byte: the end of the list, and a byte that does nothing.
pub proof fn one_byte_options_are_shown(o: Seq<u8>, i: int, at: int, m: Model)
    requires
        0 <= i < o.len(),
        o[i] <= 1,
    ensures
        ({
            let (after, j, step) = option(o, i, at, m);
            &&& j == i + 1
            &&& o[i] == 0 <==> step is Last
            &&& o[i] == 1 <==> step is Next
            &&& written(after, m.count()) == seq![
                within_options(
                    m,
                    at,
                    if o[i] == 0 {
                        "tcp.options.eol"@
                    } else {
                        "tcp.options.nop"@
                    },
                    i,
                    i + 1,
                    ValueView::Empty,
                ),
                within_options(m, at, "tcp.option_kind"@, i, i + 1, byte_at(o, i)),
            ]
        }),
{
    broadcast use writing;

    nothing_written(m);
    let after = option(o, i, at, m).0;
    assert(written(after, m.count()) =~= seq![
        within_options(
            m,
            at,
            if o[i] == 0 {
                "tcp.options.eol"@
            } else {
                "tcp.options.nop"@
            },
            i,
            i + 1,
            ValueView::Empty,
        ),
        within_options(m, at, "tcp.option_kind"@, i, i + 1, byte_at(o, i)),
    ]);
}

proof fn option_names()
    ensures
        "tcp.options.mss"@.len() == 15,
        "tcp.options.wscale"@.len() == 18,
        "tcp.options.sack_perm"@.len() == 21 && "tcp.options.sack_perm"@[12] == 's',
        "tcp.options.sack"@.len() == 16,
        "tcp.options.timestamp"@.len() == 21 && "tcp.options.timestamp"@[12] == 't',
        "tcp.options.unknown"@.len() == 19,
{
    reveal_strlit("tcp.options.mss");
    reveal_strlit("tcp.options.wscale");
    reveal_strlit("tcp.options.sack_perm");
    reveal_strlit("tcp.options.sack");
    reveal_strlit("tcp.options.timestamp");
    reveal_strlit("tcp.options.unknown");
}

/// The options of a handshake: the largest segment, the shift of the window
/// and leave for selective acknowledgements.
pub proof fn handshake_options_are_shown(o: Seq<u8>, i: int, at: int, m: Model)
    requires
        0 <= i,
        i + 2 <= o.len(),
        i + o[i + 1] <= o.len(),
    ensures
        ({
            let s = written(option(o, i, at, m).0, m.count());
            &&& o[i] == 2 && o[i + 1] == 4 ==> {
                &&& option_shown(o, i, at, m, "tcp.options.mss"@, 4)
                &&& s.len() == 4
                &&& s[3] == within_options(
                    m,
                    at,
                    "tcp.options.mss_val"@,
                    i + 2,
                    i + 4,
                    ValueView::Unsigned(two(o, i + 2)),
                )
            }
            &&& o[i] == 3 && o[i + 1] == 3 ==> {
                &&& option_shown(o, i, at, m, "tcp.options.wscale"@, 3)
                &&& scale_at(o, i) == Some(o[i + 2])
                &&& s.len() == 5
                &&& s[3] == within_options(
                    m,
                    at,
                    "tcp.options.wscale.shift"@,
                    i + 2,
                    i + 3,
                    byte_at(o, i + 2),
                )
                &&& s[4].abbrev == "tcp.options.wscale.multiplier"@
            }
            &&& o[i] == 4 && o[i + 1] == 2 ==> {
                &&& option_shown(o, i, at, m, "tcp.options.sack_perm"@, 2)
                &&& s.len() == 3
            }
        }),
{
    broadcast use writing;

    option_names();
    nothing_written(m);
    let after = option(o, i, at, m).0;
    if (o[i] == 2 && o[i + 1] == 4) || (o[i] == 3 && o[i + 1] == 3) || (o[i] == 4 && o[i + 1]
        == 2) {
        assert(written(after, m.count()).len() == after.count() - m.count());
    }
}

/// Timestamps show the sender's clock before the one that is echoed.
pub proof fn timestamps_are_shown(o: Seq<u8>, i: int, at: int, m: Model)
    requires
        0 <= i,
        i + 10 <= o.len(),
        o[i] == 8,
        o[i + 1] == 10,
    ensures
        option_shown(o, i, at, m, "tcp.options.timestamp"@, 10),
        ({
            let s = written(option(o, i, at, m).0, m.count());
            &&& s.len() == 5
            &&& s[3] == within_options(
                m,
                at,
                "tcp.options.timestamp.tsval"@,
                i + 2,
                i + 6,
                ValueView::Unsigned(four(o, i + 2)),
            )
            &&& s[4] == within_options(
                m,
                at,
                "tcp.options.timestamp.tsecr"@,
                i + 6,
                i + 10,
                ValueView::Unsigned(four(o, i + 6)),
            )
        }),
{
    broadcast use writing;

    option_names();
    nothing_written(m);
    let after = option(o, i, at, m).0;
    assert(written(after, m.count()).len() == after.count() - m.count());
}

/// The edges of `k` blocks at `i`, the left one of each before the right.
pub open spec fn edges(o: Seq<u8>, i: int, k: int, at: int, m: Model) -> Seq<Field> {
    Seq::new(
        (2 * k) as nat,
        |j: int|
            within_options(
                m,
                at,
                if j % 2 == 0 {
                    "tcp.options.sack_le"@
                } else {
                    "tcp.options.sack_re"@
                },
                i + 4 * j,
                i + 4 * j + 4,
                ValueView::Unsigned(four(o, i + 4 * j)),
            ),
    )
}

proof fn blocks_written(
    o: Seq<u8>,
    i: int,
    k: int,
    at: int,
    m: Model,
    shown: Seq<char>,
    n: int,
)
    requires
        0 <= i,
        0 <= k,
        i + 8 * k <= o.len(),
        0 <= n <= m.count(),
    ensures
        ({
            let (after, j, text, e) = sack_blocks(o, i, k, at, m, shown);
            &&& e is None
            &&& j == i + 8 * k
            &&& after == (Model { trace: after.trace, ..m })
            &&& after.count() == m.count() + 2 * k
            &&& written(after, n) == written(m, n) + edges(o, i, k, at, m)
        }),
    decreases k,
{
    broadcast use writing;

    let list = edges(o, i, k, at, m);
    if k > 0 {
        let (le, re) = (be32(o, i), be32(o, i + 4));
        let next = m.leaf(
            "tcp.options.sack_le"@,
            at + i,
            at + i + 4,
            ValueView::Unsigned(le as u64),
        ).leaf("tcp.options.sack_re"@, at + i + 4, at + i + 8, ValueView::Unsigned(re as u64));
        let more = shown + " "@ + crate::text::dec(le as int) + "-"@ + crate::text::dec(re as int);
        blocks_written(o, i + 8, k - 1, at, next, more, n);
        let after = sack_blocks(o, i, k, at, m, shown).0;
        assert(after == sack_blocks(o, i + 8, k - 1, at, next, more).0);
        let rest = edges(o, i + 8, k - 1, at, next);
        assert forall|j: int| 0 <= j < rest.len() implies rest[j] == #[trigger] list[j + 2] by {
            assert((j + 2) % 2 == j % 2);
            assert(i + 8 + 4 * j == i + 4 * (j + 2));
        }
        assert(written(after, n) =~= written(m, n) + list);
    } else {
        assert(written(m, n) =~= written(m, n) + list);
    }
}

/// A selective acknowledgement shows the blocks that arrived, the left edge of
/// each before its right edge.
pub proof fn selective_acknowledgements_are_shown(o: Seq<u8>, i: int, at: int, m: Model, k: int)
    requires
        0 <= i,
        0 < k,
        o[i] == 5,
        i + 2 + 8 * k <= o.len(),
        o[i + 1] == 2 + 8 * k,
    ensures
        option_shown(o, i, at, m, "tcp.options.sack"@, 2 + 8 * k),
        written(option(o, i, at, m).0, m.count()).skip(3) == edges(o, i + 2, k, at, m),
{
    broadcast use writing;

    option_names();
    nothing_written(m);
    let p = at + i;
    let n = m.count();
    let open = m.begin("tcp.options.sack"@, p, p).leaf(
        "tcp.option_kind"@,
        p,
        p + 1,
        ValueView::Unsigned(5),
    ).leaf("tcp.option_len"@, p + 1, p + 2, ValueView::Unsigned(o[i + 1] as u64));
    blocks_written(o, i + 2, k, at, open, "SACK:"@, n);
    assert(written(open, n).len() == 3);
    assert((8 * k) % 8 == 0 && (8 * k) / 8 == k);
    let after = option(o, i, at, m).0;
    let s = written(after, n);
    assert(s.len() == after.count() - n);
    assert(s.skip(3) =~= edges(o, i + 2, k, at, m));
}

// ---- what the analysis sees ------------------------------------------------------

/// The analysis sees what the header says: the numbers as they stand, the
/// flags bit by bit, and a window scale in a SYN alone.
pub proof fn segments_are_read_from_the_header(
    d: Seq<u8>,
    m: Model,
    payload: int,
    scale: Option<u8>,
)
    requires
        d.len() >= 20,
        0 <= payload <= u32::MAX,
    ensures
        ({
            let g = segment_of(d, m, payload, scale);
            &&& g.frame == m.frame_number
            &&& g.ts == m.ts
            &&& g.seq == four(d, 4)
            &&& g.ack == four(d, 8)
            &&& g.window == two(d, 14)
            &&& g.payload_len == payload
            &&& g.fin == flag(d, 0x1)
            &&& g.syn == flag(d, 0x2)
            &&& g.rst == flag(d, 0x4)
            &&& g.ack_flag == flag(d, 0x10)
            &&& g.window_scale == if flag(d, 0x2) {
                scale
            } else {
                None
            }
        }),
{
    let raw = be16(d, 12);
    assert(((raw & 0x0fff) & 0x10 != 0) == (raw / 0x10 % 2 == 1) && ((raw & 0x0fff) & 0x4 != 0) == (
    raw / 0x4 % 2 == 1) && ((raw & 0x0fff) & 0x2 != 0) == (raw / 0x2 % 2 == 1) && ((raw & 0x0fff)
        & 0x1 != 0) == (raw % 2 == 1)) by (bit_vector);
    assert(two(d, 12) == raw);
}

/// Where the payload does not tell, the ports do: 443 and 8443 are TLS, 80
/// and 8080 are HTTP, at either end.
pub proof fn ports_tell_where_the_payload_does_not(payload: Seq<u8>, sport: u16, dport: u16)
    requires
        !crate::dissect::proto::tls::resembles_tls(payload),
        !crate::dissect::proto::http::resembles_http(payload),
    ensures
        next_by_payload(payload, sport, dport) == next_by_payload(payload, dport, sport),
        sport == 443 || sport == 8443 ==> next_by_payload(payload, sport, dport) == Proto::Tls,
        (sport == 80 || sport == 8080) && dport != 443 && dport != 8443 ==> next_by_payload(
            payload,
            sport,
            dport,
        ) == Proto::Http,
        sport != 443 && sport != 8443 && sport != 80 && sport != 8080 && dport != 443 && dport
            != 8443 && dport != 80 && dport != 8080 ==> next_by_payload(payload, sport, dport)
            == Proto::Data,
{
}

/// A payload that looks like TLS or HTTP is that, on whatever ports.
pub proof fn payloads_tell_before_ports(payload: Seq<u8>, sport: u16, dport: u16)
    ensures
        crate::dissect::proto::tls::resembles_tls(payload) ==> next_by_payload(
            payload,
            sport,
            dport,
        ) == Proto::Tls,
        crate::dissect::proto::http::resembles_http(payload)
            && !crate::dissect::proto::tls::resembles_tls(payload) ==> next_by_payload(
            payload,
            sport,
            dport,
        ) == Proto::Http,
{
}

} // verus!

//! The fields of DNS messages.

use vstd::prelude::*;

use super::{bit_of, bytes_at, field, four, nothing_written, over, two, writing, written, Field};
use crate::bytes::be16;
use crate::dissect::ctx::Model;
use crate::dissect::cursor::SourceId;
use crate::dissect::node::{Trace, ValueView};
use crate::dissect::proto::dns::{
    authority, class_text, header_fields, label_shown, name_at, name_from, question, record,
    record_data, MAX_POINTER_HOPS,
};

verus! {

// ---- names ----------------------------------------------------------------------

/// A pointer reads as the name that it points to, and takes two bytes.
pub proof fn pointers_read_as_what_they_point_to(d: Seq<u8>, p: int)
    requires
        0 <= p < d.len(),
        d[p] >= 0xc0,
        name_at(d, p) is Ok,
    ensures
        ({
            let target = (d[p] - 0xc0) * 256 + d[p + 1];
            &&& p + 1 < d.len()
            &&& target < p
            &&& name_at(d, target) is Ok
            &&& name_at(d, p)->Ok_0.0 == name_at(d, target)->Ok_0.0
            &&& name_at(d, p)->Ok_0.1 == p + 2
        }),
{
    let len = d[p];
    assert(len & 0xc0 == 0xc0 && len & 0x3f == len - 0xc0) by (bit_vector)
        requires
            len >= 0xc0u8,
    ;
    let target = (len - 0xc0) * 256 + d[p + 1];
    fewer_hops_read_the_same(d, target, 0, 1, Seq::empty(), Some(p + 2), None);
}

proof fn fewer_hops_read_the_same(
    d: Seq<u8>,
    p: int,
    labels: int,
    hops: int,
    name: Seq<char>,
    end: Option<int>,
    other: Option<int>,
)
    requires
        end is Some,
        hops >= 1,
        name_from(d, p, labels, hops, name, end) is Ok,
    ensures
        name_from(d, p, labels, hops, name, end)->Ok_0.1 == end->0,
        name_from(d, p, labels, hops - 1, name, other) is Ok,
        name_from(d, p, labels, hops - 1, name, other)->Ok_0.0 == name_from(
            d,
            p,
            labels,
            hops,
            name,
            end,
        )->Ok_0.0,
    decreases MAX_POINTER_HOPS + 1 - hops, d.len() - p,
{
    let len = d[p];
    if len & 0xc0 == 0xc0 {
        let target = (len & 0x3f) * 256 + d[p + 1];
        fewer_hops_read_the_same(
            d,
            target,
            labels,
            hops + 1,
            name,
            end,
            if other is None {
                Some(p + 2)
            } else {
                other
            },
        );
    } else if len != 0 {
        let dotted = if name.len() == 0 {
            name
        } else {
            name + "."@
        };
        let more = dotted + label_shown(d.subrange(p + 1, p + 1 + len), len as int);
        fewer_hops_read_the_same(d, p + 1 + len, labels + 1, hops, more, end, other);
    }
}

/// A zero byte is the root, and takes one byte.
pub proof fn the_root_is_a_zero_byte(d: Seq<u8>, p: int)
    requires
        0 <= p < d.len(),
        d[p] == 0,
    ensures
        name_at(d, p) == Ok::<(Seq<char>, int), &'static str>(("<Root>"@, p + 1)),
{
    assert(0u8 & 0xc0 == 0) by (bit_vector);
}

/// A label of letters, digits, hyphens and underscores is shown as it is.
pub proof fn plain_labels_are_shown_as_they_are(l: Seq<u8>, n: int)
    requires
        0 <= n <= l.len(),
        forall|i: int|
            0 <= i < n ==> (0x30 <= #[trigger] l[i] <= 0x39 || 0x41 <= l[i] <= 0x5a || 0x61 <= l[i]
                <= 0x7a || l[i] == 0x2d || l[i] == 0x5f),
    ensures
        label_shown(l, n) == Seq::new(n as nat, |i: int| l[i] as char),
    decreases n,
{
    if n > 0 {
        plain_labels_are_shown_as_they_are(l, n - 1);
    }
    assert(label_shown(l, n) =~= Seq::new(n as nat, |i: int| l[i] as char));
}

proof fn labels_show_something(l: Seq<u8>, n: int)
    requires
        0 < n,
    ensures
        label_shown(l, n).len() > 0,
{
    reveal_strlit("\\");
}

/// A name of several labels is its first label, a dot and the name that its
/// other labels make; one of a single label has no dot.
pub proof fn labels_are_joined_by_dots(d: Seq<u8>, p: int)
    requires
        0 <= p < d.len(),
        0 < d[p] < 0x40,
        name_at(d, p) is Ok,
    ensures
        ({
            let next = p + 1 + d[p];
            let label = label_shown(d.subrange(p + 1, next), d[p] as int);
            let name = name_at(d, p)->Ok_0;
            let rest = name_at(d, next)->Ok_0;
            &&& next < d.len()
            &&& name_at(d, next) is Ok
            &&& name.1 == rest.1
            &&& d[next] == 0 ==> name.0 == label
            &&& 0 < d[next] < 0x40 ==> name.0 == label + "."@ + rest.0
            &&& name.0 == label + "."@ + rest.0 || name.0 == label && rest.0 == "<Root>"@
        }),
{
    let len = d[p];
    assert(len & 0xc0 == 0) by (bit_vector)
        requires
            len < 0x40u8,
    ;
    let next = p + 1 + len;
    let label = label_shown(d.subrange(p + 1, next), len as int);
    labels_show_something(d.subrange(p + 1, next), len as int);
    assert(Seq::<char>::empty() + label =~= label);
    behind_a_label(d, next, 0, 0, label, Seq::empty(), None);
    if d[next] != 0 && d[next] < 0x40 {
        let more = d[next];
        assert(more & 0xc0 == 0) by (bit_vector)
            requires
                more < 0x40u8,
        ;
        let second = label_shown(d.subrange(next + 1, next + 1 + more), more as int);
        labels_show_something(d.subrange(next + 1, next + 1 + more), more as int);
        assert(Seq::<char>::empty() + second =~= second);
        assert(label + "."@ + second =~= joined(label, second));
        behind_a_label(d, next + 1 + more, 1, 0, label, second, None);
    }
    if d[next] == 0 {
        the_root_is_a_zero_byte(d, next);
        assert(0u8 & 0xc0 == 0) by (bit_vector);
    }
}

/// What a name comes to behind a first label.
spec fn joined(label: Seq<char>, rest: Seq<char>) -> Seq<char> {
    if rest.len() == 0 {
        label
    } else {
        label + "."@ + rest
    }
}

proof fn behind_a_label(
    d: Seq<u8>,
    p: int,
    labels: int,
    hops: int,
    label: Seq<char>,
    name: Seq<char>,
    end: Option<int>,
)
    requires
        label.len() > 0,
        name_from(d, p, labels + 1, hops, joined(label, name), end) is Ok,
    ensures
        name_from(d, p, labels, hops, name, end) is Ok,
        ({
            let whole = name_from(d, p, labels + 1, hops, joined(label, name), end)->Ok_0;
            let rest = name_from(d, p, labels, hops, name, end)->Ok_0;
            &&& whole.1 == rest.1
            &&& whole.0 == label + "."@ + rest.0 || name.len() == 0 && whole.0 == label && rest.0
                == "<Root>"@
        }),
    decreases MAX_POINTER_HOPS + 1 - hops, d.len() - p,
{
    let len = d[p];
    if len & 0xc0 == 0xc0 {
        let target = (len & 0x3f) * 256 + d[p + 1];
        behind_a_label(
            d,
            target,
            labels,
            hops + 1,
            label,
            name,
            if end is None {
                Some(p + 2)
            } else {
                end
            },
        );
    } else if len != 0 {
        let shown = label_shown(d.subrange(p + 1, p + 1 + len), len as int);
        labels_show_something(d.subrange(p + 1, p + 1 + len), len as int);
        let more = (if name.len() == 0 {
            name
        } else {
            name + "."@
        }) + shown;
        assert(joined(label, name) + "."@ + shown =~= joined(label, more));
        behind_a_label(d, p + 1 + len, labels + 1, hops, label, more, end);
    }
}

// ---- the header -----------------------------------------------------------------

/// The header is shown field by field: id, flags from the highest bit down,
/// and how many questions, answers, authorities and additional records there
/// are. Authority, recursion on offer, authenticity and the outcome are shown
/// of a response alone.
#[verifier::rlimit(60)]
pub proof fn dns_shows_its_header(d: Seq<u8>, m: Model)
    requires
        d.len() >= 12,
    ensures
        ({
            let s = written(header_fields(d, m), m.count());
            let flags = two(d, 2);
            let e = s.len() - 4;
            &&& s[0] == over(m, "dns"@, 0, d.len() - 0, ValueView::Empty)
            &&& s[1] == over(m, "dns.id"@, 0, 2, ValueView::Unsigned(two(d, 0)))
            &&& s[2] == over(m, "dns.flags"@, 2, 4, ValueView::Unsigned(flags))
            &&& s[3] == over(
                m,
                "dns.flags.response"@,
                2,
                4,
                ValueView::Bool(bit_of(d, 2, 0x8000)),
            )
            &&& s[4] == over(
                m,
                "dns.flags.opcode"@,
                2,
                4,
                ValueView::Unsigned(flags / 0x800 % 0x10),
            )
            &&& bit_of(d, 2, 0x8000) ==> s.subrange(5, 13) == seq![
                over(m, "dns.flags.authoritative"@, 2, 4, ValueView::Bool(bit_of(d, 2, 0x400))),
                over(m, "dns.flags.truncated"@, 2, 4, ValueView::Bool(bit_of(d, 2, 0x200))),
                over(m, "dns.flags.recdesired"@, 2, 4, ValueView::Bool(bit_of(d, 2, 0x100))),
                over(m, "dns.flags.recavail"@, 2, 4, ValueView::Bool(bit_of(d, 2, 0x80))),
                over(m, "dns.flags.z"@, 2, 4, ValueView::Bool(bit_of(d, 2, 0x40))),
                over(m, "dns.flags.authenticated"@, 2, 4, ValueView::Bool(bit_of(d, 2, 0x20))),
                over(m, "dns.flags.checkdisable"@, 2, 4, ValueView::Bool(bit_of(d, 2, 0x10))),
                over(m, "dns.flags.rcode"@, 2, 4, ValueView::Unsigned(flags % 0x10)),
            ]
            &&& bit_of(d, 2, 0x8000) ==> e == 13
            &&& !bit_of(d, 2, 0x8000) ==> s.subrange(5, 9) == seq![
                over(m, "dns.flags.truncated"@, 2, 4, ValueView::Bool(bit_of(d, 2, 0x200))),
                over(m, "dns.flags.recdesired"@, 2, 4, ValueView::Bool(bit_of(d, 2, 0x100))),
                over(m, "dns.flags.z"@, 2, 4, ValueView::Bool(bit_of(d, 2, 0x40))),
                over(m, "dns.flags.checkdisable"@, 2, 4, ValueView::Bool(bit_of(d, 2, 0x10))),
            ]
            &&& !bit_of(d, 2, 0x8000) ==> e == 9
            &&& s[e] == over(m, "dns.count.queries"@, 4, 6, ValueView::Unsigned(two(d, 4)))
            &&& s[e + 1] == over(m, "dns.count.answers"@, 6, 8, ValueView::Unsigned(two(d, 6)))
            &&& s[e + 2] == over(m, "dns.count.auth_rr"@, 8, 10, ValueView::Unsigned(two(d, 8)))
            &&& s[e + 3] == over(m, "dns.count.add_rr"@, 10, 12, ValueView::Unsigned(two(d, 10)))
        }),
{
    broadcast use writing;

    nothing_written(m);
    reveal_strlit("dns");
    reveal_strlit("_ws.malformed");
    assert("dns"@.len() == 3 && "_ws.malformed"@.len() == 13);
    let flags = be16(d, 2);
    assert((flags & 0x8000 != 0) == (flags / 0x8000 % 2 == 1) && (flags & 0x400 != 0) == (flags
        / 0x400 % 2 == 1) && (flags & 0x200 != 0) == (flags / 0x200 % 2 == 1) && (flags & 0x100
        != 0) == (flags / 0x100 % 2 == 1) && (flags & 0x80 != 0) == (flags / 0x80 % 2 == 1) && (
    flags & 0x40 != 0) == (flags / 0x40 % 2 == 1) && (flags & 0x20 != 0) == (flags / 0x20 % 2 == 1)
        && (flags & 0x10 != 0) == (flags / 0x10 % 2 == 1) && (flags >> 11) & 0xf == flags / 0x800
        % 0x10 && flags & 0xf == flags % 0x10) by (bit_vector);
    assert(two(d, 2) == flags);
    let after = header_fields(d, m);
    let s = written(after, m.count());
    assert(s.len() == after.count() - m.count());
}

// ---- questions and records --------------------------------------------------------

/// The fields in the rows of `after` behind those of `t`.
pub open spec fn appended(t: Trace, after: Trace) -> Seq<Field> {
    Seq::new(
        (after.rows.len() - t.rows.len()) as nat,
        |i: int| field(after.rows[t.rows.len() + i]),
    )
}

/// A field over bytes `i..j` of a message that stands at `base`.
pub open spec fn at_base(
    s: SourceId,
    base: int,
    name: Seq<char>,
    i: int,
    j: int,
    value: ValueView,
) -> Field {
    Field { abbrev: name, source: s, start: base + i, end: base + j, value }
}

/// A question shows its name, its type and its class.
pub proof fn questions_are_shown(d: Seq<u8>, pos: int, base: int, s: SourceId, t: Trace)
    requires
        question(d, pos, base, s, t) is Ok,
    ensures
        ({
            let (after, next, _) = question(d, pos, base, s, t)->Ok_0;
            let (name, q) = name_at(d, pos)->Ok_0;
            &&& name_at(d, pos) is Ok
            &&& next == q + 4
            &&& appended(t, after) == seq![
                at_base(s, base, "dns.qry"@, pos, q + 4, ValueView::Empty),
                at_base(s, base, "dns.qry.name"@, pos, q, ValueView::Str(name)),
                at_base(s, base, "dns.qry.type"@, q, q + 2, ValueView::Unsigned(two(d, q))),
                at_base(
                    s,
                    base,
                    "dns.qry.class"@,
                    q + 2,
                    q + 4,
                    ValueView::Unsigned(two(d, q + 2)),
                ),
            ]
        }),
{
    let (after, next, _) = question(d, pos, base, s, t)->Ok_0;
    let (name, q) = name_at(d, pos)->Ok_0;
    assert(appended(t, after) =~= seq![
        at_base(s, base, "dns.qry"@, pos, q + 4, ValueView::Empty),
        at_base(s, base, "dns.qry.name"@, pos, q, ValueView::Str(name)),
        at_base(s, base, "dns.qry.type"@, q, q + 2, ValueView::Unsigned(two(d, q))),
        at_base(s, base, "dns.qry.class"@, q + 2, q + 4, ValueView::Unsigned(two(d, q + 2))),
    ]);
}

/// What a record holds is read by its type: 1 is an IPv4 address and 28 an
/// IPv6 address; 2, 5 and 12 are the names of a server, of what an alias
/// stands for and of what an address is called.
pub proof fn addresses_and_names_are_shown(
    ty: u16,
    d: Seq<u8>,
    rd: int,
    len: u16,
    base: int,
    s: SourceId,
    t: Trace,
)
    requires
        record_data(ty, d, rd, len, base, s, t) is Ok,
    ensures
        ({
            let after = record_data(ty, d, rd, len, base, s, t)->Ok_0.0;
            let shown = appended(t, after);
            let name = name_at(d, rd)->Ok_0.0;
            let end = rd + len;
            &&& ty == 1 && len == 4 ==> shown == seq![
                at_base(s, base, "dns.a"@, rd, rd + 4, ValueView::Ipv4(bytes_at(d, rd, 4))),
            ]
            &&& ty == 28 && len == 16 ==> shown == seq![
                at_base(s, base, "dns.aaaa"@, rd, rd + 16, ValueView::Ipv6(bytes_at(d, rd, 16))),
            ]
            &&& ty == 2 ==> shown == seq![
                at_base(s, base, "dns.ns"@, rd, end, ValueView::Str(name)),
            ]
            &&& ty == 5 ==> shown == seq![
                at_base(s, base, "dns.cname"@, rd, end, ValueView::Str(name)),
            ]
            &&& ty == 12 ==> shown == seq![
                at_base(s, base, "dns.ptr.domain_name"@, rd, end, ValueView::Str(name)),
            ]
        }),
{
    let after = record_data(ty, d, rd, len, base, s, t)->Ok_0.0;
    let shown = appended(t, after);
    let name = name_at(d, rd)->Ok_0.0;
    let end = rd + len;
    assert(ty == 1 && len == 4 ==> shown =~= seq![
        at_base(s, base, "dns.a"@, rd, rd + 4, ValueView::Ipv4(bytes_at(d, rd, 4))),
    ]);
    assert(ty == 28 && len == 16 ==> shown =~= seq![
        at_base(s, base, "dns.aaaa"@, rd, rd + 16, ValueView::Ipv6(bytes_at(d, rd, 16))),
    ]);
    assert(ty == 2 ==> shown =~= seq![at_base(s, base, "dns.ns"@, rd, end, ValueView::Str(name))]);
    assert(ty == 5 ==> shown =~= seq![
        at_base(s, base, "dns.cname"@, rd, end, ValueView::Str(name)),
    ]);
    assert(ty == 12 ==> shown =~= seq![
        at_base(s, base, "dns.ptr.domain_name"@, rd, end, ValueView::Str(name)),
    ]);
}

/// A mail exchange (15) shows its preference before its name, a service (33)
/// its priority, weight and port before its target.
pub proof fn exchanges_and_services_are_shown(
    ty: u16,
    d: Seq<u8>,
    rd: int,
    len: u16,
    base: int,
    s: SourceId,
    t: Trace,
)
    requires
        ty == 15 || ty == 33,
        record_data(ty, d, rd, len, base, s, t) is Ok,
    ensures
        ({
            let after = record_data(ty, d, rd, len, base, s, t)->Ok_0.0;
            let shown = appended(t, after);
            let end = rd + len;
            &&& ty == 15 ==> shown == seq![
                at_base(
                    s,
                    base,
                    "dns.mx.preference"@,
                    rd,
                    rd + 2,
                    ValueView::Unsigned(two(d, rd)),
                ),
                at_base(
                    s,
                    base,
                    "dns.mx.mail_exchange"@,
                    rd + 2,
                    end,
                    ValueView::Str(name_at(d, rd + 2)->Ok_0.0),
                ),
            ]
            &&& ty == 33 ==> shown == seq![
                at_base(s, base, "dns.srv.priority"@, rd, rd + 2, ValueView::Unsigned(two(d, rd))),
                at_base(
                    s,
                    base,
                    "dns.srv.weight"@,
                    rd + 2,
                    rd + 4,
                    ValueView::Unsigned(two(d, rd + 2)),
                ),
                at_base(
                    s,
                    base,
                    "dns.srv.port"@,
                    rd + 4,
                    rd + 6,
                    ValueView::Unsigned(two(d, rd + 4)),
                ),
                at_base(
                    s,
                    base,
                    "dns.srv.target"@,
                    rd + 6,
                    end,
                    ValueView::Str(name_at(d, rd + 6)->Ok_0.0),
                ),
            ]
        }),
{
    let after = record_data(ty, d, rd, len, base, s, t)->Ok_0.0;
    let shown = appended(t, after);
    let end = rd + len;
    if ty == 15 {
        assert(shown =~= seq![
            at_base(s, base, "dns.mx.preference"@, rd, rd + 2, ValueView::Unsigned(two(d, rd))),
            at_base(
                s,
                base,
                "dns.mx.mail_exchange"@,
                rd + 2,
                end,
                ValueView::Str(name_at(d, rd + 2)->Ok_0.0),
            ),
        ]);
    } else {
        assert(shown =~= seq![
            at_base(s, base, "dns.srv.priority"@, rd, rd + 2, ValueView::Unsigned(two(d, rd))),
            at_base(
                s,
                base,
                "dns.srv.weight"@,
                rd + 2,
                rd + 4,
                ValueView::Unsigned(two(d, rd + 2)),
            ),
            at_base(
                s,
                base,
                "dns.srv.port"@,
                rd + 4,
                rd + 6,
                ValueView::Unsigned(two(d, rd + 4)),
            ),
            at_base(
                s,
                base,
                "dns.srv.target"@,
                rd + 6,
                end,
                ValueView::Str(name_at(d, rd + 6)->Ok_0.0),
            ),
        ]);
    }
}

/// The start of an authority shows its server and its mailbox, and behind both
/// names the serial number and four times in their order.
pub proof fn authorities_are_shown(
    d: Seq<u8>,
    rd: int,
    end: int,
    base: int,
    s: SourceId,
    t: Trace,
)
    requires
        authority(d, rd, end, base, s, t) is Ok,
    ensures
        ({
            let (mname, p) = name_at(d, rd)->Ok_0;
            let (rname, q) = name_at(d, p)->Ok_0;
            &&& q + 20 <= end
            &&& appended(t, authority(d, rd, end, base, s, t)->Ok_0.0) == seq![
                at_base(s, base, "dns.soa.mname"@, rd, p, ValueView::Str(mname)),
                at_base(s, base, "dns.soa.rname"@, p, q, ValueView::Str(rname)),
                at_base(
                    s,
                    base,
                    "dns.soa.serial_number"@,
                    q,
                    q + 4,
                    ValueView::Unsigned(four(d, q)),
                ),
                at_base(
                    s,
                    base,
                    "dns.soa.refresh_interval"@,
                    q + 4,
                    q + 8,
                    ValueView::Unsigned(four(d, q + 4)),
                ),
                at_base(
                    s,
                    base,
                    "dns.soa.retry_interval"@,
                    q + 8,
                    q + 12,
                    ValueView::Unsigned(four(d, q + 8)),
                ),
                at_base(
                    s,
                    base,
                    "dns.soa.expire_limit"@,
                    q + 12,
                    q + 16,
                    ValueView::Unsigned(four(d, q + 12)),
                ),
                at_base(
                    s,
                    base,
                    "dns.soa.minimum_ttl"@,
                    q + 16,
                    q + 20,
                    ValueView::Unsigned(four(d, q + 16)),
                ),
            ]
        }),
{
    let (mname, p) = name_at(d, rd)->Ok_0;
    let (rname, q) = name_at(d, p)->Ok_0;
    assert(appended(t, authority(d, rd, end, base, s, t)->Ok_0.0) =~= seq![
        at_base(s, base, "dns.soa.mname"@, rd, p, ValueView::Str(mname)),
        at_base(s, base, "dns.soa.rname"@, p, q, ValueView::Str(rname)),
        at_base(s, base, "dns.soa.serial_number"@, q, q + 4, ValueView::Unsigned(four(d, q))),
        at_base(
            s,
            base,
            "dns.soa.refresh_interval"@,
            q + 4,
            q + 8,
            ValueView::Unsigned(four(d, q + 4)),
        ),
        at_base(
            s,
            base,
            "dns.soa.retry_interval"@,
            q + 8,
            q + 12,
            ValueView::Unsigned(four(d, q + 8)),
        ),
        at_base(
            s,
            base,
            "dns.soa.expire_limit"@,
            q + 12,
            q + 16,
            ValueView::Unsigned(four(d, q + 12)),
        ),
        at_base(
            s,
            base,
            "dns.soa.minimum_ttl"@,
            q + 16,
            q + 20,
            ValueView::Unsigned(four(d, q + 16)),
        ),
    ]);
}

/// A record shows its name, its type, its class, how long it may be kept and
/// how long its data is; the next record follows its data.
pub proof fn records_are_shown(d: Seq<u8>, pos: int, base: int, s: SourceId, t: Trace)
    requires
        two(d, name_at(d, pos)->Ok_0.1) == 1,
        two(d, name_at(d, pos)->Ok_0.1 + 8) == 4,
        record(d, pos, base, s, t) is Ok,
    ensures
        ({
            let (after, next, _) = record(d, pos, base, s, t)->Ok_0;
            let (name, q) = name_at(d, pos)->Ok_0;
            &&& next == q + 14
            &&& appended(t, after) == seq![
                at_base(s, base, "dns.resp"@, pos, next, ValueView::Empty),
                at_base(s, base, "dns.resp.name"@, pos, q, ValueView::Str(name)),
                at_base(s, base, "dns.resp.type"@, q, q + 2, ValueView::Unsigned(1)),
                at_base(
                    s,
                    base,
                    "dns.resp.class"@,
                    q + 2,
                    q + 4,
                    ValueView::Unsigned(two(d, q + 2)),
                ),
                at_base(
                    s,
                    base,
                    "dns.resp.ttl"@,
                    q + 4,
                    q + 8,
                    ValueView::Unsigned(four(d, q + 4)),
                ),
                at_base(s, base, "dns.resp.len"@, q + 8, q + 10, ValueView::Unsigned(4)),
                at_base(
                    s,
                    base,
                    "dns.a"@,
                    q + 10,
                    q + 14,
                    ValueView::Ipv4(bytes_at(d, q + 10, 4)),
                ),
            ]
        }),
{
    let (after, next, _) = record(d, pos, base, s, t)->Ok_0;
    let (name, q) = name_at(d, pos)->Ok_0;
    assert(appended(t, after) =~= seq![
        at_base(s, base, "dns.resp"@, pos, next, ValueView::Empty),
        at_base(s, base, "dns.resp.name"@, pos, q, ValueView::Str(name)),
        at_base(s, base, "dns.resp.type"@, q, q + 2, ValueView::Unsigned(1)),
        at_base(s, base, "dns.resp.class"@, q + 2, q + 4, ValueView::Unsigned(two(d, q + 2))),
        at_base(s, base, "dns.resp.ttl"@, q + 4, q + 8, ValueView::Unsigned(four(d, q + 4))),
        at_base(s, base, "dns.resp.len"@, q + 8, q + 10, ValueView::Unsigned(4)),
        at_base(s, base, "dns.a"@, q + 10, q + 14, ValueView::Ipv4(bytes_at(d, q + 10, 4))),
    ]);
}

/// Classes are called by their names; the top bit, which asks for a flushed
/// cache or an answer to one alone, is no part of the class.
pub proof fn classes_are_named(class: u16)
    requires
        class < 0x8000,
    ensures
        class_text((class + 0x8000) as u16) == class_text(class),
        class_text(1) == "IN"@,
        class_text(3) == "CH"@,
        class_text(4) == "HS"@,
        class_text(255) == "ANY"@,
{
    let other: u16 = (class + 0x8000) as u16;
    assert(class & 0x7fff == class) by (bit_vector)
        requires
            class < 0x8000u16,
    ;
    assert(other & 0x7fff == other - 0x8000) by (bit_vector)
        requires
            other >= 0x8000u16,
    ;
    assert(1u16 & 0x7fff == 1 && 3u16 & 0x7fff == 3 && 4u16 & 0x7fff == 4 && 255u16 & 0x7fff
        == 255) by (bit_vector);
}

} // verus!

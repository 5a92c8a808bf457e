//! Which fields the options of a DHCP message are shown under.

use vstd::prelude::*;

use super::frame::{layers_stay_in_the_frame, stop_in};
use super::{
    bytes_at, finding, four, over, two, under, under_all, under_none, writing, written, Field,
};
use crate::bytes::{be16, be32};
use crate::capture::{LinkType, Timestamp};
use crate::dissect::ctx::{Model, Options, Proto};
use crate::dissect::cursor::SourceId;
use crate::dissect::node::ValueView;
use crate::dissect::proto::dhcp::{
    address_rows, c_text, header_fields, layer, option, option_body, options, request_rows,
};
use crate::dissect::reassembly::tidy;
use crate::dissect::state::StateView;
use crate::dissect::dissected;
use crate::text::utf8_lossy;

verus! {

/// How the body of an option is read.
pub enum Shape {
    /// IPv4 addresses, one behind the other.
    Addresses,
    /// Four bytes: a number of seconds.
    Seconds,
    /// A text.
    Text,
    /// One byte: a number.
    Byte,
    /// Two bytes: a number.
    Pair,
    /// Bytes as they stand.
    Opaque,
    /// A number in each byte.
    Each,
}

/// The option `code` is of shape `shape` and is shown as `name`.
pub open spec fn assigned(code: u8, name: Seq<char>, shape: Shape) -> bool {
    ||| code == 1 && name == "dhcp.option.subnet_mask"@ && shape is Addresses
    ||| code == 3 && name == "dhcp.option.router"@ && shape is Addresses
    ||| code == 6 && name == "dhcp.option.domain_name_server"@ && shape is Addresses
    ||| code == 12 && name == "dhcp.option.hostname"@ && shape is Text
    ||| code == 15 && name == "dhcp.option.domain_name"@ && shape is Text
    ||| code == 28 && name == "dhcp.option.broadcast_address"@ && shape is Addresses
    ||| code == 42 && name == "dhcp.option.ntp_server"@ && shape is Addresses
    ||| code == 50 && name == "dhcp.option.requested_ip_address"@ && shape is Addresses
    ||| code == 51 && name == "dhcp.option.ip_address_lease_time"@ && shape is Seconds
    ||| code == 53 && name == "dhcp.option.dhcp"@ && shape is Byte
    ||| code == 54 && name == "dhcp.option.dhcp_server_id"@ && shape is Addresses
    ||| code == 55 && name == "dhcp.option.request_list_item"@ && shape is Each
    ||| code == 57 && name == "dhcp.option.dhcp_max_message_size"@ && shape is Pair
    ||| code == 58 && name == "dhcp.option.renewal_time_value"@ && shape is Seconds
    ||| code == 59 && name == "dhcp.option.rebinding_time_value"@ && shape is Seconds
    ||| code == 60 && name == "dhcp.option.vendor_class_id"@ && shape is Text
    ||| code == 61 && name == "dhcp.option.client_id"@ && shape is Opaque
}

/// The fields of a body of `w` bytes at `i` in `d`, which stands at `at` in its
/// data source.
pub open spec fn body_fields(
    d: Seq<u8>,
    i: int,
    w: int,
    at: int,
    source: SourceId,
    name: Seq<char>,
    shape: Shape,
) -> Seq<Field> {
    let s = at + i;
    match shape {
        Shape::Addresses => if w > 0 && w % 4 == 0 {
            Seq::new(
                (w / 4) as nat,
                |k: int|
                    Field {
                        abbrev: name,
                        source,
                        start: s + 4 * k,
                        end: s + 4 * k + 4,
                        value: ValueView::Ipv4(bytes_at(d, i + 4 * k, 4)),
                    },
            )
        } else {
            Seq::empty()
        },
        Shape::Seconds => if w == 4 {
            seq![
                Field {
                    abbrev: name,
                    source,
                    start: s,
                    end: s + 4,
                    value: ValueView::Unsigned(
                        (d[i] * 0x100_0000 + d[i + 1] * 0x1_0000 + d[i + 2] * 0x100 + d[i
                            + 3]) as u64,
                    ),
                },
            ]
        } else {
            Seq::empty()
        },
        Shape::Text => seq![
            Field {
                abbrev: name,
                source,
                start: s,
                end: s + w,
                value: ValueView::Str(utf8_lossy(bytes_at(d, i, w))),
            },
        ],
        Shape::Byte => if w == 1 {
            seq![
                Field {
                    abbrev: name,
                    source,
                    start: s,
                    end: s + 1,
                    value: ValueView::Unsigned(d[i] as u64),
                },
            ]
        } else {
            Seq::empty()
        },
        Shape::Pair => if w == 2 {
            seq![
                Field {
                    abbrev: name,
                    source,
                    start: s,
                    end: s + 2,
                    value: ValueView::Unsigned((d[i] * 0x100 + d[i + 1]) as u64),
                },
            ]
        } else {
            Seq::empty()
        },
        Shape::Opaque => seq![
            Field { abbrev: name, source, start: s, end: s + w, value: ValueView::Bytes },
        ],
        Shape::Each => Seq::new(
            w as nat,
            |k: int|
                Field {
                    abbrev: name,
                    source,
                    start: s + k,
                    end: s + k + 1,
                    value: ValueView::Unsigned(d[i + k] as u64),
                },
        ),
    }
}

/// An option starts at `i` and is all there: Pad and End are one byte, any
/// other is a code, a length and that many bytes.
pub open spec fn whole(d: Seq<u8>, i: int) -> bool {
    &&& 0 <= i < d.len()
    &&& d[i] != 0 && d[i] != 255 ==> i + 1 < d.len() && i + 2 + d[i + 1] <= d.len()
}

/// Where the option behind the one at `i` starts.
pub open spec fn behind(d: Seq<u8>, i: int) -> int {
    if d[i] == 0 || d[i] == 255 {
        i + 1
    } else {
        i + 2 + d[i + 1]
    }
}

/// The fields of the options with code `code`, from the option at `i` up to
/// the End option or the first that is cut off.
pub open spec fn held(
    d: Seq<u8>,
    i: int,
    at: int,
    source: SourceId,
    code: u8,
    name: Seq<char>,
    shape: Shape,
) -> Seq<Field>
    decreases d.len() - i,
{
    if !whole(d, i) || d[i] == 255 {
        Seq::empty()
    } else if d[i] == code {
        body_fields(d, i + 2, d[i + 1] as int, at, source, name, shape) + held(
            d,
            behind(d, i),
            at,
            source,
            code,
            name,
            shape,
        )
    } else {
        held(d, behind(d, i), at, source, code, name, shape)
    }
}

proof fn names()
    ensures
        "dhcp.option"@.len() == 11,
        "dhcp.option.type"@.len() == 16 && "dhcp.option.type"@[12] == 't',
        "dhcp.option.length"@.len() == 18 && "dhcp.option.length"@[12] == 'l',
        "dhcp.option.end"@.len() == 15,
        "dhcp.option.value"@.len() == 17,
        "dhcp.option.padding"@.len() == 19 && "dhcp.option.padding"@[12] == 'p',
        "dhcp.option.subnet_mask"@.len() == 23 && "dhcp.option.subnet_mask"@[12] == 's',
        "dhcp.option.router"@.len() == 18 && "dhcp.option.router"@[12] == 'r',
        "dhcp.option.domain_name_server"@.len() == 30 && "dhcp.option.domain_name_server"@[12]
            == 'd',
        "dhcp.option.hostname"@.len() == 20,
        "dhcp.option.domain_name"@.len() == 23 && "dhcp.option.domain_name"@[12] == 'd',
        "dhcp.option.broadcast_address"@.len() == 29 && "dhcp.option.broadcast_address"@[12]
            == 'b',
        "dhcp.option.ntp_server"@.len() == 22,
        "dhcp.option.requested_ip_address"@.len() == 32 && "dhcp.option.requested_ip_address"@[14]
            == 'q',
        "dhcp.option.ip_address_lease_time"@.len() == 33
            && "dhcp.option.ip_address_lease_time"@[12] == 'i',
        "dhcp.option.dhcp"@.len() == 16 && "dhcp.option.dhcp"@[12] == 'd',
        "dhcp.option.dhcp_server_id"@.len() == 26,
        "dhcp.option.request_list_item"@.len() == 29 && "dhcp.option.request_list_item"@[12]
            == 'r',
        "dhcp.option.dhcp_max_message_size"@.len() == 33
            && "dhcp.option.dhcp_max_message_size"@[12] == 'd',
        "dhcp.option.renewal_time_value"@.len() == 30 && "dhcp.option.renewal_time_value"@[12]
            == 'r',
        "dhcp.option.rebinding_time_value"@.len() == 32 && "dhcp.option.rebinding_time_value"@[14]
            == 'b',
        "dhcp.option.vendor_class_id"@.len() == 27,
        "dhcp.option.client_id"@.len() == 21,
        "_ws.malformed"@.len() == 13,
        "_ws.expert"@.len() == 10,
        "_ws.expert.severity"@.len() == 19 && "_ws.expert.severity"@[0] == '_',
        "_ws.expert.group"@.len() == 16 && "_ws.expert.group"@[12] == 'r',
{
    reveal_strlit("dhcp.option");
    reveal_strlit("dhcp.option.type");
    reveal_strlit("dhcp.option.length");
    reveal_strlit("dhcp.option.end");
    reveal_strlit("dhcp.option.value");
    reveal_strlit("dhcp.option.padding");
    reveal_strlit("dhcp.option.subnet_mask");
    reveal_strlit("dhcp.option.router");
    reveal_strlit("dhcp.option.domain_name_server");
    reveal_strlit("dhcp.option.hostname");
    reveal_strlit("dhcp.option.domain_name");
    reveal_strlit("dhcp.option.broadcast_address");
    reveal_strlit("dhcp.option.ntp_server");
    reveal_strlit("dhcp.option.requested_ip_address");
    reveal_strlit("dhcp.option.ip_address_lease_time");
    reveal_strlit("dhcp.option.dhcp");
    reveal_strlit("dhcp.option.dhcp_server_id");
    reveal_strlit("dhcp.option.request_list_item");
    reveal_strlit("dhcp.option.dhcp_max_message_size");
    reveal_strlit("dhcp.option.renewal_time_value");
    reveal_strlit("dhcp.option.rebinding_time_value");
    reveal_strlit("dhcp.option.vendor_class_id");
    reveal_strlit("dhcp.option.client_id");
    reveal_strlit("_ws.malformed");
    reveal_strlit("_ws.expert");
    reveal_strlit("_ws.expert.severity");
    reveal_strlit("_ws.expert.group");
}

/// A name that an option's body is shown under is none of the names that
/// every option has.
proof fn apart(code: u8, name: Seq<char>, shape: Shape)
    requires
        assigned(code, name, shape),
    ensures
        name != "dhcp.option"@,
        name != "dhcp.option.type"@,
        name != "dhcp.option.length"@,
        name != "dhcp.option.end"@,
        name != "dhcp.option.value"@,
        name != "dhcp.option.padding"@,
        name != "_ws.malformed"@,
        name != "_ws.expert"@,
        name != "_ws.expert.severity"@,
        name != "_ws.expert.group"@,
        forall|other: u8, n: Seq<char>, s: Shape| #[trigger]
            assigned(other, n, s) && other != code ==> n != name,
{
    names();
}

proof fn addresses_written(
    b: Seq<u8>,
    i: int,
    at: int,
    abbrev: Seq<char>,
    m: Model,
    parts: Seq<Seq<char>>,
    n: int,
)
    requires
        0 <= i <= b.len(),
        b.len() % 4 == 0,
        i % 4 == 0,
        0 <= n <= m.count(),
    ensures
        ({
            let after = address_rows(b, i, at, abbrev, m, parts).0;
            &&& after.count() == m.count() + (b.len() - i) / 4
            &&& after.source == m.source
            &&& after.base == m.base
            &&& after.next == m.next
            &&& written(after, n) == written(m, n) + Seq::new(
                ((b.len() - i) / 4) as nat,
                |k: int|
                    Field {
                        abbrev,
                        source: m.source,
                        start: at + i + 4 * k,
                        end: at + i + 4 * k + 4,
                        value: ValueView::Ipv4(bytes_at(b, i + 4 * k, 4)),
                    },
            )
        }),
    decreases b.len() - i,
{
    broadcast use writing;

    let list = Seq::new(
        ((b.len() - i) / 4) as nat,
        |k: int|
            Field {
                abbrev,
                source: m.source,
                start: at + i + 4 * k,
                end: at + i + 4 * k + 4,
                value: ValueView::Ipv4(bytes_at(b, i + 4 * k, 4)),
            },
    );
    if i + 4 <= b.len() {
        let a = b.subrange(i, i + 4);
        let next = m.leaf(abbrev, at + i, at + i + 4, ValueView::Ipv4(a));
        let more = parts.push(crate::dissect::node::ipv4_text(a));
        addresses_written(b, i + 4, at, abbrev, next, more, n);
        let after = address_rows(b, i, at, abbrev, m, parts).0;
        assert(after == address_rows(b, i + 4, at, abbrev, next, more).0);
        assert(written(after, n) =~= written(m, n) + list);
    } else {
        assert(list =~= Seq::empty());
        assert(written(m, n) =~= written(m, n) + list);
    }
}

proof fn requests_written(
    b: Seq<u8>,
    i: int,
    at: int,
    m: Model,
    parts: Seq<Seq<char>>,
    n: int,
)
    requires
        0 <= i <= b.len(),
        0 <= n <= m.count(),
    ensures
        ({
            let after = request_rows(b, i, at, m, parts).0;
            &&& after.count() == m.count() + b.len() - i
            &&& after.source == m.source
            &&& after.base == m.base
            &&& after.next == m.next
            &&& written(after, n) == written(m, n) + Seq::new(
                (b.len() - i) as nat,
                |k: int|
                    Field {
                        abbrev: "dhcp.option.request_list_item"@,
                        source: m.source,
                        start: at + i + k,
                        end: at + i + k + 1,
                        value: ValueView::Unsigned(b[i + k] as u64),
                    },
            )
        }),
    decreases b.len() - i,
{
    broadcast use writing;

    let list = Seq::new(
        (b.len() - i) as nat,
        |k: int|
            Field {
                abbrev: "dhcp.option.request_list_item"@,
                source: m.source,
                start: at + i + k,
                end: at + i + k + 1,
                value: ValueView::Unsigned(b[i + k] as u64),
            },
    );
    if i < b.len() {
        let next = m.leaf(
            "dhcp.option.request_list_item"@,
            at + i,
            at + i + 1,
            ValueView::Unsigned(b[i] as u64),
        );
        let more = parts.push(crate::text::dec(b[i] as int));
        requests_written(b, i + 1, at, next, more, n);
        let after = request_rows(b, i, at, m, parts).0;
        assert(after == request_rows(b, i + 1, at, next, more).0);
        assert(written(after, n) =~= written(m, n) + list);
    } else {
        assert(list =~= Seq::empty());
        assert(written(m, n) =~= written(m, n) + list);
    }
}

proof fn body_found(
    code: u8,
    d: Seq<u8>,
    i: int,
    w: int,
    at: int,
    m: Model,
    n: int,
    wanted: u8,
    name: Seq<char>,
    shape: Shape,
)
    requires
        assigned(wanted, name, shape),
        0 <= i <= i + w <= d.len(),
        0 <= w,
        0 <= n <= m.count(),
    ensures
        ({
            let after = option_body(code, d.subrange(i, i + w), at + i, m).0;
            &&& after.count() >= m.count()
            &&& after.source == m.source
            &&& after.base == m.base
            &&& after.next == m.next
            &&& under(name, written(after, n)) == under(name, written(m, n)) + if code == wanted {
                body_fields(d, i, w, at, m.source, name, shape)
            } else {
                Seq::empty()
            }
            &&& forall|k: int|
                0 <= k < m.count() - n ==> (#[trigger] written(after, n)[k]) == written(m, n)[k]
        }),
{
    broadcast use writing, finding;

    apart(wanted, name, shape);
    let b = d.subrange(i, i + w);
    let after = option_body(code, b, at + i, m).0;
    let was = written(m, n);
    let found = under(name, was);
    assert(found + Seq::empty() =~= found);
    assert forall|x: Field| #[trigger] found.push(x) == found + seq![x] by {
        assert(found.push(x) =~= found + seq![x]);
    }
    if code == 53 && w == 1 {
        assert(assigned(53, "dhcp.option.dhcp"@, Shape::Byte));
    } else if (code == 1 || code == 3 || code == 6 || code == 28 || code == 42 || code == 50 || code
        == 54) && w % 4 == 0 && w > 0 {
        let shown = crate::dissect::proto::dhcp::address_field(code)->Some_0;
        assert(assigned(code, shown, Shape::Addresses));
        addresses_written(b, 0, at + i, shown, m, Seq::empty(), n);
        let list = Seq::new(
            (b.len() / 4) as nat,
            |k: int|
                Field {
                    abbrev: shown,
                    source: m.source,
                    start: at + i + 0 + 4 * k,
                    end: at + i + 0 + 4 * k + 4,
                    value: ValueView::Ipv4(bytes_at(b, 0 + 4 * k, 4)),
                },
        );
        assert(written(after, n) =~= was + list);
        if code == wanted {
            under_all(name, list);
            assert forall|k: int| 0 <= k < list.len() implies bytes_at(b, 0 + 4 * k, 4)
                == #[trigger] bytes_at(d, i + 4 * k, 4) by {
                assert(bytes_at(b, 0 + 4 * k, 4) =~= bytes_at(d, i + 4 * k, 4));
            }
            assert(list =~= body_fields(d, i, w, at, m.source, name, shape));
        } else {
            under_none(name, list);
        }
    } else if code == 51 && w == 4 {
        assert(assigned(51, "dhcp.option.ip_address_lease_time"@, Shape::Seconds));
    } else if code == 58 && w == 4 {
        assert(assigned(58, "dhcp.option.renewal_time_value"@, Shape::Seconds));
    } else if code == 59 && w == 4 {
        assert(assigned(59, "dhcp.option.rebinding_time_value"@, Shape::Seconds));
    } else if code == 57 && w == 2 {
        assert(assigned(57, "dhcp.option.dhcp_max_message_size"@, Shape::Pair));
    } else if code == 12 {
        assert(assigned(12, "dhcp.option.hostname"@, Shape::Text));
    } else if code == 15 {
        assert(assigned(15, "dhcp.option.domain_name"@, Shape::Text));
    } else if code == 60 {
        assert(assigned(60, "dhcp.option.vendor_class_id"@, Shape::Text));
    } else if code == 61 {
        assert(assigned(61, "dhcp.option.client_id"@, Shape::Opaque));
    } else if code == 55 {
        assert(assigned(55, "dhcp.option.request_list_item"@, Shape::Each));
        requests_written(b, 0, at + i, m, Seq::empty(), n);
        let list = Seq::new(
            b.len() as nat,
            |k: int|
                Field {
                    abbrev: "dhcp.option.request_list_item"@,
                    source: m.source,
                    start: at + i + 0 + k,
                    end: at + i + 0 + k + 1,
                    value: ValueView::Unsigned(b[0 + k] as u64),
                },
        );
        assert(written(after, n) =~= was + list);
        if code == wanted {
            under_all(name, list);
            assert(list =~= body_fields(d, i, w, at, m.source, name, shape));
        } else {
            under_none(name, list);
        }
    }
}

proof fn option_found(
    d: Seq<u8>,
    i: int,
    at: int,
    m: Model,
    n: int,
    wanted: u8,
    name: Seq<char>,
    shape: Shape,
)
    requires
        assigned(wanted, name, shape),
        0 <= i < d.len(),
        0 <= n <= m.count(),
    ensures
        ({
            let (after, j, step) = option(d, i, at, m);
            &&& after.count() >= m.count()
            &&& after.source == m.source
            &&& after.base == m.base
            &&& after.next == m.next
            &&& step is Failed <==> !whole(d, i)
            &&& step is Last <==> d[i] == 255
            &&& whole(d, i) ==> j == behind(d, i)
            &&& i < j
            &&& under(name, written(after, n)) == under(name, written(m, n)) + if d[i] == wanted
                && whole(d, i) {
                body_fields(d, i + 2, d[i + 1] as int, at, m.source, name, shape)
            } else {
                Seq::empty()
            }
        }),
{
    broadcast use writing, finding;

    apart(wanted, name, shape);
    let was = written(m, n);
    let found = under(name, was);
    assert(found + Seq::empty() =~= found);
    let p = at + i;
    let opt = m.count();
    let open = m.begin("dhcp.option"@, p, p).leaf(
        "dhcp.option.type"@,
        p,
        p + 1,
        ValueView::Unsigned(d[i] as u64),
    );
    assert(written(open, n)[opt - n].abbrev == "dhcp.option"@);
    assert(under(name, written(open, n)) == found);
    if whole(d, i) && d[i] != 0 && d[i] != 255 {
        let sized = open.leaf(
            "dhcp.option.length"@,
            p + 1,
            p + 2,
            ValueView::Unsigned(d[i + 1] as u64),
        );
        assert(written(sized, n)[opt - n].abbrev == "dhcp.option"@);
        assert(under(name, written(sized, n)) == found);
        body_found(d[i], d, i + 2, d[i + 1] as int, at, sized, n, wanted, name, shape);
        let filled = option_body(d[i], d.subrange(i + 2, i + 2 + d[i + 1]), at + (i + 2), sized).0;
        assert(written(filled, n)[opt - n] == written(sized, n)[opt - n]);
    }
}

/// Whatever options a message holds, what is shown under the name of an option
/// is what the options with its code hold, each over its own bytes, and
/// nothing else.
pub proof fn options_are_shown_under_their_names(
    d: Seq<u8>,
    i: int,
    at: int,
    m: Model,
    kind: Option<u8>,
    n: int,
    code: u8,
    name: Seq<char>,
    shape: Shape,
)
    requires
        assigned(code, name, shape),
        0 <= i <= d.len(),
        0 <= n <= m.count(),
    ensures
        under(name, written(options(d, i, at, m, kind).0, n)) == under(name, written(m, n)) + held(
            d,
            i,
            at,
            m.source,
            code,
            name,
            shape,
        ),
        options(d, i, at, m, kind).0.count() >= m.count(),
        options(d, i, at, m, kind).0.source == m.source,
        options(d, i, at, m, kind).0.base == m.base,
        options(d, i, at, m, kind).0.next == m.next,
    decreases d.len() - i,
{
    broadcast use writing, finding;

    apart(code, name, shape);
    let found = under(name, written(m, n));
    assert(found + Seq::empty() =~= found);
    if i < d.len() {
        option_found(d, i, at, m, n, code, name, shape);
        let (next, j, step) = option(d, i, at, m);
        if step is Next {
            let later = if crate::dissect::proto::dhcp::type_at(d, i) is Some {
                crate::dissect::proto::dhcp::type_at(d, i)
            } else {
                kind
            };
            options_are_shown_under_their_names(d, j, at, next, later, n, code, name, shape);
            let rest = held(d, j, at, m.source, code, name, shape);
            if d[i] == code {
                let own = body_fields(d, i + 2, d[i + 1] as int, at, m.source, name, shape);
                assert(found + own + rest =~= found + (own + rest));
            }
        }
    }
}

proof fn header_names()
    ensures
        "dhcp"@.len() == 4,
        "dhcp.option.subnet_mask"@[5] == 'o',
        "dhcp.option.router"@[5] == 'o',
        "dhcp.option.domain_name_server"@[5] == 'o',
        "dhcp.option.hostname"@[5] == 'o',
        "dhcp.option.domain_name"@[5] == 'o',
        "dhcp.option.broadcast_address"@[5] == 'o',
        "dhcp.option.ntp_server"@[5] == 'o',
        "dhcp.option.requested_ip_address"@[5] == 'o',
        "dhcp.option.ip_address_lease_time"@[5] == 'o',
        "dhcp.option.dhcp"@[5] == 'o',
        "dhcp.option.dhcp_server_id"@[5] == 'o',
        "dhcp.option.request_list_item"@[5] == 'o',
        "dhcp.option.dhcp_max_message_size"@[5] == 'o',
        "dhcp.option.renewal_time_value"@[5] == 'o',
        "dhcp.option.rebinding_time_value"@[5] == 'o',
        "dhcp.option.vendor_class_id"@[5] == 'o',
        "dhcp.option.client_id"@[5] == 'o',
        "dhcp.type"@[5] == 't',
        "dhcp.hw.type"@[5] == 'h',
        "dhcp.hw.len"@[5] == 'h',
        "dhcp.hops"@[5] == 'h',
        "dhcp.id"@[5] == 'i',
        "dhcp.secs"@[5] == 's',
        "dhcp.flags"@[5] == 'f',
        "dhcp.flags.bc"@[5] == 'f',
        "dhcp.ip.client"@[5] == 'i',
        "dhcp.ip.your"@[5] == 'i',
        "dhcp.ip.server"@[5] == 'i',
        "dhcp.ip.relay"@[5] == 'i',
        "dhcp.hw.mac_addr"@[5] == 'h',
        "dhcp.hw.addr_padding"@[5] == 'h',
        "dhcp.server"@[5] == 's',
        "dhcp.file"@[5] == 'f',
        "dhcp.cookie"@[5] == 'c',
{
    reveal_strlit("dhcp");
    reveal_strlit("dhcp.option.subnet_mask");
    reveal_strlit("dhcp.option.router");
    reveal_strlit("dhcp.option.domain_name_server");
    reveal_strlit("dhcp.option.hostname");
    reveal_strlit("dhcp.option.domain_name");
    reveal_strlit("dhcp.option.broadcast_address");
    reveal_strlit("dhcp.option.ntp_server");
    reveal_strlit("dhcp.option.requested_ip_address");
    reveal_strlit("dhcp.option.ip_address_lease_time");
    reveal_strlit("dhcp.option.dhcp");
    reveal_strlit("dhcp.option.dhcp_server_id");
    reveal_strlit("dhcp.option.request_list_item");
    reveal_strlit("dhcp.option.dhcp_max_message_size");
    reveal_strlit("dhcp.option.renewal_time_value");
    reveal_strlit("dhcp.option.rebinding_time_value");
    reveal_strlit("dhcp.option.vendor_class_id");
    reveal_strlit("dhcp.option.client_id");
    reveal_strlit("dhcp.type");
    reveal_strlit("dhcp.hw.type");
    reveal_strlit("dhcp.hw.len");
    reveal_strlit("dhcp.hops");
    reveal_strlit("dhcp.id");
    reveal_strlit("dhcp.secs");
    reveal_strlit("dhcp.flags");
    reveal_strlit("dhcp.flags.bc");
    reveal_strlit("dhcp.ip.client");
    reveal_strlit("dhcp.ip.your");
    reveal_strlit("dhcp.ip.server");
    reveal_strlit("dhcp.ip.relay");
    reveal_strlit("dhcp.hw.mac_addr");
    reveal_strlit("dhcp.hw.addr_padding");
    reveal_strlit("dhcp.server");
    reveal_strlit("dhcp.file");
    reveal_strlit("dhcp.cookie");
}

/// The fixed part of a message is shown field by field, each over its own
/// bytes: twelve bytes of numbers and flags, four addresses, the hardware
/// address where it is an Ethernet one, and two texts.
pub proof fn the_fixed_part_is_shown(d: Seq<u8>, m: Model)
    requires
        d.len() >= 236,
    ensures
        ({
            let s = written(header_fields(d, m), m.count());
            &&& s.take(13) == seq![
                over(m, "dhcp"@, 0, d.len() as int, ValueView::Empty),
                over(m, "dhcp.type"@, 0, 1, ValueView::Unsigned(d[0] as u64)),
                over(m, "dhcp.hw.type"@, 1, 2, ValueView::Unsigned(d[1] as u64)),
                over(m, "dhcp.hw.len"@, 2, 3, ValueView::Unsigned(d[2] as u64)),
                over(m, "dhcp.hops"@, 3, 4, ValueView::Unsigned(d[3] as u64)),
                over(m, "dhcp.id"@, 4, 8, ValueView::Unsigned(four(d, 4))),
                over(m, "dhcp.secs"@, 8, 10, ValueView::Unsigned(two(d, 8))),
                over(m, "dhcp.flags"@, 10, 12, ValueView::Unsigned(two(d, 10))),
                over(m, "dhcp.flags.bc"@, 10, 12, ValueView::Bool(two(d, 10) >= 0x8000)),
                over(m, "dhcp.ip.client"@, 12, 16, ValueView::Ipv4(bytes_at(d, 12, 4))),
                over(m, "dhcp.ip.your"@, 16, 20, ValueView::Ipv4(bytes_at(d, 16, 4))),
                over(m, "dhcp.ip.server"@, 20, 24, ValueView::Ipv4(bytes_at(d, 20, 4))),
                over(m, "dhcp.ip.relay"@, 24, 28, ValueView::Ipv4(bytes_at(d, 24, 4))),
            ]
            &&& d[1] == 1 && d[2] == 6 ==> s.len() == 17 && s[13] == over(
                m,
                "dhcp.hw.mac_addr"@,
                28,
                34,
                ValueView::Mac(bytes_at(d, 28, 6)),
            ) && s[14] == over(m, "dhcp.hw.addr_padding"@, 34, 44, ValueView::Bytes)
            &&& !(d[1] == 1 && d[2] == 6) ==> s.len() == 16 && s[13] == over(
                m,
                "dhcp.hw.addr_padding"@,
                28,
                44,
                ValueView::Bytes,
            )
            &&& s[s.len() - 2] == over(
                m,
                "dhcp.server"@,
                44,
                108,
                ValueView::Str(c_text(bytes_at(d, 44, 64))),
            )
            &&& s[s.len() - 1] == over(
                m,
                "dhcp.file"@,
                108,
                236,
                ValueView::Str(c_text(bytes_at(d, 108, 128))),
            )
        }),
        header_fields(d, m).count() == m.count() + if d[1] == 1 && d[2] == 6 {
            17int
        } else {
            16
        },
        header_fields(d, m).source == m.source,
        header_fields(d, m).base == m.base,
        header_fields(d, m).next == m.next,
{
    broadcast use writing;

    let flags = be16(d, 10);
    assert((flags & 0x8000 != 0) == (flags >= 0x8000)) by (bit_vector);
    super::nothing_written(m);
    let s = written(header_fields(d, m), m.count());
    assert(s.len() == header_fields(d, m).count() - m.count());
}

/// A message with the cookie of RFC 2131 shows under the name of an option
/// what its options with that code hold, each over its own bytes, and nothing
/// else.
#[verifier::rlimit(40)]
pub proof fn a_message_shows_its_options(
    d: Seq<u8>,
    m: Model,
    code: u8,
    name: Seq<char>,
    shape: Shape,
)
    requires
        assigned(code, name, shape),
        d.len() >= 240,
        four(d, 236) == 0x6382_5363,
    ensures
        layer(d, m).1 is None,
        under(name, written(layer(d, m).0, m.count())) == held(
            d,
            240,
            m.base,
            m.source,
            code,
            name,
            shape,
        ),
        layer(d, m).0.count() >= m.count(),
        layer(d, m).0.next == m.next,
{
    broadcast use writing, finding;

    header_names();
    let n = m.count();
    let a = m.base;
    super::nothing_written(m);
    the_fixed_part_is_shown(d, m);
    let top = header_fields(d, m);
    let s = written(top, n);
    assert(name.len() > 4 && name[5] == 'o') by {
        names();
    }
    let lead = s.take(13);
    assert forall|i: int| 0 <= i < s.len() implies (#[trigger] s[i]).abbrev != name by {
        if i < 13 {
            assert(s[i] == lead[i]);
            assert(i == 0 || i == 1 || i == 2 || i == 3 || i == 4 || i == 5 || i == 6 || i == 7
                || i == 8 || i == 9 || i == 10 || i == 11 || i == 12);
        } else {
            assert(i == 13 || i == 14 || i == s.len() - 2 || i == s.len() - 1);
        }
    }
    under_none(name, s);
    let cookie = be32(d, 236);
    let marked = top.leaf("dhcp.cookie"@, a + 236, a + 240, ValueView::Unsigned(cookie as u64));
    assert(under(name, written(marked, n)) == Seq::<Field>::empty());
    options_are_shown_under_their_names(d, 240, a, marked, None, n, code, name, shape);
    let list = held(d, 240, a, m.source, code, name, shape);
    assert(Seq::<Field>::empty() + list =~= list);
}

/// No option with code `code` stands at `i` or behind it.
pub open spec fn lacks(d: Seq<u8>, i: int, code: u8) -> bool
    decreases d.len() - i,
{
    !whole(d, i) || d[i] == 255 || d[i] != code && lacks(d, behind(d, i), code)
}

/// The option at `p` is the only one with code `code` from `i` on: it is
/// reached from there, and no other has that code.
pub open spec fn only_at(d: Seq<u8>, i: int, p: int, code: u8) -> bool
    decreases d.len() - i,
{
    &&& whole(d, i)
    &&& d[i] != 255
    &&& if i == p {
        d[i] == code && lacks(d, behind(d, i), code)
    } else {
        d[i] != code && only_at(d, behind(d, i), p, code)
    }
}

proof fn lacking_holds_none(
    d: Seq<u8>,
    i: int,
    at: int,
    source: SourceId,
    code: u8,
    name: Seq<char>,
    shape: Shape,
)
    requires
        lacks(d, i, code),
    ensures
        held(d, i, at, source, code, name, shape) == Seq::<Field>::empty(),
    decreases d.len() - i,
{
    if whole(d, i) && d[i] != 255 {
        lacking_holds_none(d, behind(d, i), at, source, code, name, shape);
    }
}

proof fn one_holds_one(
    d: Seq<u8>,
    i: int,
    p: int,
    at: int,
    source: SourceId,
    code: u8,
    name: Seq<char>,
    shape: Shape,
)
    requires
        only_at(d, i, p, code),
    ensures
        whole(d, p),
        held(d, i, at, source, code, name, shape) == body_fields(
            d,
            p + 2,
            d[p + 1] as int,
            at,
            source,
            name,
            shape,
        ),
    decreases d.len() - i,
{
    if i == p {
        lacking_holds_none(d, behind(d, i), at, source, code, name, shape);
        let own = body_fields(d, p + 2, d[p + 1] as int, at, source, name, shape);
        assert(own + Seq::<Field>::empty() =~= own);
    } else {
        one_holds_one(d, behind(d, i), p, at, source, code, name, shape);
    }
}

/// A message with one subnet mask and one router shows the mask, over the
/// bytes of option 1, as its one `dhcp.option.subnet_mask`, and the router,
/// over the bytes of option 3, as its one `dhcp.option.router`.
pub proof fn masks_and_routers_are_told_apart(d: Seq<u8>, m: Model, p: int, q: int)
    requires
        d.len() >= 240,
        four(d, 236) == 0x6382_5363,
        only_at(d, 240, p, 1),
        only_at(d, 240, q, 3),
        d[p + 1] == 4,
        d[q + 1] == 4,
    ensures
        under("dhcp.option.subnet_mask"@, written(layer(d, m).0, m.count())) == seq![
            over(
                m,
                "dhcp.option.subnet_mask"@,
                p + 2,
                p + 6,
                ValueView::Ipv4(bytes_at(d, p + 2, 4)),
            ),
        ],
        under("dhcp.option.router"@, written(layer(d, m).0, m.count())) == seq![
            over(
                m,
                "dhcp.option.router"@,
                q + 2,
                q + 6,
                ValueView::Ipv4(bytes_at(d, q + 2, 4)),
            ),
        ],
{
    let mask = "dhcp.option.subnet_mask"@;
    let router = "dhcp.option.router"@;
    let shape = Shape::Addresses;
    a_message_shows_its_options(d, m, 1, mask, shape);
    a_message_shows_its_options(d, m, 3, router, shape);
    one_holds_one(d, 240, p, m.base, m.source, 1, mask, shape);
    one_holds_one(d, 240, q, m.base, m.source, 3, router, shape);
    assert(body_fields(d, p + 2, 4, m.base, m.source, mask, shape) =~= seq![
        over(m, mask, p + 2, p + 6, ValueView::Ipv4(bytes_at(d, p + 2, 4))),
    ]);
    assert(body_fields(d, q + 2, 4, m.base, m.source, router, shape) =~= seq![
        over(m, router, q + 2, q + 6, ValueView::Ipv4(bytes_at(d, q + 2, 4))),
    ]);
}

/// What a dissected frame shows of a DHCP message that was found in it: in the
/// rows of that layer, what stands under the name of an option is what the
/// options with its code hold.
pub proof fn a_frame_shows_its_options(
    link_type: LinkType,
    number: u32,
    ts: Timestamp,
    orig_len: u32,
    bytes: Seq<u8>,
    state: StateView,
    asked: Options,
    j: nat,
    code: u8,
    name: Seq<char>,
    shape: Shape,
)
    requires
        tidy(state.reassembly),
        assigned(code, name, shape),
        stop_in(link_type, number, ts, orig_len, bytes, state, asked, j) matches Some(s)
            && s.proto == Proto::Dhcp && s.bytes.len() >= 240 && four(s.bytes, 236)
            == 0x6382_5363,
    ensures
        ({
            let s = stop_in(link_type, number, ts, orig_len, bytes, state, asked, j)->0;
            let m = dissected(link_type, number, ts, orig_len, bytes, state, asked);
            let own = layer(s.bytes, s.found).0.count() - s.found.count();
            &&& s.found.count() + own <= m.count()
            &&& under(name, written(m, s.found.count()).take(own)) == held(
                s.bytes,
                240,
                s.found.base,
                s.found.source,
                code,
                name,
                shape,
            )
        }),
{
    let s = stop_in(link_type, number, ts, orig_len, bytes, state, asked, j)->0;
    a_message_shows_its_options(s.bytes, s.found, code, name, shape);
    layers_stay_in_the_frame(link_type, number, ts, orig_len, bytes, state, asked, j);
}

} // verus!

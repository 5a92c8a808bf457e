//! Which fields a frame shows, where, and with what values.
//!
//! The rows that a dissector writes are read here as a list of fields, and
//! what stands in that list is compared with the bytes of the frame, protocol
//! by protocol.

use vstd::prelude::*;

use super::ctx::{AddrsView, Handoff, Model, Proto};
use super::cursor::SourceId;
use super::expert::{Group, Severity};
use super::node::{Row, ValueView};
use super::proto::checked;
use super::stream::Direction;
use super::{AddrView, SummaryView};

pub mod analysis;
pub mod control;
pub mod dhcp;
pub mod dns;
pub mod edges;
pub mod frame;
pub mod handing;
pub mod http;
pub mod ipv6;
pub mod link;
pub mod neighbors;
pub mod network;
pub mod tls;
pub mod transport;

verus! {

/// A row without its place in the tree: what it is called, where its bytes
/// are, and what they hold.
#[verifier::ext_equal]
pub struct Field {
    pub abbrev: Seq<char>,
    pub source: SourceId,
    pub start: int,
    pub end: int,
    pub value: ValueView,
}

/// A row as a field.
pub open spec fn field(r: Row) -> Field {
    Field { abbrev: r.abbrev, source: r.source, start: r.start, end: r.end, value: r.value }
}

/// The fields in the rows of `m` from row `n` on.
pub open spec fn written(m: Model, n: int) -> Seq<Field> {
    Seq::new((m.count() - n) as nat, |i: int| field(m.trace.rows[n + i]))
}

/// The fields among `s` that are called `name`, in their order.
pub open spec fn under(name: Seq<char>, s: Seq<Field>) -> Seq<Field>
    decreases s.len(),
{
    if s.len() == 0 {
        Seq::empty()
    } else if s.last().abbrev == name {
        under(name, s.drop_last()).push(s.last())
    } else {
        under(name, s.drop_last())
    }
}

/// One more field is found under its own name and no other.
pub broadcast proof fn under_push(name: Seq<char>, s: Seq<Field>, x: Field)
    ensures
        #[trigger] under(name, s.push(x)) == if x.abbrev == name {
            under(name, s).push(x)
        } else {
            under(name, s)
        },
{
    assert(s.push(x).drop_last() =~= s);
}

/// What two lists hold, one list holds.
pub broadcast proof fn under_add(name: Seq<char>, s: Seq<Field>, t: Seq<Field>)
    ensures
        #[trigger] under(name, s + t) == under(name, s) + under(name, t),
    decreases t.len(),
{
    if t.len() == 0 {
        assert(s + t =~= s);
        assert(under(name, t) =~= Seq::empty());
        assert(under(name, s) + under(name, t) =~= under(name, s));
    } else {
        assert((s + t).drop_last() =~= s + t.drop_last());
        under_add(name, s, t.drop_last());
        if t.last().abbrev == name {
            assert((under(name, s) + under(name, t.drop_last())).push(t.last()) =~= under(name, s)
                + under(name, t.drop_last()).push(t.last()));
        }
    }
}

/// A field of another name may change.
pub broadcast proof fn under_update(name: Seq<char>, s: Seq<Field>, k: int, x: Field)
    requires
        0 <= k < s.len(),
        s[k].abbrev != name,
        x.abbrev != name,
    ensures
        #[trigger] under(name, s.update(k, x)) == under(name, s),
    decreases s.len(),
{
    let t = s.update(k, x);
    if k == s.len() - 1 {
        assert(t.drop_last() =~= s.drop_last());
    } else {
        assert(t.drop_last() =~= s.drop_last().update(k, x));
        under_update(name, s.drop_last(), k, x);
    }
}

/// Nothing is found under a name that no field has.
pub proof fn under_none(name: Seq<char>, s: Seq<Field>)
    requires
        forall|i: int| 0 <= i < s.len() ==> (#[trigger] s[i]).abbrev != name,
    ensures
        under(name, s) == Seq::<Field>::empty(),
    decreases s.len(),
{
    if s.len() > 0 {
        under_none(name, s.drop_last());
    }
}

/// All is found under a name that every field has.
pub proof fn under_all(name: Seq<char>, s: Seq<Field>)
    requires
        forall|i: int| 0 <= i < s.len() ==> (#[trigger] s[i]).abbrev == name,
    ensures
        under(name, s) == s,
    decreases s.len(),
{
    if s.len() > 0 {
        under_all(name, s.drop_last());
        assert(s.drop_last().push(s.last()) =~= s);
    } else {
        assert(s =~= Seq::empty());
    }
}

// ---- bytes as numbers -----------------------------------------------------------

/// The `w` bytes from `i` on.
pub open spec fn bytes_at(d: Seq<u8>, i: int, w: int) -> Seq<u8> {
    d.subrange(i, i + w)
}

/// The number in the four bytes at `i`, the highest first.
pub open spec fn four(d: Seq<u8>, i: int) -> u64 {
    (d[i] * 0x100_0000 + d[i + 1] * 0x1_0000 + d[i + 2] * 0x100 + d[i + 3]) as u64
}

/// The number in the two bytes at `i`, the highest first.
pub open spec fn two(d: Seq<u8>, i: int) -> u64 {
    (d[i] * 0x100 + d[i + 1]) as u64
}

/// The bit worth `unit` in the two bytes at `i`.
pub open spec fn bit_of(d: Seq<u8>, i: int, unit: u64) -> bool {
    two(d, i) / unit % 2 == 1
}

/// The number in the byte at `i`.
pub open spec fn byte_at(d: Seq<u8>, i: int) -> ValueView {
    ValueView::Unsigned(d[i] as u64)
}

/// A field over bytes `i..j` of what the dissector sees.
pub open spec fn over(m: Model, name: Seq<char>, i: int, j: int, value: ValueView) -> Field {
    Field { abbrev: name, source: m.source, start: m.base + i, end: m.base + j, value }
}

/// The bytes from `offset` on, at most `len` of them, go to `proto`.
pub open spec fn passes(
    m: Model,
    after: Model,
    proto: Proto,
    offset: int,
    len: Option<int>,
) -> bool {
    after.next matches Some(h) && {
        &&& h.proto == proto
        &&& h.source == m.source
        &&& h.offset == m.base + offset
        &&& match (h.len, len) {
            (None, None) => true,
            (Some(x), Some(y)) => x == y,
            _ => false,
        }
    }
}

// ---- what each operation writes -------------------------------------------------

pub broadcast proof fn leaf_writes(
    m: Model,
    abbrev: Seq<char>,
    start: int,
    end: int,
    value: ValueView,
    n: int,
)
    requires
        0 <= n <= m.count(),
    ensures
        #[trigger] written(m.leaf(abbrev, start, end, value), n) == written(m, n).push(
            Field { abbrev, source: m.source, start, end, value },
        ),
{
    reveal(Model::leaf);
    assert(written(m.leaf(abbrev, start, end, value), n) =~= written(m, n).push(
        Field { abbrev, source: m.source, start, end, value },
    ));
}

pub broadcast proof fn leaf_stays(
    m: Model,
    abbrev: Seq<char>,
    start: int,
    end: int,
    value: ValueView,
)
    ensures
        (#[trigger] m.leaf(abbrev, start, end, value)).count() == m.count() + 1,
        m.leaf(abbrev, start, end, value) == (Model {
            trace: m.leaf(abbrev, start, end, value).trace,
            ..m
        }),
{
    reveal(Model::leaf);
}

pub broadcast proof fn leaf_text_writes(
    m: Model,
    abbrev: Seq<char>,
    start: int,
    end: int,
    value: ValueView,
    text: Seq<char>,
    n: int,
)
    requires
        0 <= n <= m.count(),
    ensures
        #[trigger] written(m.leaf_text(abbrev, start, end, value, text), n) == if abbrev
            == "_ws.malformed"@ {
            noted(
                written(m, n).push(Field { abbrev, source: m.source, start, end, value }),
                m.source,
                start,
                end,
                Severity::Error.rank(),
                Group::Malformed.number(),
            )
        } else {
            written(m, n).push(Field { abbrev, source: m.source, start, end, value })
        },
{
    reveal(Model::leaf_text);
    reveal(Model::record);
    let one = written(m, n).push(Field { abbrev, source: m.source, start, end, value });
    if abbrev == "_ws.malformed"@ {
        assert(written(m.leaf_text(abbrev, start, end, value, text), n) =~= noted(
            one,
            m.source,
            start,
            end,
            Severity::Error.rank(),
            Group::Malformed.number(),
        ));
    } else {
        assert(written(m.leaf_text(abbrev, start, end, value, text), n) =~= one);
    }
}

/// The fields of an expert record behind `s`.
pub open spec fn noted(
    s: Seq<Field>,
    source: SourceId,
    start: int,
    end: int,
    severity: u64,
    group: u64,
) -> Seq<Field> {
    s.push(
        Field { abbrev: "_ws.expert"@, source, start, end, value: ValueView::Empty },
    ).push(
        Field {
            abbrev: "_ws.expert.severity"@,
            source,
            start: 0,
            end: 0,
            value: ValueView::Unsigned(severity),
        },
    ).push(
        Field {
            abbrev: "_ws.expert.group"@,
            source,
            start: 0,
            end: 0,
            value: ValueView::Unsigned(group),
        },
    )
}

pub broadcast proof fn leaf_text_stays(
    m: Model,
    abbrev: Seq<char>,
    start: int,
    end: int,
    value: ValueView,
    text: Seq<char>,
)
    ensures
        (#[trigger] m.leaf_text(abbrev, start, end, value, text)).count() == m.count() + if abbrev
            == "_ws.malformed"@ {
            4int
        } else {
            1
        },
        abbrev != "_ws.malformed"@ ==> m.leaf_text(abbrev, start, end, value, text) == (Model {
            trace: m.leaf_text(abbrev, start, end, value, text).trace,
            ..m
        }),
        m.leaf_text(abbrev, start, end, value, text) == (Model {
            trace: m.leaf_text(abbrev, start, end, value, text).trace,
            summary: m.leaf_text(abbrev, start, end, value, text).summary,
            ..m
        }),
{
    reveal(Model::leaf_text);
    reveal(Model::record);
}

pub broadcast proof fn expert_writes(
    m: Model,
    abbrev: Seq<char>,
    start: int,
    end: int,
    severity: Severity,
    group: Group,
    text: Seq<char>,
    n: int,
)
    requires
        0 <= n <= m.count(),
        abbrev != "_ws.malformed"@,
    ensures
        #[trigger] written(m.expert(abbrev, start, end, severity, group, text), n) == noted(
            written(m, n).push(
                Field { abbrev, source: m.source, start, end, value: ValueView::Empty },
            ),
            m.source,
            start,
            end,
            severity.rank(),
            group.number(),
        ),
        m.expert(abbrev, start, end, severity, group, text).count() == m.count() + 4,
        m.expert(abbrev, start, end, severity, group, text) == (Model {
            trace: m.expert(abbrev, start, end, severity, group, text).trace,
            summary: m.expert(abbrev, start, end, severity, group, text).summary,
            ..m
        }),
{
    reveal(Model::expert);
    reveal(Model::leaf_text);
    reveal(Model::record);
    assert(written(m.expert(abbrev, start, end, severity, group, text), n) =~= noted(
        written(m, n).push(
            Field { abbrev, source: m.source, start, end, value: ValueView::Empty },
        ),
        m.source,
        start,
        end,
        severity.rank(),
        group.number(),
    ));
}

pub broadcast proof fn begin_writes(m: Model, abbrev: Seq<char>, start: int, end: int, n: int)
    requires
        0 <= n <= m.count(),
    ensures
        #[trigger] written(m.begin(abbrev, start, end), n) == written(m, n).push(
            Field { abbrev, source: m.source, start, end, value: ValueView::Empty },
        ),
{
    reveal(Model::begin);
    assert(written(m.begin(abbrev, start, end), n) =~= written(m, n).push(
        Field { abbrev, source: m.source, start, end, value: ValueView::Empty },
    ));
}

pub broadcast proof fn begin_stays(m: Model, abbrev: Seq<char>, start: int, end: int)
    ensures
        (#[trigger] m.begin(abbrev, start, end)).count() == m.count() + 1,
        m.begin(abbrev, start, end) == (Model { trace: m.begin(abbrev, start, end).trace, ..m }),
{
    reveal(Model::begin);
}

pub broadcast proof fn begin_value_writes(
    m: Model,
    abbrev: Seq<char>,
    start: int,
    end: int,
    value: ValueView,
    n: int,
)
    requires
        0 <= n <= m.count(),
    ensures
        #[trigger] written(m.begin_value(abbrev, start, end, value), n) == written(m, n).push(
            Field { abbrev, source: m.source, start, end, value },
        ),
{
    reveal(Model::begin_value);
    assert(written(m.begin_value(abbrev, start, end, value), n) =~= written(m, n).push(
        Field { abbrev, source: m.source, start, end, value },
    ));
}

pub broadcast proof fn begin_value_stays(
    m: Model,
    abbrev: Seq<char>,
    start: int,
    end: int,
    value: ValueView,
)
    ensures
        (#[trigger] m.begin_value(abbrev, start, end, value)).count() == m.count() + 1,
        m.begin_value(abbrev, start, end, value) == (Model {
            trace: m.begin_value(abbrev, start, end, value).trace,
            ..m
        }),
{
    reveal(Model::begin_value);
}

pub broadcast proof fn begin_value_text_writes(
    m: Model,
    abbrev: Seq<char>,
    start: int,
    end: int,
    value: ValueView,
    text: Seq<char>,
    n: int,
)
    requires
        0 <= n <= m.count(),
    ensures
        #[trigger] written(m.begin_value_text(abbrev, start, end, value, text), n) == written(
            m,
            n,
        ).push(Field { abbrev, source: m.source, start, end, value }),
{
    reveal(Model::begin_value_text);
    assert(written(m.begin_value_text(abbrev, start, end, value, text), n) =~= written(m, n).push(
        Field { abbrev, source: m.source, start, end, value },
    ));
}

pub broadcast proof fn begin_value_text_stays(
    m: Model,
    abbrev: Seq<char>,
    start: int,
    end: int,
    value: ValueView,
    text: Seq<char>,
)
    ensures
        (#[trigger] m.begin_value_text(abbrev, start, end, value, text)).count() == m.count() + 1,
        m.begin_value_text(abbrev, start, end, value, text) == (Model {
            trace: m.begin_value_text(abbrev, start, end, value, text).trace,
            ..m
        }),
{
    reveal(Model::begin_value_text);
}

pub broadcast proof fn end_writes(m: Model, n: int)
    ensures
        #[trigger] written(m.end(), n) == written(m, n),
{
    reveal(Model::end);
    assert(written(m.end(), n) =~= written(m, n));
}

pub broadcast proof fn end_stays(m: Model)
    ensures
        (#[trigger] m.end()).count() == m.count(),
        m.end() == (Model { trace: m.end().trace, ..m }),
{
    reveal(Model::end);
}

pub broadcast proof fn end_at_writes(m: Model, id: int, end: int, n: int)
    requires
        0 <= n <= id < m.count(),
    ensures
        #[trigger] written(m.end_at(id, end), n) == written(m, n).update(
            id - n,
            Field { end, ..written(m, n)[id - n] },
        ),
{
    reveal(Model::end_at);
    assert(written(m.end_at(id, end), n) =~= written(m, n).update(
        id - n,
        Field { end, ..written(m, n)[id - n] },
    ));
}

pub broadcast proof fn end_at_stays(m: Model, id: int, end: int)
    requires
        0 <= id < m.count(),
    ensures
        (#[trigger] m.end_at(id, end)).count() == m.count(),
        m.end_at(id, end) == (Model { trace: m.end_at(id, end).trace, ..m }),
{
    reveal(Model::end_at);
}

pub broadcast proof fn set_end_writes(m: Model, id: int, end: int, n: int)
    requires
        0 <= n <= id < m.count(),
    ensures
        #[trigger] written(m.set_end(id, end), n) == written(m, n).update(
            id - n,
            Field { end, ..written(m, n)[id - n] },
        ),
{
    reveal(Model::set_end);
    assert(written(m.set_end(id, end), n) =~= written(m, n).update(
        id - n,
        Field { end, ..written(m, n)[id - n] },
    ));
}

pub broadcast proof fn set_end_stays(m: Model, id: int, end: int)
    requires
        0 <= id < m.count(),
    ensures
        (#[trigger] m.set_end(id, end)).count() == m.count(),
        m.set_end(id, end) == (Model { trace: m.set_end(id, end).trace, ..m }),
{
    reveal(Model::set_end);
}

pub broadcast proof fn set_value_writes(m: Model, id: int, value: ValueView, n: int)
    requires
        0 <= n <= id < m.count(),
    ensures
        #[trigger] written(m.set_value(id, value), n) == written(m, n).update(
            id - n,
            Field { value, ..written(m, n)[id - n] },
        ),
{
    reveal(Model::set_value);
    assert(written(m.set_value(id, value), n) =~= written(m, n).update(
        id - n,
        Field { value, ..written(m, n)[id - n] },
    ));
}

pub broadcast proof fn set_value_stays(m: Model, id: int, value: ValueView)
    ensures
        (#[trigger] m.set_value(id, value)).count() == m.count(),
        m.set_value(id, value) == (Model { trace: m.set_value(id, value).trace, ..m }),
{
    reveal(Model::set_value);
}

pub broadcast proof fn set_text_writes(m: Model, id: int, text: Seq<char>, n: int)
    requires
        0 <= n <= m.count(),
        0 <= id < m.count(),
    ensures
        #[trigger] written(m.set_text(id, text), n) == written(m, n),
{
    reveal(Model::set_text);
    assert(written(m.set_text(id, text), n) =~= written(m, n));
}

pub broadcast proof fn set_text_stays(m: Model, id: int, text: Seq<char>)
    requires
        0 <= id < m.count(),
    ensures
        (#[trigger] m.set_text(id, text)).count() == m.count(),
        m.set_text(id, text) == (Model { trace: m.set_text(id, text).trace, ..m }),
{
    reveal(Model::set_text);
}

pub broadcast proof fn at_depth_writes(m: Model, depth: int, n: int)
    ensures
        #[trigger] written(m.at_depth(depth), n) == written(m, n),
{
    reveal(Model::at_depth);
    assert(written(m.at_depth(depth), n) =~= written(m, n));
}

pub broadcast proof fn at_depth_stays(m: Model, depth: int)
    ensures
        (#[trigger] m.at_depth(depth)).count() == m.count(),
        m.at_depth(depth) == (Model { trace: m.at_depth(depth).trace, ..m }),
{
    reveal(Model::at_depth);
}

pub broadcast proof fn set_protocol_writes(m: Model, name: Seq<char>, n: int)
    ensures
        #[trigger] written(m.set_protocol(name), n) == written(m, n),
{
    reveal(Model::set_protocol);
    reveal(Model::push_protocol);
    reveal(Model::named);
    assert(written(m.set_protocol(name), n) =~= written(m, n));
}

pub broadcast proof fn set_protocol_stays(m: Model, name: Seq<char>)
    ensures
        (#[trigger] m.set_protocol(name)).count() == m.count(),
        m.set_protocol(name) == (Model {
            protocols: m.set_protocol(name).protocols,
            summary: SummaryView { protocol: name, ..m.summary },
            ..m
        }),
{
    reveal(Model::set_protocol);
    reveal(Model::push_protocol);
    reveal(Model::named);
}

pub broadcast proof fn set_info_writes(m: Model, info: Seq<char>, n: int)
    ensures
        #[trigger] written(m.set_info(info), n) == written(m, n),
{
    reveal(Model::set_info);
    assert(written(m.set_info(info), n) =~= written(m, n));
}

pub broadcast proof fn set_info_stays(m: Model, info: Seq<char>)
    ensures
        (#[trigger] m.set_info(info)).count() == m.count(),
        m.set_info(info) == (Model { summary: SummaryView { info, ..m.summary }, ..m }),
{
    reveal(Model::set_info);
}


pub broadcast proof fn begin_text_writes(
    m: Model,
    abbrev: Seq<char>,
    start: int,
    end: int,
    text: Seq<char>,
    n: int,
)
    requires
        0 <= n <= m.count(),
        abbrev != "_ws.malformed"@,
    ensures
        #[trigger] written(m.begin_text(abbrev, start, end, text), n) == written(m, n).push(
            Field { abbrev, source: m.source, start, end, value: ValueView::Empty },
        ),
{
    reveal(Model::begin_text);
    assert(written(m.begin_text(abbrev, start, end, text), n) =~= written(m, n).push(
        Field { abbrev, source: m.source, start, end, value: ValueView::Empty },
    ));
}

pub broadcast proof fn begin_text_stays(
    m: Model,
    abbrev: Seq<char>,
    start: int,
    end: int,
    text: Seq<char>,
)
    requires
        abbrev != "_ws.malformed"@,
    ensures
        (#[trigger] m.begin_text(abbrev, start, end, text)).count() == m.count() + 1,
        m.begin_text(abbrev, start, end, text) == (Model {
            trace: m.begin_text(abbrev, start, end, text).trace,
            ..m
        }),
{
    reveal(Model::begin_text);
}

pub broadcast proof fn between_writes(m: Model, source: AddrView, destination: AddrView, n: int)
    ensures
        #[trigger] written(m.between(source, destination), n) == written(m, n),
{
    reveal(Model::between);
    assert(written(m.between(source, destination), n) =~= written(m, n));
}

pub broadcast proof fn between_stays(m: Model, source: AddrView, destination: AddrView)
    ensures
        (#[trigger] m.between(source, destination)).count() == m.count(),
        m.between(source, destination) == (Model {
            summary: SummaryView { source, destination, ..m.summary },
            ..m
        }),
{
    reveal(Model::between);
}

pub broadcast proof fn with_addrs_writes(m: Model, addrs: Option<AddrsView>, n: int)
    ensures
        #[trigger] written(m.with_addrs(addrs), n) == written(m, n),
{
    reveal(Model::with_addrs);
    assert(written(m.with_addrs(addrs), n) =~= written(m, n));
}

pub broadcast proof fn with_addrs_stays(m: Model, addrs: Option<AddrsView>)
    ensures
        (#[trigger] m.with_addrs(addrs)).count() == m.count(),
        m.with_addrs(addrs) == (Model { addrs, ..m }),
{
    reveal(Model::with_addrs);
}

pub broadcast proof fn with_stream_writes(m: Model, stream: Option<(u32, Direction)>, n: int)
    ensures
        #[trigger] written(m.with_stream(stream), n) == written(m, n),
{
    reveal(Model::with_stream);
    assert(written(m.with_stream(stream), n) =~= written(m, n));
}

pub broadcast proof fn with_stream_stays(m: Model, stream: Option<(u32, Direction)>)
    ensures
        (#[trigger] m.with_stream(stream)).count() == m.count(),
        m.with_stream(stream) == (Model { stream, ..m }),
{
    reveal(Model::with_stream);
}

pub broadcast proof fn push_protocol_writes(m: Model, name: Seq<char>, n: int)
    ensures
        #[trigger] written(m.push_protocol(name), n) == written(m, n),
{
    reveal(Model::push_protocol);
    assert(written(m.push_protocol(name), n) =~= written(m, n));
}

pub broadcast proof fn push_protocol_stays(m: Model, name: Seq<char>)
    ensures
        (#[trigger] m.push_protocol(name)).count() == m.count(),
        m.push_protocol(name) == (Model { protocols: m.push_protocol(name).protocols, ..m }),
{
    reveal(Model::push_protocol);
}

pub broadcast proof fn call_next_writes(m: Model, proto: Proto, offset: int, n: int)
    ensures
        #[trigger] written(m.call_next(proto, offset), n) == written(m, n),
{
    reveal(Model::call_next);
    assert(written(m.call_next(proto, offset), n) =~= written(m, n));
}

pub broadcast proof fn call_next_stays(m: Model, proto: Proto, offset: int)
    ensures
        (#[trigger] m.call_next(proto, offset)).count() == m.count(),
        m.call_next(proto, offset) == (Model {
            next: Some(
                Handoff {
                    proto,
                    source: m.source,
                    offset: (m.base + offset) as usize,
                    len: None,
                },
            ),
            ..m
        }),
{
    reveal(Model::call_next);
}

pub broadcast proof fn call_next_bounded_writes(
    m: Model,
    proto: Proto,
    offset: int,
    len: int,
    n: int,
)
    ensures
        #[trigger] written(m.call_next_bounded(proto, offset, len), n) == written(m, n),
{
    reveal(Model::call_next_bounded);
    assert(written(m.call_next_bounded(proto, offset, len), n) =~= written(m, n));
}

pub broadcast proof fn call_next_bounded_stays(m: Model, proto: Proto, offset: int, len: int)
    ensures
        (#[trigger] m.call_next_bounded(proto, offset, len)).count() == m.count(),
        m.call_next_bounded(proto, offset, len) == (Model {
            next: Some(
                Handoff {
                    proto,
                    source: m.source,
                    offset: (m.base + offset) as usize,
                    len: Some(len as usize),
                },
            ),
            ..m
        }),
{
    reveal(Model::call_next_bounded);
}

/// Names that say nothing of a malformed packet.
pub proof fn not_malformed()
    ensures
        "_ws.checksum.bad"@ != "_ws.malformed"@,
        "vlan"@ != "_ws.malformed"@,
        "ip.options"@ != "_ws.malformed"@,
        "tcp.options"@ != "_ws.malformed"@,
{
    reveal_strlit("_ws.malformed");
    reveal_strlit("_ws.checksum.bad");
    reveal_strlit("vlan");
    reveal_strlit("ip.options");
    reveal_strlit("tcp.options");
    assert("_ws.malformed"@.len() == 13);
    assert("_ws.checksum.bad"@.len() == 16);
    assert("vlan"@.len() == 4);
    assert("ip.options"@.len() == 10);
    assert("tcp.options"@.len() == 11);
}

/// A checksum's verdict is a field, and a wrong checksum a finding behind it.
pub broadcast proof fn checked_writes(
    m: Model,
    abbrev: Seq<char>,
    start: int,
    end: int,
    status: u64,
    n: int,
)
    requires
        0 <= n <= m.count(),
    ensures
        #[trigger] written(checked(m, abbrev, start, end, status), n) == judged(
            written(m, n),
            abbrev,
            m.source,
            start,
            end,
            status,
        ),
{
    broadcast use leaf_writes, leaf_stays, expert_writes;

    not_malformed();
}

/// The fields of a checksum's verdict behind `s`; zero is a wrong checksum.
pub open spec fn judged(
    s: Seq<Field>,
    abbrev: Seq<char>,
    source: SourceId,
    start: int,
    end: int,
    status: u64,
) -> Seq<Field> {
    let s = s.push(Field { abbrev, source, start, end, value: ValueView::Unsigned(status) });
    if status == 0 {
        noted(
            s.push(
                Field {
                    abbrev: "_ws.checksum.bad"@,
                    source,
                    start,
                    end,
                    value: ValueView::Empty,
                },
            ),
            source,
            start,
            end,
            Severity::Error.rank(),
            Group::Checksum.number(),
        )
    } else {
        s
    }
}

pub broadcast proof fn checked_stays(
    m: Model,
    abbrev: Seq<char>,
    start: int,
    end: int,
    status: u64,
)
    ensures
        (#[trigger] checked(m, abbrev, start, end, status)).count() == m.count() + if status == 0 {
            5int
        } else {
            1
        },
        checked(m, abbrev, start, end, status) == (Model {
            trace: checked(m, abbrev, start, end, status).trace,
            summary: SummaryView {
                expert: checked(m, abbrev, start, end, status).summary.expert,
                ..m.summary
            },
            ..m
        }),
{
    not_malformed();
    reveal(Model::leaf);
    reveal(Model::expert);
    reveal(Model::leaf_text);
    reveal(Model::record);
}

pub broadcast group writing {
    begin_text_writes,
    begin_text_stays,
    between_writes,
    between_stays,
    with_addrs_writes,
    with_addrs_stays,
    with_stream_writes,
    with_stream_stays,
    push_protocol_writes,
    push_protocol_stays,
    call_next_writes,
    call_next_stays,
    call_next_bounded_writes,
    call_next_bounded_stays,
    checked_writes,
    checked_stays,

    leaf_writes,
    leaf_stays,
    leaf_text_writes,
    leaf_text_stays,
    expert_writes,
    begin_writes,
    begin_stays,
    begin_value_writes,
    begin_value_stays,
    begin_value_text_writes,
    begin_value_text_stays,
    end_writes,
    end_stays,
    end_at_writes,
    end_at_stays,
    set_end_writes,
    set_end_stays,
    set_value_writes,
    set_value_stays,
    set_text_writes,
    set_text_stays,
    at_depth_writes,
    at_depth_stays,
    set_protocol_writes,
    set_protocol_stays,
    set_info_writes,
    set_info_stays,
}

pub broadcast group finding {
    under_push,
    under_add,
    under_update,
}

/// The list of nothing.
pub proof fn nothing_written(m: Model)
    ensures
        written(m, m.count()) == Seq::<Field>::empty(),
{
    assert(written(m, m.count()) =~= Seq::empty());
}

} // verus!

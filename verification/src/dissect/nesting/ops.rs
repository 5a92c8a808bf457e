//! The operations on a frame being dissected.

use vstd::prelude::*;

use super::{
    fine, kids, kids_none, last_bounds, last_kept, last_pushed, no_parent, opened,
    opened_facts, roomy, roomy_empty, roomy_nowhere, row_ended, row_nested, row_relabelled,
    rows_deeper,
};
use crate::dissect::ctx::{AddrsView, Model, Proto};
use crate::dissect::cursor::SourceId;
use crate::dissect::expert::{Group, Severity};
use crate::dissect::node::{Row, ValueView};
use crate::dissect::proto::{checked, BAD_CHECKSUM};
use crate::dissect::ranges;
use crate::dissect::ranges::{leaf_counts, leaf_text_counts};
use crate::dissect::reassembly::FragKeyView;
use crate::dissect::reporting::ops as reporting;
use crate::dissect::reporting::ops::{leaf_moves, leaf_text_moves};
use crate::dissect::stream::desegment::Origin;
use crate::dissect::stream::table::KeyView;
use crate::dissect::stream::tcp::Segment;
use crate::dissect::stream::{Direction, EndView};
use crate::dissect::{AddrView, SummaryView};

verus! {

pub broadcast proof fn leaf_fine(
    m: Model,
    abbrev: Seq<char>,
    start: int,
    end: int,
    value: ValueView,
)
    requires
        fine(m),
        0 <= m.trace.depth < 250,
        roomy(m, m.trace.depth - 1, m.source, start, end),
    ensures
        #[trigger] fine(m.leaf(abbrev, start, end, value)),
{
    reveal(fine);
    reveal(roomy);
    reveal(Model::leaf);
    let (a, x) = (m.trace.rows, m.leaf(abbrev, start, end, value).trace.rows);
    let k = a.len() as int;
    no_parent(a);
    row_nested(a, x[k]);
    assert(x =~= a.push(x[k]));
}

pub broadcast proof fn leaf_roomy(
    m: Model,
    d: int,
    s: SourceId,
    lo: int,
    hi: int,
    abbrev: Seq<char>,
    start: int,
    end: int,
    value: ValueView,
)
    requires
        0 <= m.trace.depth < 250,
        roomy(m, d, s, lo, hi),
    ensures
        #[trigger] roomy(m.leaf(abbrev, start, end, value), d, s, lo, hi),
{
    reveal(roomy);
    reveal(Model::leaf);
    rows_deeper(m.trace.rows, m.leaf(abbrev, start, end, value).trace.rows, m.trace.depth, d);
    last_bounds(m.trace.rows, d);
}

pub broadcast proof fn leaf_opened(
    m: Model,
    d: int,
    id: int,
    s: SourceId,
    p: int,
    abbrev: Seq<char>,
    start: int,
    end: int,
    value: ValueView,
)
    requires
        0 <= m.trace.depth < 250,
        opened(m, d, id, s, p),
    ensures
        #[trigger] opened(m.leaf(abbrev, start, end, value), d, id, s, p),
{
    reveal(opened);
    reveal(Model::leaf);
    rows_deeper(m.trace.rows, m.leaf(abbrev, start, end, value).trace.rows, m.trace.depth, d);
    last_bounds(m.trace.rows, d);
}

pub broadcast proof fn leaf_kids(
    m: Model,
    id: int,
    s: SourceId,
    lo: int,
    hi: int,
    abbrev: Seq<char>,
    start: int,
    end: int,
    value: ValueView,
)
    requires
        kids(m, id, s, lo, hi),
        id < m.count() ==> m.source != s || start >= end || (lo <= start && end
            <= hi),
    ensures
        #[trigger] kids(m.leaf(abbrev, start, end, value), id, s, lo, hi),
{
    reveal(kids);
    reveal(Model::leaf);
}

pub broadcast proof fn leaf_text_fine(
    m: Model,
    abbrev: Seq<char>,
    start: int,
    end: int,
    value: ValueView,
    text: Seq<char>,
)
    requires
        fine(m),
        0 <= m.trace.depth < 250,
        roomy(m, m.trace.depth - 1, m.source, start, end),
    ensures
        #[trigger] fine(m.leaf_text(abbrev, start, end, value, text)),
{
    reveal(fine);
    reveal(roomy);
    reveal(Model::leaf_text);
    reveal(Model::record);
    let (a, x) = (m.trace.rows, m.leaf_text(abbrev, start, end, value, text).trace.rows);
    let k = a.len() as int;
    no_parent(a);
    row_nested(a, x[k]);
    if abbrev == "_ws.malformed"@ {
        let b = a.push(x[k]);
        last_pushed(a, x[k], x[k + 1].depth - 1);
        last_bounds(a, x[k + 1].depth - 1);
        row_nested(b, x[k + 1]);
        let c = b.push(x[k + 1]);
        row_nested(c, x[k + 2]);
        let e = c.push(x[k + 2]);
        row_nested(e, x[k + 3]);
        assert(x =~= e.push(x[k + 3]));
    } else {
        assert(x =~= a.push(x[k]));
    }
}

pub broadcast proof fn leaf_text_roomy(
    m: Model,
    d: int,
    s: SourceId,
    lo: int,
    hi: int,
    abbrev: Seq<char>,
    start: int,
    end: int,
    value: ValueView,
    text: Seq<char>,
)
    requires
        0 <= m.trace.depth < 250,
        roomy(m, d, s, lo, hi),
    ensures
        #[trigger] roomy(m.leaf_text(abbrev, start, end, value, text), d, s, lo, hi),
{
    reveal(roomy);
    reveal(Model::leaf_text);
    reveal(Model::record);
    rows_deeper(
        m.trace.rows,
        m.leaf_text(abbrev, start, end, value, text).trace.rows,
        m.trace.depth,
        d,
    );
    last_bounds(m.trace.rows, d);
}

pub broadcast proof fn leaf_text_opened(
    m: Model,
    d: int,
    id: int,
    s: SourceId,
    p: int,
    abbrev: Seq<char>,
    start: int,
    end: int,
    value: ValueView,
    text: Seq<char>,
)
    requires
        0 <= m.trace.depth < 250,
        opened(m, d, id, s, p),
    ensures
        #[trigger] opened(m.leaf_text(abbrev, start, end, value, text), d, id, s, p),
{
    reveal(opened);
    reveal(Model::leaf_text);
    reveal(Model::record);
    rows_deeper(
        m.trace.rows,
        m.leaf_text(abbrev, start, end, value, text).trace.rows,
        m.trace.depth,
        d,
    );
    last_bounds(m.trace.rows, d);
}

pub broadcast proof fn leaf_text_kids(
    m: Model,
    id: int,
    s: SourceId,
    lo: int,
    hi: int,
    abbrev: Seq<char>,
    start: int,
    end: int,
    value: ValueView,
    text: Seq<char>,
)
    requires
        kids(m, id, s, lo, hi),
        m.source != s || start >= end || (lo <= start && end <= hi),
    ensures
        #[trigger] kids(m.leaf_text(abbrev, start, end, value, text), id, s, lo, hi),
{
    reveal(kids);
    reveal(Model::leaf_text);
    reveal(Model::record);
}

pub broadcast proof fn begin_fine(m: Model, abbrev: Seq<char>, start: int, end: int)
    requires
        fine(m),
        0 <= m.trace.depth < 250,
        roomy(m, m.trace.depth - 1, m.source, start, end),
    ensures
        #[trigger] fine(m.begin(abbrev, start, end)),
{
    reveal(fine);
    reveal(roomy);
    reveal(Model::begin);
    let (a, x) = (m.trace.rows, m.begin(abbrev, start, end).trace.rows);
    let k = a.len() as int;
    no_parent(a);
    row_nested(a, x[k]);
    assert(x =~= a.push(x[k]));
}

pub broadcast proof fn begin_roomy(
    m: Model,
    d: int,
    s: SourceId,
    lo: int,
    hi: int,
    abbrev: Seq<char>,
    start: int,
    end: int,
)
    requires
        0 <= m.trace.depth < 250,
        d < m.trace.depth ==> roomy(m, d, s, lo, hi),
        d <= m.trace.depth,
        d == m.trace.depth ==> start >= end || m.source != s || (start <= lo && hi <= end) || lo
            >= hi,
    ensures
        #[trigger] roomy(m.begin(abbrev, start, end), d, s, lo, hi),
{
    reveal(roomy);
    reveal(Model::begin);
    rows_deeper(m.trace.rows, m.begin(abbrev, start, end).trace.rows, m.trace.depth, d);
    last_bounds(m.trace.rows, d);
}

pub broadcast proof fn begin_opened(
    m: Model,
    d: int,
    id: int,
    s: SourceId,
    p: int,
    abbrev: Seq<char>,
    start: int,
    end: int,
)
    requires
        0 <= m.trace.depth < 250,
        (d == m.trace.depth && id == m.count() && s == m.source && p == start) || opened(
            m,
            d,
            id,
            s,
            p,
        ),
    ensures
        #[trigger] opened(m.begin(abbrev, start, end), d, id, s, p),
{
    reveal(opened);
    reveal(Model::begin);
    rows_deeper(m.trace.rows, m.begin(abbrev, start, end).trace.rows, m.trace.depth, d);
    last_bounds(m.trace.rows, d);
}

pub broadcast proof fn begin_kids(
    m: Model,
    id: int,
    s: SourceId,
    lo: int,
    hi: int,
    abbrev: Seq<char>,
    start: int,
    end: int,
)
    requires
        kids(m, id, s, lo, hi),
        id < m.count() ==> m.source != s || start >= end || (lo <= start && end
            <= hi),
    ensures
        #[trigger] kids(m.begin(abbrev, start, end), id, s, lo, hi),
{
    reveal(kids);
    reveal(Model::begin);
}

pub broadcast proof fn begin_value_fine(
    m: Model,
    abbrev: Seq<char>,
    start: int,
    end: int,
    value: ValueView,
)
    requires
        fine(m),
        0 <= m.trace.depth < 250,
        roomy(m, m.trace.depth - 1, m.source, start, end),
    ensures
        #[trigger] fine(m.begin_value(abbrev, start, end, value)),
{
    reveal(fine);
    reveal(roomy);
    reveal(Model::begin_value);
    let (a, x) = (m.trace.rows, m.begin_value(abbrev, start, end, value).trace.rows);
    let k = a.len() as int;
    no_parent(a);
    row_nested(a, x[k]);
    assert(x =~= a.push(x[k]));
}

pub broadcast proof fn begin_value_roomy(
    m: Model,
    d: int,
    s: SourceId,
    lo: int,
    hi: int,
    abbrev: Seq<char>,
    start: int,
    end: int,
    value: ValueView,
)
    requires
        0 <= m.trace.depth < 250,
        d < m.trace.depth ==> roomy(m, d, s, lo, hi),
        d <= m.trace.depth,
        d == m.trace.depth ==> start >= end || m.source != s || (start <= lo && hi <= end) || lo
            >= hi,
    ensures
        #[trigger] roomy(m.begin_value(abbrev, start, end, value), d, s, lo, hi),
{
    reveal(roomy);
    reveal(Model::begin_value);
    rows_deeper(
        m.trace.rows,
        m.begin_value(abbrev, start, end, value).trace.rows,
        m.trace.depth,
        d,
    );
    last_bounds(m.trace.rows, d);
}

pub broadcast proof fn begin_value_opened(
    m: Model,
    d: int,
    id: int,
    s: SourceId,
    p: int,
    abbrev: Seq<char>,
    start: int,
    end: int,
    value: ValueView,
)
    requires
        0 <= m.trace.depth < 250,
        (d == m.trace.depth && id == m.count() && s == m.source && p == start) || opened(
            m,
            d,
            id,
            s,
            p,
        ),
    ensures
        #[trigger] opened(m.begin_value(abbrev, start, end, value), d, id, s, p),
{
    reveal(opened);
    reveal(Model::begin_value);
    rows_deeper(
        m.trace.rows,
        m.begin_value(abbrev, start, end, value).trace.rows,
        m.trace.depth,
        d,
    );
    last_bounds(m.trace.rows, d);
}

pub broadcast proof fn begin_value_kids(
    m: Model,
    id: int,
    s: SourceId,
    lo: int,
    hi: int,
    abbrev: Seq<char>,
    start: int,
    end: int,
    value: ValueView,
)
    requires
        kids(m, id, s, lo, hi),
        id < m.count() ==> m.source != s || start >= end || (lo <= start && end
            <= hi),
    ensures
        #[trigger] kids(m.begin_value(abbrev, start, end, value), id, s, lo, hi),
{
    reveal(kids);
    reveal(Model::begin_value);
}

pub broadcast proof fn begin_text_fine(
    m: Model,
    abbrev: Seq<char>,
    start: int,
    end: int,
    text: Seq<char>,
)
    requires
        fine(m),
        0 <= m.trace.depth < 250,
        roomy(m, m.trace.depth - 1, m.source, start, end),
    ensures
        #[trigger] fine(m.begin_text(abbrev, start, end, text)),
{
    reveal(fine);
    reveal(roomy);
    reveal(Model::begin_text);
    reveal(Model::record);
    let (a, x) = (m.trace.rows, m.begin_text(abbrev, start, end, text).trace.rows);
    let k = a.len() as int;
    no_parent(a);
    row_nested(a, x[k]);
    if abbrev == "_ws.malformed"@ {
        let b = a.push(x[k]);
        last_pushed(a, x[k], x[k + 1].depth - 1);
        last_bounds(a, x[k + 1].depth - 1);
        row_nested(b, x[k + 1]);
        let c = b.push(x[k + 1]);
        row_nested(c, x[k + 2]);
        let e = c.push(x[k + 2]);
        row_nested(e, x[k + 3]);
        assert(x =~= e.push(x[k + 3]));
    } else {
        assert(x =~= a.push(x[k]));
    }
}

pub broadcast proof fn begin_text_roomy(
    m: Model,
    d: int,
    s: SourceId,
    lo: int,
    hi: int,
    abbrev: Seq<char>,
    start: int,
    end: int,
    text: Seq<char>,
)
    requires
        0 <= m.trace.depth < 250,
        d < m.trace.depth ==> roomy(m, d, s, lo, hi),
        d <= m.trace.depth,
        d == m.trace.depth ==> start >= end || m.source != s || (start <= lo && hi <= end) || lo
            >= hi,
    ensures
        #[trigger] roomy(m.begin_text(abbrev, start, end, text), d, s, lo, hi),
{
    reveal(roomy);
    reveal(Model::begin_text);
    reveal(Model::record);
    rows_deeper(m.trace.rows, m.begin_text(abbrev, start, end, text).trace.rows, m.trace.depth, d);
    last_bounds(m.trace.rows, d);
}

pub broadcast proof fn begin_text_opened(
    m: Model,
    d: int,
    id: int,
    s: SourceId,
    p: int,
    abbrev: Seq<char>,
    start: int,
    end: int,
    text: Seq<char>,
)
    requires
        0 <= m.trace.depth < 250,
        (d == m.trace.depth && id == m.count() && s == m.source && p == start) || opened(
            m,
            d,
            id,
            s,
            p,
        ),
    ensures
        #[trigger] opened(m.begin_text(abbrev, start, end, text), d, id, s, p),
{
    reveal(opened);
    reveal(Model::begin_text);
    reveal(Model::record);
    rows_deeper(m.trace.rows, m.begin_text(abbrev, start, end, text).trace.rows, m.trace.depth, d);
    last_bounds(m.trace.rows, d);
}

pub broadcast proof fn begin_text_kids(
    m: Model,
    id: int,
    s: SourceId,
    lo: int,
    hi: int,
    abbrev: Seq<char>,
    start: int,
    end: int,
    text: Seq<char>,
)
    requires
        kids(m, id, s, lo, hi),
        m.source != s || start >= end || (lo <= start && end <= hi),
    ensures
        #[trigger] kids(m.begin_text(abbrev, start, end, text), id, s, lo, hi),
{
    reveal(kids);
    reveal(Model::begin_text);
    reveal(Model::record);
}

pub broadcast proof fn begin_value_text_fine(
    m: Model,
    abbrev: Seq<char>,
    start: int,
    end: int,
    value: ValueView,
    text: Seq<char>,
)
    requires
        fine(m),
        0 <= m.trace.depth < 250,
        roomy(m, m.trace.depth - 1, m.source, start, end),
    ensures
        #[trigger] fine(m.begin_value_text(abbrev, start, end, value, text)),
{
    reveal(fine);
    reveal(roomy);
    reveal(Model::begin_value_text);
    let (a, x) = (m.trace.rows, m.begin_value_text(abbrev, start, end, value, text).trace.rows);
    let k = a.len() as int;
    no_parent(a);
    row_nested(a, x[k]);
    assert(x =~= a.push(x[k]));
}

pub broadcast proof fn begin_value_text_roomy(
    m: Model,
    d: int,
    s: SourceId,
    lo: int,
    hi: int,
    abbrev: Seq<char>,
    start: int,
    end: int,
    value: ValueView,
    text: Seq<char>,
)
    requires
        0 <= m.trace.depth < 250,
        d < m.trace.depth ==> roomy(m, d, s, lo, hi),
        d <= m.trace.depth,
        d == m.trace.depth ==> start >= end || m.source != s || (start <= lo && hi <= end) || lo
            >= hi,
    ensures
        #[trigger] roomy(m.begin_value_text(abbrev, start, end, value, text), d, s, lo, hi),
{
    reveal(roomy);
    reveal(Model::begin_value_text);
    rows_deeper(
        m.trace.rows,
        m.begin_value_text(abbrev, start, end, value, text).trace.rows,
        m.trace.depth,
        d,
    );
    last_bounds(m.trace.rows, d);
}

pub broadcast proof fn begin_value_text_opened(
    m: Model,
    d: int,
    id: int,
    s: SourceId,
    p: int,
    abbrev: Seq<char>,
    start: int,
    end: int,
    value: ValueView,
    text: Seq<char>,
)
    requires
        0 <= m.trace.depth < 250,
        (d == m.trace.depth && id == m.count() && s == m.source && p == start) || opened(
            m,
            d,
            id,
            s,
            p,
        ),
    ensures
        #[trigger] opened(m.begin_value_text(abbrev, start, end, value, text), d, id, s, p),
{
    reveal(opened);
    reveal(Model::begin_value_text);
    rows_deeper(
        m.trace.rows,
        m.begin_value_text(abbrev, start, end, value, text).trace.rows,
        m.trace.depth,
        d,
    );
    last_bounds(m.trace.rows, d);
}

pub broadcast proof fn begin_value_text_kids(
    m: Model,
    id: int,
    s: SourceId,
    lo: int,
    hi: int,
    abbrev: Seq<char>,
    start: int,
    end: int,
    value: ValueView,
    text: Seq<char>,
)
    requires
        kids(m, id, s, lo, hi),
        id < m.count() ==> m.source != s || start >= end || (lo <= start && end
            <= hi),
    ensures
        #[trigger] kids(m.begin_value_text(abbrev, start, end, value, text), id, s, lo, hi),
{
    reveal(kids);
    reveal(Model::begin_value_text);
}

pub broadcast proof fn next_taken_fine(m: Model)
    requires
        fine(m),
    ensures
        #[trigger] fine(m.next_taken()),
{
    reveal(fine);
    reveal(Model::next_taken);
}

pub broadcast proof fn next_taken_roomy(m: Model, d: int, s: SourceId, lo: int, hi: int)
    requires
        roomy(m, d, s, lo, hi),
    ensures
        #[trigger] roomy(m.next_taken(), d, s, lo, hi),
{
    reveal(roomy);
    reveal(Model::next_taken);
}

pub broadcast proof fn next_taken_opened(m: Model, d: int, id: int, s: SourceId, p: int)
    requires
        opened(m, d, id, s, p),
    ensures
        #[trigger] opened(m.next_taken(), d, id, s, p),
{
    reveal(opened);
    reveal(Model::next_taken);
}

pub broadcast proof fn next_taken_kids(m: Model, id: int, s: SourceId, lo: int, hi: int)
    requires
        kids(m, id, s, lo, hi),
    ensures
        #[trigger] kids(m.next_taken(), id, s, lo, hi),
{
    reveal(kids);
    reveal(Model::next_taken);
}

pub broadcast proof fn drop_held_fine(m: Model)
    requires
        fine(m),
    ensures
        #[trigger] fine(m.drop_held()),
{
    reveal(fine);
    reveal(Model::drop_held);
}

pub broadcast proof fn drop_held_roomy(m: Model, d: int, s: SourceId, lo: int, hi: int)
    requires
        roomy(m, d, s, lo, hi),
    ensures
        #[trigger] roomy(m.drop_held(), d, s, lo, hi),
{
    reveal(roomy);
    reveal(Model::drop_held);
}

pub broadcast proof fn drop_held_opened(m: Model, d: int, id: int, s: SourceId, p: int)
    requires
        opened(m, d, id, s, p),
    ensures
        #[trigger] opened(m.drop_held(), d, id, s, p),
{
    reveal(opened);
    reveal(Model::drop_held);
}

pub broadcast proof fn drop_held_kids(m: Model, id: int, s: SourceId, lo: int, hi: int)
    requires
        kids(m, id, s, lo, hi),
    ensures
        #[trigger] kids(m.drop_held(), id, s, lo, hi),
{
    reveal(kids);
    reveal(Model::drop_held);
}

pub broadcast proof fn call_next_fine(m: Model, proto: Proto, offset: int)
    requires
        fine(m),
    ensures
        #[trigger] fine(m.call_next(proto, offset)),
{
    reveal(fine);
    reveal(Model::call_next);
}

pub broadcast proof fn call_next_roomy(
    m: Model,
    d: int,
    s: SourceId,
    lo: int,
    hi: int,
    proto: Proto,
    offset: int,
)
    requires
        roomy(m, d, s, lo, hi),
    ensures
        #[trigger] roomy(m.call_next(proto, offset), d, s, lo, hi),
{
    reveal(roomy);
    reveal(Model::call_next);
}

pub broadcast proof fn call_next_opened(
    m: Model,
    d: int,
    id: int,
    s: SourceId,
    p: int,
    proto: Proto,
    offset: int,
)
    requires
        opened(m, d, id, s, p),
    ensures
        #[trigger] opened(m.call_next(proto, offset), d, id, s, p),
{
    reveal(opened);
    reveal(Model::call_next);
}

pub broadcast proof fn call_next_kids(
    m: Model,
    id: int,
    s: SourceId,
    lo: int,
    hi: int,
    proto: Proto,
    offset: int,
)
    requires
        kids(m, id, s, lo, hi),
    ensures
        #[trigger] kids(m.call_next(proto, offset), id, s, lo, hi),
{
    reveal(kids);
    reveal(Model::call_next);
}

pub broadcast proof fn call_next_bounded_fine(m: Model, proto: Proto, offset: int, len: int)
    requires
        fine(m),
    ensures
        #[trigger] fine(m.call_next_bounded(proto, offset, len)),
{
    reveal(fine);
    reveal(Model::call_next_bounded);
}

pub broadcast proof fn call_next_bounded_roomy(
    m: Model,
    d: int,
    s: SourceId,
    lo: int,
    hi: int,
    proto: Proto,
    offset: int,
    len: int,
)
    requires
        roomy(m, d, s, lo, hi),
    ensures
        #[trigger] roomy(m.call_next_bounded(proto, offset, len), d, s, lo, hi),
{
    reveal(roomy);
    reveal(Model::call_next_bounded);
}

pub broadcast proof fn call_next_bounded_opened(
    m: Model,
    d: int,
    id: int,
    s: SourceId,
    p: int,
    proto: Proto,
    offset: int,
    len: int,
)
    requires
        opened(m, d, id, s, p),
    ensures
        #[trigger] opened(m.call_next_bounded(proto, offset, len), d, id, s, p),
{
    reveal(opened);
    reveal(Model::call_next_bounded);
}

pub broadcast proof fn call_next_bounded_kids(
    m: Model,
    id: int,
    s: SourceId,
    lo: int,
    hi: int,
    proto: Proto,
    offset: int,
    len: int,
)
    requires
        kids(m, id, s, lo, hi),
    ensures
        #[trigger] kids(m.call_next_bounded(proto, offset, len), id, s, lo, hi),
{
    reveal(kids);
    reveal(Model::call_next_bounded);
}

pub broadcast proof fn call_next_in_source_fine(m: Model, proto: Proto, source: SourceId)
    requires
        fine(m),
    ensures
        #[trigger] fine(m.call_next_in_source(proto, source)),
{
    reveal(fine);
    reveal(Model::call_next_in_source);
}

pub broadcast proof fn call_next_in_source_roomy(
    m: Model,
    d: int,
    s: SourceId,
    lo: int,
    hi: int,
    proto: Proto,
    source: SourceId,
)
    requires
        roomy(m, d, s, lo, hi),
    ensures
        #[trigger] roomy(m.call_next_in_source(proto, source), d, s, lo, hi),
{
    reveal(roomy);
    reveal(Model::call_next_in_source);
}

pub broadcast proof fn call_next_in_source_opened(
    m: Model,
    d: int,
    id: int,
    s: SourceId,
    p: int,
    proto: Proto,
    source: SourceId,
)
    requires
        opened(m, d, id, s, p),
    ensures
        #[trigger] opened(m.call_next_in_source(proto, source), d, id, s, p),
{
    reveal(opened);
    reveal(Model::call_next_in_source);
}

pub broadcast proof fn call_next_in_source_kids(
    m: Model,
    id: int,
    s: SourceId,
    lo: int,
    hi: int,
    proto: Proto,
    source: SourceId,
)
    requires
        kids(m, id, s, lo, hi),
    ensures
        #[trigger] kids(m.call_next_in_source(proto, source), id, s, lo, hi),
{
    reveal(kids);
    reveal(Model::call_next_in_source);
}

pub broadcast proof fn add_source_fine(m: Model, bytes: Seq<u8>)
    requires
        fine(m),
    ensures
        #[trigger] fine(m.add_source(bytes)),
{
    reveal(fine);
    reveal(Model::add_source);
}

pub broadcast proof fn add_source_roomy(
    m: Model,
    d: int,
    s: SourceId,
    lo: int,
    hi: int,
    bytes: Seq<u8>,
)
    requires
        roomy(m, d, s, lo, hi),
    ensures
        #[trigger] roomy(m.add_source(bytes), d, s, lo, hi),
{
    reveal(roomy);
    reveal(Model::add_source);
}

pub broadcast proof fn add_source_opened(
    m: Model,
    d: int,
    id: int,
    s: SourceId,
    p: int,
    bytes: Seq<u8>,
)
    requires
        opened(m, d, id, s, p),
    ensures
        #[trigger] opened(m.add_source(bytes), d, id, s, p),
{
    reveal(opened);
    reveal(Model::add_source);
}

pub broadcast proof fn add_source_kids(
    m: Model,
    id: int,
    s: SourceId,
    lo: int,
    hi: int,
    bytes: Seq<u8>,
)
    requires
        kids(m, id, s, lo, hi),
    ensures
        #[trigger] kids(m.add_source(bytes), id, s, lo, hi),
{
    reveal(kids);
    reveal(Model::add_source);
}

pub broadcast proof fn in_source_fine(m: Model, source: SourceId)
    requires
        fine(m),
    ensures
        #[trigger] fine(m.in_source(source)),
{
    reveal(fine);
    reveal(Model::in_source);
}

pub broadcast proof fn in_source_roomy(
    m: Model,
    d: int,
    s: SourceId,
    lo: int,
    hi: int,
    source: SourceId,
)
    requires
        roomy(m, d, s, lo, hi),
    ensures
        #[trigger] roomy(m.in_source(source), d, s, lo, hi),
{
    reveal(roomy);
    reveal(Model::in_source);
}

pub broadcast proof fn in_source_opened(
    m: Model,
    d: int,
    id: int,
    s: SourceId,
    p: int,
    source: SourceId,
)
    requires
        opened(m, d, id, s, p),
    ensures
        #[trigger] opened(m.in_source(source), d, id, s, p),
{
    reveal(opened);
    reveal(Model::in_source);
}

pub broadcast proof fn in_source_kids(
    m: Model,
    id: int,
    s: SourceId,
    lo: int,
    hi: int,
    source: SourceId,
)
    requires
        kids(m, id, s, lo, hi),
    ensures
        #[trigger] kids(m.in_source(source), id, s, lo, hi),
{
    reveal(kids);
    reveal(Model::in_source);
}

pub broadcast proof fn with_base_fine(m: Model, base: int)
    requires
        fine(m),
    ensures
        #[trigger] fine(m.with_base(base)),
{
    reveal(fine);
    reveal(Model::with_base);
}

pub broadcast proof fn with_base_roomy(m: Model, d: int, s: SourceId, lo: int, hi: int, base: int)
    requires
        roomy(m, d, s, lo, hi),
    ensures
        #[trigger] roomy(m.with_base(base), d, s, lo, hi),
{
    reveal(roomy);
    reveal(Model::with_base);
}

pub broadcast proof fn with_base_opened(m: Model, d: int, id: int, s: SourceId, p: int, base: int)
    requires
        opened(m, d, id, s, p),
    ensures
        #[trigger] opened(m.with_base(base), d, id, s, p),
{
    reveal(opened);
    reveal(Model::with_base);
}

pub broadcast proof fn with_base_kids(m: Model, id: int, s: SourceId, lo: int, hi: int, base: int)
    requires
        kids(m, id, s, lo, hi),
    ensures
        #[trigger] kids(m.with_base(base), id, s, lo, hi),
{
    reveal(kids);
    reveal(Model::with_base);
}

pub broadcast proof fn nested_fine(m: Model, nesting: u8)
    requires
        fine(m),
    ensures
        #[trigger] fine(m.nested(nesting)),
{
    reveal(fine);
    reveal(Model::nested);
}

pub broadcast proof fn nested_roomy(m: Model, d: int, s: SourceId, lo: int, hi: int, nesting: u8)
    requires
        roomy(m, d, s, lo, hi),
    ensures
        #[trigger] roomy(m.nested(nesting), d, s, lo, hi),
{
    reveal(roomy);
    reveal(Model::nested);
}

pub broadcast proof fn nested_opened(m: Model, d: int, id: int, s: SourceId, p: int, nesting: u8)
    requires
        opened(m, d, id, s, p),
    ensures
        #[trigger] opened(m.nested(nesting), d, id, s, p),
{
    reveal(opened);
    reveal(Model::nested);
}

pub broadcast proof fn nested_kids(m: Model, id: int, s: SourceId, lo: int, hi: int, nesting: u8)
    requires
        kids(m, id, s, lo, hi),
    ensures
        #[trigger] kids(m.nested(nesting), id, s, lo, hi),
{
    reveal(kids);
    reveal(Model::nested);
}

pub broadcast proof fn push_protocol_fine(m: Model, name: Seq<char>)
    requires
        fine(m),
    ensures
        #[trigger] fine(m.push_protocol(name)),
{
    reveal(fine);
    reveal(Model::push_protocol);
}

pub broadcast proof fn push_protocol_roomy(
    m: Model,
    d: int,
    s: SourceId,
    lo: int,
    hi: int,
    name: Seq<char>,
)
    requires
        roomy(m, d, s, lo, hi),
    ensures
        #[trigger] roomy(m.push_protocol(name), d, s, lo, hi),
{
    reveal(roomy);
    reveal(Model::push_protocol);
}

pub broadcast proof fn push_protocol_opened(
    m: Model,
    d: int,
    id: int,
    s: SourceId,
    p: int,
    name: Seq<char>,
)
    requires
        opened(m, d, id, s, p),
    ensures
        #[trigger] opened(m.push_protocol(name), d, id, s, p),
{
    reveal(opened);
    reveal(Model::push_protocol);
}

pub broadcast proof fn push_protocol_kids(
    m: Model,
    id: int,
    s: SourceId,
    lo: int,
    hi: int,
    name: Seq<char>,
)
    requires
        kids(m, id, s, lo, hi),
    ensures
        #[trigger] kids(m.push_protocol(name), id, s, lo, hi),
{
    reveal(kids);
    reveal(Model::push_protocol);
}

pub broadcast proof fn set_protocol_fine(m: Model, name: Seq<char>)
    requires
        fine(m),
    ensures
        #[trigger] fine(m.set_protocol(name)),
{
    reveal(fine);
    reveal(Model::set_protocol);
    reveal(Model::push_protocol);
    reveal(Model::named);
}

pub broadcast proof fn set_protocol_roomy(
    m: Model,
    d: int,
    s: SourceId,
    lo: int,
    hi: int,
    name: Seq<char>,
)
    requires
        roomy(m, d, s, lo, hi),
    ensures
        #[trigger] roomy(m.set_protocol(name), d, s, lo, hi),
{
    reveal(roomy);
    reveal(Model::set_protocol);
    reveal(Model::push_protocol);
    reveal(Model::named);
}

pub broadcast proof fn set_protocol_opened(
    m: Model,
    d: int,
    id: int,
    s: SourceId,
    p: int,
    name: Seq<char>,
)
    requires
        opened(m, d, id, s, p),
    ensures
        #[trigger] opened(m.set_protocol(name), d, id, s, p),
{
    reveal(opened);
    reveal(Model::set_protocol);
    reveal(Model::push_protocol);
    reveal(Model::named);
}

pub broadcast proof fn set_protocol_kids(
    m: Model,
    id: int,
    s: SourceId,
    lo: int,
    hi: int,
    name: Seq<char>,
)
    requires
        kids(m, id, s, lo, hi),
    ensures
        #[trigger] kids(m.set_protocol(name), id, s, lo, hi),
{
    reveal(kids);
    reveal(Model::set_protocol);
    reveal(Model::push_protocol);
    reveal(Model::named);
}

pub broadcast proof fn named_fine(m: Model, name: Seq<char>)
    requires
        fine(m),
    ensures
        #[trigger] fine(m.named(name)),
{
    reveal(fine);
    reveal(Model::named);
}

pub broadcast proof fn named_roomy(m: Model, d: int, s: SourceId, lo: int, hi: int, name: Seq<char>)
    requires
        roomy(m, d, s, lo, hi),
    ensures
        #[trigger] roomy(m.named(name), d, s, lo, hi),
{
    reveal(roomy);
    reveal(Model::named);
}

pub broadcast proof fn named_opened(m: Model, d: int, id: int, s: SourceId, p: int, name: Seq<char>)
    requires
        opened(m, d, id, s, p),
    ensures
        #[trigger] opened(m.named(name), d, id, s, p),
{
    reveal(opened);
    reveal(Model::named);
}

pub broadcast proof fn named_kids(m: Model, id: int, s: SourceId, lo: int, hi: int, name: Seq<char>)
    requires
        kids(m, id, s, lo, hi),
    ensures
        #[trigger] kids(m.named(name), id, s, lo, hi),
{
    reveal(kids);
    reveal(Model::named);
}

pub broadcast proof fn truncate_protocols_fine(m: Model, k: int)
    requires
        fine(m),
    ensures
        #[trigger] fine(m.truncate_protocols(k)),
{
    reveal(fine);
    reveal(Model::truncate_protocols);
}

pub broadcast proof fn truncate_protocols_roomy(
    m: Model,
    d: int,
    s: SourceId,
    lo: int,
    hi: int,
    k: int,
)
    requires
        roomy(m, d, s, lo, hi),
    ensures
        #[trigger] roomy(m.truncate_protocols(k), d, s, lo, hi),
{
    reveal(roomy);
    reveal(Model::truncate_protocols);
}

pub broadcast proof fn truncate_protocols_opened(
    m: Model,
    d: int,
    id: int,
    s: SourceId,
    p: int,
    k: int,
)
    requires
        opened(m, d, id, s, p),
    ensures
        #[trigger] opened(m.truncate_protocols(k), d, id, s, p),
{
    reveal(opened);
    reveal(Model::truncate_protocols);
}

pub broadcast proof fn truncate_protocols_kids(
    m: Model,
    id: int,
    s: SourceId,
    lo: int,
    hi: int,
    k: int,
)
    requires
        kids(m, id, s, lo, hi),
    ensures
        #[trigger] kids(m.truncate_protocols(k), id, s, lo, hi),
{
    reveal(kids);
    reveal(Model::truncate_protocols);
}

pub broadcast proof fn set_info_fine(m: Model, info: Seq<char>)
    requires
        fine(m),
    ensures
        #[trigger] fine(m.set_info(info)),
{
    reveal(fine);
    reveal(Model::set_info);
}

pub broadcast proof fn set_info_roomy(
    m: Model,
    d: int,
    s: SourceId,
    lo: int,
    hi: int,
    info: Seq<char>,
)
    requires
        roomy(m, d, s, lo, hi),
    ensures
        #[trigger] roomy(m.set_info(info), d, s, lo, hi),
{
    reveal(roomy);
    reveal(Model::set_info);
}

pub broadcast proof fn set_info_opened(
    m: Model,
    d: int,
    id: int,
    s: SourceId,
    p: int,
    info: Seq<char>,
)
    requires
        opened(m, d, id, s, p),
    ensures
        #[trigger] opened(m.set_info(info), d, id, s, p),
{
    reveal(opened);
    reveal(Model::set_info);
}

pub broadcast proof fn set_info_kids(
    m: Model,
    id: int,
    s: SourceId,
    lo: int,
    hi: int,
    info: Seq<char>,
)
    requires
        kids(m, id, s, lo, hi),
    ensures
        #[trigger] kids(m.set_info(info), id, s, lo, hi),
{
    reveal(kids);
    reveal(Model::set_info);
}

pub broadcast proof fn between_fine(m: Model, source: AddrView, destination: AddrView)
    requires
        fine(m),
    ensures
        #[trigger] fine(m.between(source, destination)),
{
    reveal(fine);
    reveal(Model::between);
}

pub broadcast proof fn between_roomy(
    m: Model,
    d: int,
    s: SourceId,
    lo: int,
    hi: int,
    source: AddrView,
    destination: AddrView,
)
    requires
        roomy(m, d, s, lo, hi),
    ensures
        #[trigger] roomy(m.between(source, destination), d, s, lo, hi),
{
    reveal(roomy);
    reveal(Model::between);
}

pub broadcast proof fn between_opened(
    m: Model,
    d: int,
    id: int,
    s: SourceId,
    p: int,
    source: AddrView,
    destination: AddrView,
)
    requires
        opened(m, d, id, s, p),
    ensures
        #[trigger] opened(m.between(source, destination), d, id, s, p),
{
    reveal(opened);
    reveal(Model::between);
}

pub broadcast proof fn between_kids(
    m: Model,
    id: int,
    s: SourceId,
    lo: int,
    hi: int,
    source: AddrView,
    destination: AddrView,
)
    requires
        kids(m, id, s, lo, hi),
    ensures
        #[trigger] kids(m.between(source, destination), id, s, lo, hi),
{
    reveal(kids);
    reveal(Model::between);
}

pub broadcast proof fn with_addrs_fine(m: Model, addrs: Option<AddrsView>)
    requires
        fine(m),
    ensures
        #[trigger] fine(m.with_addrs(addrs)),
{
    reveal(fine);
    reveal(Model::with_addrs);
}

pub broadcast proof fn with_addrs_roomy(
    m: Model,
    d: int,
    s: SourceId,
    lo: int,
    hi: int,
    addrs: Option<AddrsView>,
)
    requires
        roomy(m, d, s, lo, hi),
    ensures
        #[trigger] roomy(m.with_addrs(addrs), d, s, lo, hi),
{
    reveal(roomy);
    reveal(Model::with_addrs);
}

pub broadcast proof fn with_addrs_opened(
    m: Model,
    d: int,
    id: int,
    s: SourceId,
    p: int,
    addrs: Option<AddrsView>,
)
    requires
        opened(m, d, id, s, p),
    ensures
        #[trigger] opened(m.with_addrs(addrs), d, id, s, p),
{
    reveal(opened);
    reveal(Model::with_addrs);
}

pub broadcast proof fn with_addrs_kids(
    m: Model,
    id: int,
    s: SourceId,
    lo: int,
    hi: int,
    addrs: Option<AddrsView>,
)
    requires
        kids(m, id, s, lo, hi),
    ensures
        #[trigger] kids(m.with_addrs(addrs), id, s, lo, hi),
{
    reveal(kids);
    reveal(Model::with_addrs);
}

pub broadcast proof fn with_summary_fine(m: Model, summary: SummaryView)
    requires
        fine(m),
    ensures
        #[trigger] fine(m.with_summary(summary)),
{
    reveal(fine);
    reveal(Model::with_summary);
}

pub broadcast proof fn with_summary_roomy(
    m: Model,
    d: int,
    s: SourceId,
    lo: int,
    hi: int,
    summary: SummaryView,
)
    requires
        roomy(m, d, s, lo, hi),
    ensures
        #[trigger] roomy(m.with_summary(summary), d, s, lo, hi),
{
    reveal(roomy);
    reveal(Model::with_summary);
}

pub broadcast proof fn with_summary_opened(
    m: Model,
    d: int,
    id: int,
    s: SourceId,
    p: int,
    summary: SummaryView,
)
    requires
        opened(m, d, id, s, p),
    ensures
        #[trigger] opened(m.with_summary(summary), d, id, s, p),
{
    reveal(opened);
    reveal(Model::with_summary);
}

pub broadcast proof fn with_summary_kids(
    m: Model,
    id: int,
    s: SourceId,
    lo: int,
    hi: int,
    summary: SummaryView,
)
    requires
        kids(m, id, s, lo, hi),
    ensures
        #[trigger] kids(m.with_summary(summary), id, s, lo, hi),
{
    reveal(kids);
    reveal(Model::with_summary);
}

pub broadcast proof fn with_stream_fine(m: Model, stream: Option<(u32, Direction)>)
    requires
        fine(m),
    ensures
        #[trigger] fine(m.with_stream(stream)),
{
    reveal(fine);
    reveal(Model::with_stream);
}

pub broadcast proof fn with_stream_roomy(
    m: Model,
    d: int,
    s: SourceId,
    lo: int,
    hi: int,
    stream: Option<(u32, Direction)>,
)
    requires
        roomy(m, d, s, lo, hi),
    ensures
        #[trigger] roomy(m.with_stream(stream), d, s, lo, hi),
{
    reveal(roomy);
    reveal(Model::with_stream);
}

pub broadcast proof fn with_stream_opened(
    m: Model,
    d: int,
    id: int,
    s: SourceId,
    p: int,
    stream: Option<(u32, Direction)>,
)
    requires
        opened(m, d, id, s, p),
    ensures
        #[trigger] opened(m.with_stream(stream), d, id, s, p),
{
    reveal(opened);
    reveal(Model::with_stream);
}

pub broadcast proof fn with_stream_kids(
    m: Model,
    id: int,
    s: SourceId,
    lo: int,
    hi: int,
    stream: Option<(u32, Direction)>,
)
    requires
        kids(m, id, s, lo, hi),
    ensures
        #[trigger] kids(m.with_stream(stream), id, s, lo, hi),
{
    reveal(kids);
    reveal(Model::with_stream);
}

pub broadcast proof fn with_origin_fine(m: Model, origin: Option<Origin>)
    requires
        fine(m),
    ensures
        #[trigger] fine(m.with_origin(origin)),
{
    reveal(fine);
    reveal(Model::with_origin);
}

pub broadcast proof fn with_origin_roomy(
    m: Model,
    d: int,
    s: SourceId,
    lo: int,
    hi: int,
    origin: Option<Origin>,
)
    requires
        roomy(m, d, s, lo, hi),
    ensures
        #[trigger] roomy(m.with_origin(origin), d, s, lo, hi),
{
    reveal(roomy);
    reveal(Model::with_origin);
}

pub broadcast proof fn with_origin_opened(
    m: Model,
    d: int,
    id: int,
    s: SourceId,
    p: int,
    origin: Option<Origin>,
)
    requires
        opened(m, d, id, s, p),
    ensures
        #[trigger] opened(m.with_origin(origin), d, id, s, p),
{
    reveal(opened);
    reveal(Model::with_origin);
}

pub broadcast proof fn with_origin_kids(
    m: Model,
    id: int,
    s: SourceId,
    lo: int,
    hi: int,
    origin: Option<Origin>,
)
    requires
        kids(m, id, s, lo, hi),
    ensures
        #[trigger] kids(m.with_origin(origin), id, s, lo, hi),
{
    reveal(kids);
    reveal(Model::with_origin);
}

pub broadcast proof fn take_held_fine(m: Model, stream: u32, dir: Direction)
    requires
        fine(m),
    ensures
        #[trigger] fine(m.take_held(stream, dir)),
{
    reveal(fine);
    reveal(Model::take_held);
}

pub broadcast proof fn take_held_roomy(
    m: Model,
    d: int,
    s: SourceId,
    lo: int,
    hi: int,
    stream: u32,
    dir: Direction,
)
    requires
        roomy(m, d, s, lo, hi),
    ensures
        #[trigger] roomy(m.take_held(stream, dir), d, s, lo, hi),
{
    reveal(roomy);
    reveal(Model::take_held);
}

pub broadcast proof fn take_held_opened(
    m: Model,
    d: int,
    id: int,
    s: SourceId,
    p: int,
    stream: u32,
    dir: Direction,
)
    requires
        opened(m, d, id, s, p),
    ensures
        #[trigger] opened(m.take_held(stream, dir), d, id, s, p),
{
    reveal(opened);
    reveal(Model::take_held);
}

pub broadcast proof fn take_held_kids(
    m: Model,
    id: int,
    s: SourceId,
    lo: int,
    hi: int,
    stream: u32,
    dir: Direction,
)
    requires
        kids(m, id, s, lo, hi),
    ensures
        #[trigger] kids(m.take_held(stream, dir), id, s, lo, hi),
{
    reveal(kids);
    reveal(Model::take_held);
}

pub broadcast proof fn hold_fine(m: Model, bytes: Seq<u8>)
    requires
        fine(m),
    ensures
        #[trigger] fine(m.hold(bytes).0),
{
    reveal(fine);
    reveal(Model::hold);
}

pub broadcast proof fn hold_roomy(m: Model, d: int, s: SourceId, lo: int, hi: int, bytes: Seq<u8>)
    requires
        roomy(m, d, s, lo, hi),
    ensures
        #[trigger] roomy(m.hold(bytes).0, d, s, lo, hi),
{
    reveal(roomy);
    reveal(Model::hold);
}

pub broadcast proof fn hold_opened(m: Model, d: int, id: int, s: SourceId, p: int, bytes: Seq<u8>)
    requires
        opened(m, d, id, s, p),
    ensures
        #[trigger] opened(m.hold(bytes).0, d, id, s, p),
{
    reveal(opened);
    reveal(Model::hold);
}

pub broadcast proof fn hold_kids(m: Model, id: int, s: SourceId, lo: int, hi: int, bytes: Seq<u8>)
    requires
        kids(m, id, s, lo, hi),
    ensures
        #[trigger] kids(m.hold(bytes).0, id, s, lo, hi),
{
    reveal(kids);
    reveal(Model::hold);
}

pub broadcast proof fn add_fragment_fine(
    m: Model,
    key: FragKeyView,
    offset: usize,
    more: bool,
    payload: Seq<u8>,
)
    requires
        fine(m),
    ensures
        #[trigger] fine(m.add_fragment(key, offset, more, payload).0),
{
    reveal(fine);
    reveal(Model::add_fragment);
}

pub broadcast proof fn add_fragment_roomy(
    m: Model,
    d: int,
    s: SourceId,
    lo: int,
    hi: int,
    key: FragKeyView,
    offset: usize,
    more: bool,
    payload: Seq<u8>,
)
    requires
        roomy(m, d, s, lo, hi),
    ensures
        #[trigger] roomy(m.add_fragment(key, offset, more, payload).0, d, s, lo, hi),
{
    reveal(roomy);
    reveal(Model::add_fragment);
}

pub broadcast proof fn add_fragment_opened(
    m: Model,
    d: int,
    id: int,
    s: SourceId,
    p: int,
    key: FragKeyView,
    offset: usize,
    more: bool,
    payload: Seq<u8>,
)
    requires
        opened(m, d, id, s, p),
    ensures
        #[trigger] opened(m.add_fragment(key, offset, more, payload).0, d, id, s, p),
{
    reveal(opened);
    reveal(Model::add_fragment);
}

pub broadcast proof fn add_fragment_kids(
    m: Model,
    id: int,
    s: SourceId,
    lo: int,
    hi: int,
    key: FragKeyView,
    offset: usize,
    more: bool,
    payload: Seq<u8>,
)
    requires
        kids(m, id, s, lo, hi),
    ensures
        #[trigger] kids(m.add_fragment(key, offset, more, payload).0, id, s, lo, hi),
{
    reveal(kids);
    reveal(Model::add_fragment);
}

pub broadcast proof fn look_up_fine(m: Model, src: EndView, dst: EndView, proto: u8, fresh: bool)
    requires
        fine(m),
    ensures
        #[trigger] fine(m.look_up(src, dst, proto, fresh).0),
{
    reveal(fine);
    reveal(Model::look_up);
}

pub broadcast proof fn look_up_roomy(
    m: Model,
    d: int,
    s: SourceId,
    lo: int,
    hi: int,
    src: EndView,
    dst: EndView,
    proto: u8,
    fresh: bool,
)
    requires
        roomy(m, d, s, lo, hi),
    ensures
        #[trigger] roomy(m.look_up(src, dst, proto, fresh).0, d, s, lo, hi),
{
    reveal(roomy);
    reveal(Model::look_up);
}

pub broadcast proof fn look_up_opened(
    m: Model,
    d: int,
    id: int,
    s: SourceId,
    p: int,
    src: EndView,
    dst: EndView,
    proto: u8,
    fresh: bool,
)
    requires
        opened(m, d, id, s, p),
    ensures
        #[trigger] opened(m.look_up(src, dst, proto, fresh).0, d, id, s, p),
{
    reveal(opened);
    reveal(Model::look_up);
}

pub broadcast proof fn look_up_kids(
    m: Model,
    id: int,
    s: SourceId,
    lo: int,
    hi: int,
    src: EndView,
    dst: EndView,
    proto: u8,
    fresh: bool,
)
    requires
        kids(m, id, s, lo, hi),
    ensures
        #[trigger] kids(m.look_up(src, dst, proto, fresh).0, id, s, lo, hi),
{
    reveal(kids);
    reveal(Model::look_up);
}

pub broadcast proof fn analyse_fine(m: Model, key: KeyView, w_d: Direction, seg: Segment)
    requires
        fine(m),
    ensures
        #[trigger] fine(m.analyse(key, w_d, seg).0),
{
    reveal(fine);
    reveal(Model::analyse);
}

pub broadcast proof fn analyse_roomy(
    m: Model,
    d: int,
    s: SourceId,
    lo: int,
    hi: int,
    key: KeyView,
    w_d: Direction,
    seg: Segment,
)
    requires
        roomy(m, d, s, lo, hi),
    ensures
        #[trigger] roomy(m.analyse(key, w_d, seg).0, d, s, lo, hi),
{
    reveal(roomy);
    reveal(Model::analyse);
}

pub broadcast proof fn analyse_opened(
    m: Model,
    d: int,
    id: int,
    s: SourceId,
    p: int,
    key: KeyView,
    w_d: Direction,
    seg: Segment,
)
    requires
        opened(m, d, id, s, p),
    ensures
        #[trigger] opened(m.analyse(key, w_d, seg).0, d, id, s, p),
{
    reveal(opened);
    reveal(Model::analyse);
}

pub broadcast proof fn analyse_kids(
    m: Model,
    id: int,
    s: SourceId,
    lo: int,
    hi: int,
    key: KeyView,
    w_d: Direction,
    seg: Segment,
)
    requires
        kids(m, id, s, lo, hi),
    ensures
        #[trigger] kids(m.analyse(key, w_d, seg).0, id, s, lo, hi),
{
    reveal(kids);
    reveal(Model::analyse);
}

pub broadcast proof fn end_fine(m: Model)
    requires
        fine(m),
    ensures
        #[trigger] fine(m.end()),
{
    reveal(fine);
    reveal(Model::end);
}

pub broadcast proof fn end_roomy(m: Model, d: int, s: SourceId, lo: int, hi: int)
    requires
        roomy(m, d, s, lo, hi),
        d < m.trace.depth - 1,
    ensures
        #[trigger] roomy(m.end(), d, s, lo, hi),
{
    reveal(roomy);
    reveal(Model::end);
}

pub broadcast proof fn end_opened(m: Model, d: int, id: int, s: SourceId, p: int)
    requires
        opened(m, d, id, s, p),
        d < m.trace.depth - 1,
    ensures
        #[trigger] opened(m.end(), d, id, s, p),
{
    reveal(opened);
    reveal(Model::end);
}

pub broadcast proof fn end_kids(m: Model, id: int, s: SourceId, lo: int, hi: int)
    requires
        kids(m, id, s, lo, hi),
    ensures
        #[trigger] kids(m.end(), id, s, lo, hi),
{
    reveal(kids);
    reveal(Model::end);
}

pub broadcast proof fn at_depth_fine(m: Model, depth: int)
    requires
        fine(m),
    ensures
        #[trigger] fine(m.at_depth(depth)),
{
    reveal(fine);
    reveal(Model::at_depth);
}

pub broadcast proof fn at_depth_roomy(m: Model, d: int, s: SourceId, lo: int, hi: int, depth: int)
    requires
        roomy(m, d, s, lo, hi),
        d < depth,
    ensures
        #[trigger] roomy(m.at_depth(depth), d, s, lo, hi),
{
    reveal(roomy);
    reveal(Model::at_depth);
}

pub broadcast proof fn at_depth_opened(m: Model, d: int, id: int, s: SourceId, p: int, depth: int)
    requires
        opened(m, d, id, s, p),
        d < depth,
    ensures
        #[trigger] opened(m.at_depth(depth), d, id, s, p),
{
    reveal(opened);
    reveal(Model::at_depth);
}

pub broadcast proof fn at_depth_kids(m: Model, id: int, s: SourceId, lo: int, hi: int, depth: int)
    requires
        kids(m, id, s, lo, hi),
    ensures
        #[trigger] kids(m.at_depth(depth), id, s, lo, hi),
{
    reveal(kids);
    reveal(Model::at_depth);
}

pub proof fn end_at_fine(m: Model, d: int, s: SourceId, p: int, row: int, end: int)
    requires
        fine(m),
        opened(m, d, row, s, p),
        kids(m, row, s, p, end),
        roomy(m, d - 1, s, p, end),
    ensures
        fine(m.end_at(row, end)),
{
    opened_facts(m, d, row, s, p);
    row_ended(m, d, row, s, p, end);
    reveal(fine);
    reveal(Model::end_at);
}

pub broadcast proof fn end_at_roomy(
    m: Model,
    d: int,
    s: SourceId,
    lo: int,
    hi: int,
    row: int,
    end: int,
)
    requires
        roomy(m, d, s, lo, hi),
        0 <= row < m.count(),
        d < m.trace.depth - 1,
        d < m.trace.rows[row].depth,
    ensures
        #[trigger] roomy(m.end_at(row, end), d, s, lo, hi),
{
    reveal(roomy);
    reveal(Model::end_at);
    last_kept(m.trace.rows, row, Row { end: end, ..m.trace.rows[row] }, d);
    last_bounds(m.trace.rows, d);
}

pub broadcast proof fn end_at_opened(
    m: Model,
    d: int,
    id: int,
    s: SourceId,
    p: int,
    row: int,
    end: int,
)
    requires
        opened(m, d, id, s, p),
        0 <= row < m.count(),
        d < m.trace.depth - 1,
    ensures
        #[trigger] opened(m.end_at(row, end), d, id, s, p),
{
    reveal(opened);
    reveal(Model::end_at);
    last_kept(m.trace.rows, row, Row { end: end, ..m.trace.rows[row] }, d);
}

pub broadcast proof fn end_at_kids(
    m: Model,
    id: int,
    s: SourceId,
    lo: int,
    hi: int,
    row: int,
    end: int,
)
    requires
        kids(m, id, s, lo, hi),
        0 <= row < m.count(),
        row <= id || m.trace.rows[row].source != s || m.trace.rows[row].start >= end || (lo
            <= m.trace.rows[row].start && end <= hi),
    ensures
        #[trigger] kids(m.end_at(row, end), id, s, lo, hi),
{
    reveal(kids);
    reveal(Model::end_at);
}

pub broadcast proof fn set_text_fine(m: Model, row: int, text: Seq<char>)
    requires
        fine(m),
        0 <= row < m.count(),
    ensures
        #[trigger] fine(m.set_text(row, text)),
{
    reveal(fine);
    reveal(Model::set_text);
    row_relabelled(m.trace.rows, row, Row { text: Some(text), ..m.trace.rows[row] });
}

pub broadcast proof fn set_text_roomy(
    m: Model,
    d: int,
    s: SourceId,
    lo: int,
    hi: int,
    row: int,
    text: Seq<char>,
)
    requires
        roomy(m, d, s, lo, hi),
        0 <= row < m.count(),
        d < m.trace.depth,
    ensures
        #[trigger] roomy(m.set_text(row, text), d, s, lo, hi),
{
    reveal(roomy);
    reveal(Model::set_text);
    last_kept(m.trace.rows, row, Row { text: Some(text), ..m.trace.rows[row] }, d);
    last_bounds(m.trace.rows, d);
}

pub broadcast proof fn set_text_opened(
    m: Model,
    d: int,
    id: int,
    s: SourceId,
    p: int,
    row: int,
    text: Seq<char>,
)
    requires
        opened(m, d, id, s, p),
        0 <= row < m.count(),
        d < m.trace.depth,
    ensures
        #[trigger] opened(m.set_text(row, text), d, id, s, p),
{
    reveal(opened);
    reveal(Model::set_text);
    last_kept(m.trace.rows, row, Row { text: Some(text), ..m.trace.rows[row] }, d);
}

pub broadcast proof fn set_text_kids(
    m: Model,
    id: int,
    s: SourceId,
    lo: int,
    hi: int,
    row: int,
    text: Seq<char>,
)
    requires
        kids(m, id, s, lo, hi),
        0 <= row < m.count(),
    ensures
        #[trigger] kids(m.set_text(row, text), id, s, lo, hi),
{
    reveal(kids);
    reveal(Model::set_text);
}

pub broadcast proof fn set_value_fine(m: Model, row: int, value: ValueView)
    requires
        fine(m),
    ensures
        #[trigger] fine(m.set_value(row, value)),
{
    reveal(fine);
    reveal(Model::set_value);
    if 0 <= row < m.count() {
        row_relabelled(m.trace.rows, row, Row { value: value, ..m.trace.rows[row] });
    }
}

pub broadcast proof fn set_value_roomy(
    m: Model,
    d: int,
    s: SourceId,
    lo: int,
    hi: int,
    row: int,
    value: ValueView,
)
    requires
        roomy(m, d, s, lo, hi),
        0 <= row < m.count(),
        d < m.trace.depth,
    ensures
        #[trigger] roomy(m.set_value(row, value), d, s, lo, hi),
{
    reveal(roomy);
    reveal(Model::set_value);
    last_kept(m.trace.rows, row, Row { value: value, ..m.trace.rows[row] }, d);
    last_bounds(m.trace.rows, d);
}

pub broadcast proof fn set_value_opened(
    m: Model,
    d: int,
    id: int,
    s: SourceId,
    p: int,
    row: int,
    value: ValueView,
)
    requires
        opened(m, d, id, s, p),
        0 <= row < m.count(),
        d < m.trace.depth,
    ensures
        #[trigger] opened(m.set_value(row, value), d, id, s, p),
{
    reveal(opened);
    reveal(Model::set_value);
    last_kept(m.trace.rows, row, Row { value: value, ..m.trace.rows[row] }, d);
}

pub broadcast proof fn set_value_kids(
    m: Model,
    id: int,
    s: SourceId,
    lo: int,
    hi: int,
    row: int,
    value: ValueView,
)
    requires
        kids(m, id, s, lo, hi),
        0 <= row < m.count(),
    ensures
        #[trigger] kids(m.set_value(row, value), id, s, lo, hi),
{
    reveal(kids);
    reveal(Model::set_value);
}


pub proof fn record_fine(
    m: Model,
    start: int,
    end: int,
    severity: Severity,
    group: Group,
    summary: Seq<char>,
)
    requires
        fine(m),
        0 <= m.trace.depth < 250,
        roomy(m, m.trace.depth - 1, m.source, start, end),
    ensures
        fine(m.record(start, end, severity, group, summary)),
{
    reveal(fine);
    reveal(roomy);
    reveal(Model::record);
    let (a, x) = (m.trace.rows, m.record(start, end, severity, group, summary).trace.rows);
    let k = a.len() as int;
    no_parent(a);
    row_nested(a, x[k]);
    let b = a.push(x[k]);
    row_nested(b, x[k + 1]);
    let c = b.push(x[k + 1]);
    row_nested(c, x[k + 2]);
    assert(x =~= c.push(x[k + 2]));
}

pub broadcast proof fn expert_fine(
    m: Model,
    abbrev: Seq<char>,
    start: int,
    end: int,
    severity: Severity,
    group: Group,
    summary: Seq<char>,
)
    requires
        fine(m),
        0 <= m.trace.depth < 250,
        roomy(m, m.trace.depth - 1, m.source, start, end),
    ensures
        #[trigger] fine(m.expert(abbrev, start, end, severity, group, summary)),
{
    let x = m.leaf_text(abbrev, start, end, ValueView::Empty, summary);
    leaf_text_fine(m, abbrev, start, end, ValueView::Empty, summary);
    leaf_text_roomy(
        m,
        m.trace.depth - 1,
        m.source,
        start,
        end,
        abbrev,
        start,
        end,
        ValueView::Empty,
        summary,
    );
    leaf_text_moves(m, abbrev, start, end, ValueView::Empty, summary);
    leaf_text_counts(m, abbrev, start, end, ValueView::Empty, summary);
    record_fine(x, start, end, severity, group, summary);
    reveal(Model::expert);
}

pub broadcast proof fn expert_roomy(
    m: Model,
    d: int,
    s: SourceId,
    lo: int,
    hi: int,
    abbrev: Seq<char>,
    start: int,
    end: int,
    severity: Severity,
    group: Group,
    summary: Seq<char>,
)
    requires
        0 <= m.trace.depth < 250,
        roomy(m, d, s, lo, hi),
    ensures
        #[trigger] roomy(m.expert(abbrev, start, end, severity, group, summary), d, s, lo, hi),
{
    reveal(roomy);
    reveal(Model::expert);
    reveal(Model::leaf_text);
    reveal(Model::record);
    rows_deeper(
        m.trace.rows,
        m.expert(abbrev, start, end, severity, group, summary).trace.rows,
        m.trace.depth,
        d,
    );
    last_bounds(m.trace.rows, d);
}

pub broadcast proof fn expert_opened(
    m: Model,
    d: int,
    id: int,
    s: SourceId,
    p: int,
    abbrev: Seq<char>,
    start: int,
    end: int,
    severity: Severity,
    group: Group,
    summary: Seq<char>,
)
    requires
        0 <= m.trace.depth < 250,
        opened(m, d, id, s, p),
    ensures
        #[trigger] opened(m.expert(abbrev, start, end, severity, group, summary), d, id, s, p),
{
    reveal(opened);
    reveal(Model::expert);
    reveal(Model::leaf_text);
    reveal(Model::record);
    rows_deeper(
        m.trace.rows,
        m.expert(abbrev, start, end, severity, group, summary).trace.rows,
        m.trace.depth,
        d,
    );
    last_bounds(m.trace.rows, d);
}

pub broadcast proof fn expert_kids(
    m: Model,
    id: int,
    s: SourceId,
    lo: int,
    hi: int,
    abbrev: Seq<char>,
    start: int,
    end: int,
    severity: Severity,
    group: Group,
    summary: Seq<char>,
)
    requires
        kids(m, id, s, lo, hi),
        m.source != s || start >= end || (lo <= start && end <= hi),
    ensures
        #[trigger] kids(m.expert(abbrev, start, end, severity, group, summary), id, s, lo, hi),
{
    reveal(kids);
    reveal(Model::expert);
    reveal(Model::leaf_text);
    reveal(Model::record);
}

pub broadcast proof fn checked_fine(m: Model, abbrev: Seq<char>, start: int, end: int, status: u64)
    requires
        fine(m),
        0 <= m.trace.depth < 250,
        roomy(m, m.trace.depth - 1, m.source, start, end),
    ensures
        #[trigger] fine(checked(m, abbrev, start, end, status)),
{
    let x = m.leaf(abbrev, start, end, ValueView::Unsigned(status));
    leaf_fine(m, abbrev, start, end, ValueView::Unsigned(status));
    leaf_roomy(
        m,
        m.trace.depth - 1,
        m.source,
        start,
        end,
        abbrev,
        start,
        end,
        ValueView::Unsigned(status),
    );
    leaf_moves(m, abbrev, start, end, ValueView::Unsigned(status));
    leaf_counts(m, abbrev, start, end, ValueView::Unsigned(status));
    expert_fine(
        x,
        "_ws.checksum.bad"@,
        start,
        end,
        Severity::Error,
        Group::Checksum,
        BAD_CHECKSUM@,
    );
}

pub broadcast proof fn checked_roomy(
    m: Model,
    d: int,
    s: SourceId,
    lo: int,
    hi: int,
    abbrev: Seq<char>,
    start: int,
    end: int,
    status: u64,
)
    requires
        0 <= m.trace.depth < 250,
        roomy(m, d, s, lo, hi),
    ensures
        #[trigger] roomy(checked(m, abbrev, start, end, status), d, s, lo, hi),
{
    let x = m.leaf(abbrev, start, end, ValueView::Unsigned(status));
    leaf_roomy(m, d, s, lo, hi, abbrev, start, end, ValueView::Unsigned(status));
    leaf_moves(m, abbrev, start, end, ValueView::Unsigned(status));
    expert_roomy(
        x,
        d,
        s,
        lo,
        hi,
        "_ws.checksum.bad"@,
        start,
        end,
        Severity::Error,
        Group::Checksum,
        BAD_CHECKSUM@,
    );
}

pub broadcast proof fn checked_opened(
    m: Model,
    d: int,
    id: int,
    s: SourceId,
    p: int,
    abbrev: Seq<char>,
    start: int,
    end: int,
    status: u64,
)
    requires
        0 <= m.trace.depth < 250,
        opened(m, d, id, s, p),
    ensures
        #[trigger] opened(checked(m, abbrev, start, end, status), d, id, s, p),
{
    let x = m.leaf(abbrev, start, end, ValueView::Unsigned(status));
    leaf_opened(m, d, id, s, p, abbrev, start, end, ValueView::Unsigned(status));
    leaf_moves(m, abbrev, start, end, ValueView::Unsigned(status));
    expert_opened(
        x,
        d,
        id,
        s,
        p,
        "_ws.checksum.bad"@,
        start,
        end,
        Severity::Error,
        Group::Checksum,
        BAD_CHECKSUM@,
    );
}

pub broadcast proof fn checked_kids(
    m: Model,
    id: int,
    s: SourceId,
    lo: int,
    hi: int,
    abbrev: Seq<char>,
    start: int,
    end: int,
    status: u64,
)
    requires
        kids(m, id, s, lo, hi),
        m.source != s || start >= end || (lo <= start && end <= hi),
    ensures
        #[trigger] kids(checked(m, abbrev, start, end, status), id, s, lo, hi),
{
    let x = m.leaf(abbrev, start, end, ValueView::Unsigned(status));
    leaf_kids(m, id, s, lo, hi, abbrev, start, end, ValueView::Unsigned(status));
    leaf_counts(m, abbrev, start, end, ValueView::Unsigned(status));
    expert_kids(
        x,
        id,
        s,
        lo,
        hi,
        "_ws.checksum.bad"@,
        start,
        end,
        Severity::Error,
        Group::Checksum,
        BAD_CHECKSUM@,
    );
}


pub broadcast group moving {
    reporting::leaf_moves,
    reporting::leaf_text_moves,
    reporting::begin_moves,
    reporting::begin_value_moves,
    reporting::begin_text_moves,
    reporting::begin_value_text_moves,
    reporting::end_moves,
    reporting::next_taken_moves,
    reporting::drop_held_moves,
    reporting::at_depth_moves,
    reporting::call_next_moves,
    reporting::call_next_bounded_moves,
    reporting::call_next_in_source_moves,
    reporting::add_source_moves,
    reporting::in_source_moves,
    reporting::with_base_moves,
    reporting::nested_moves,
    reporting::push_protocol_moves,
    reporting::set_protocol_moves,
    reporting::named_moves,
    reporting::truncate_protocols_moves,
    reporting::set_info_moves,
    reporting::between_moves,
    reporting::with_addrs_moves,
    reporting::with_summary_moves,
    reporting::with_stream_moves,
    reporting::with_origin_moves,
    reporting::take_held_moves,
    reporting::hold_moves,
    reporting::add_fragment_moves,
    reporting::look_up_moves,
    reporting::analyse_moves,
    reporting::end_at_moves,
    reporting::set_end_moves,
    reporting::set_text_moves,
    reporting::set_value_moves,
    reporting::expert_moves,
    reporting::checked_moves,
    ranges::leaf_counts,
    ranges::leaf_text_counts,
    ranges::begin_counts,
    ranges::begin_value_counts,
    ranges::begin_text_counts,
    ranges::begin_value_text_counts,
    ranges::end_counts,
    ranges::end_at_counts,
    ranges::set_end_counts,
    ranges::set_text_counts,
    ranges::set_value_counts,
    ranges::at_depth_counts,
    ranges::record_counts,
    ranges::expert_counts,
    ranges::call_next_counts,
    ranges::call_next_bounded_counts,
    ranges::next_taken_counts,
    ranges::push_protocol_counts,
    ranges::set_protocol_counts,
    ranges::named_counts,
    ranges::truncate_protocols_counts,
    ranges::set_info_counts,
    ranges::between_counts,
    ranges::with_addrs_counts,
    ranges::with_summary_counts,
    ranges::with_stream_counts,
    ranges::with_origin_counts,
    ranges::hold_counts,
    ranges::drop_held_counts,
    ranges::take_held_counts,
    ranges::add_fragment_counts,
    ranges::look_up_counts,
    ranges::analyse_counts,
}

pub broadcast group keeping_nested {
    roomy_nowhere,
    roomy_empty,
    kids_none,
    opened_facts,
    leaf_fine,
    leaf_roomy,
    leaf_opened,
    leaf_kids,
    leaf_text_fine,
    leaf_text_roomy,
    leaf_text_opened,
    leaf_text_kids,
    begin_fine,
    begin_roomy,
    begin_opened,
    begin_kids,
    begin_value_fine,
    begin_value_roomy,
    begin_value_opened,
    begin_value_kids,
    begin_text_fine,
    begin_text_roomy,
    begin_text_opened,
    begin_text_kids,
    begin_value_text_fine,
    begin_value_text_roomy,
    begin_value_text_opened,
    begin_value_text_kids,
    next_taken_fine,
    next_taken_roomy,
    next_taken_opened,
    next_taken_kids,
    drop_held_fine,
    drop_held_roomy,
    drop_held_opened,
    drop_held_kids,
    call_next_fine,
    call_next_roomy,
    call_next_opened,
    call_next_kids,
    call_next_bounded_fine,
    call_next_bounded_roomy,
    call_next_bounded_opened,
    call_next_bounded_kids,
    call_next_in_source_fine,
    call_next_in_source_roomy,
    call_next_in_source_opened,
    call_next_in_source_kids,
    add_source_fine,
    add_source_roomy,
    add_source_opened,
    add_source_kids,
    in_source_fine,
    in_source_roomy,
    in_source_opened,
    in_source_kids,
    with_base_fine,
    with_base_roomy,
    with_base_opened,
    with_base_kids,
    nested_fine,
    nested_roomy,
    nested_opened,
    nested_kids,
    push_protocol_fine,
    push_protocol_roomy,
    push_protocol_opened,
    push_protocol_kids,
    set_protocol_fine,
    set_protocol_roomy,
    set_protocol_opened,
    set_protocol_kids,
    named_fine,
    named_roomy,
    named_opened,
    named_kids,
    truncate_protocols_fine,
    truncate_protocols_roomy,
    truncate_protocols_opened,
    truncate_protocols_kids,
    set_info_fine,
    set_info_roomy,
    set_info_opened,
    set_info_kids,
    between_fine,
    between_roomy,
    between_opened,
    between_kids,
    with_addrs_fine,
    with_addrs_roomy,
    with_addrs_opened,
    with_addrs_kids,
    with_summary_fine,
    with_summary_roomy,
    with_summary_opened,
    with_summary_kids,
    with_stream_fine,
    with_stream_roomy,
    with_stream_opened,
    with_stream_kids,
    with_origin_fine,
    with_origin_roomy,
    with_origin_opened,
    with_origin_kids,
    take_held_fine,
    take_held_roomy,
    take_held_opened,
    take_held_kids,
    hold_fine,
    hold_roomy,
    hold_opened,
    hold_kids,
    add_fragment_fine,
    add_fragment_roomy,
    add_fragment_opened,
    add_fragment_kids,
    look_up_fine,
    look_up_roomy,
    look_up_opened,
    look_up_kids,
    analyse_fine,
    analyse_roomy,
    analyse_opened,
    analyse_kids,
    end_fine,
    end_roomy,
    end_opened,
    end_kids,
    at_depth_fine,
    at_depth_roomy,
    at_depth_opened,
    at_depth_kids,
    end_at_roomy,
    end_at_opened,
    end_at_kids,
    set_text_fine,
    set_text_roomy,
    set_text_opened,
    set_text_kids,
    set_value_fine,
    set_value_roomy,
    set_value_opened,
    set_value_kids,
    expert_fine,
    expert_roomy,
    expert_opened,
    expert_kids,
    checked_fine,
    checked_roomy,
    checked_opened,
    checked_kids,
}

} // verus!

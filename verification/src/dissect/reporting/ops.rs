//! The operations on a frame being dissected.

use vstd::prelude::*;

use super::{
    alike, alike_facts, ends_by, ends_first, furthest_pushed, is_report, is_status, level,
    level_facts, level_first, plain, quiet, rank_stays, rest, row_pushed, rows_changed, rows_pushed,
    rows_relabelled, rows_stay, twins, Bases,
};
use crate::dissect::ctx::{AddrsView, Model, Proto};
use crate::dissect::cursor::SourceId;
use crate::dissect::expert::{Group, Severity};
use crate::dissect::node::{deeper, furthest, shallower, Row, ValueView};
use crate::dissect::proto::{checked, BAD_CHECKSUM};
use crate::dissect::reassembly::FragKeyView;
use crate::dissect::stream::desegment::Origin;
use crate::dissect::stream::table::KeyView;
use crate::dissect::stream::tcp::Segment;
use crate::dissect::stream::{Direction, EndView};
use crate::dissect::{AddrView, SummaryView};

verus! {

pub broadcast proof fn leaf_alike(
    bases: Bases,
    m1: Model,
    m2: Model,
    abbrev1: Seq<char>,
    start1: int,
    end1: int,
    value1: ValueView,
    abbrev2: Seq<char>,
    start2: int,
    end2: int,
    value2: ValueView,
)
    requires
        alike(bases, m1, m2),
        abbrev1 == abbrev2,
        start1 == start2,
        end1 == end2,
        value1 == value2,
    ensures
        #[trigger] alike(
            bases,
            m1.leaf(abbrev1, start1, end1, value1),
            m2.leaf(abbrev2, start2, end2, value2),
        ),
{
    reveal(alike);
    reveal(Model::leaf);
    rows_pushed(bases, m1, m2);
}

pub broadcast proof fn leaf_level(
    bases: Bases,
    m1: Model,
    i1: int,
    m2: Model,
    i2: int,
    abbrev1: Seq<char>,
    start1: int,
    end1: int,
    value1: ValueView,
    abbrev2: Seq<char>,
    start2: int,
    end2: int,
    value2: ValueView,
)
    requires
        level(bases, m1, i1, m2, i2),
        alike(bases, m1, m2),
        abbrev1 == abbrev2,
        start1 == start2,
    ensures
        #[trigger] level(
            bases,
            m1.leaf(abbrev1, start1, end1, value1),
            i1,
            m2.leaf(abbrev2, start2, end2, value2),
            i2,
        ),
{
    reveal(level);
    reveal(Model::leaf);
    reveal(alike);
    rows_stay(m1, i1);
    rows_stay(m2, i2);
}

pub broadcast proof fn leaf_ends(
    m: Model,
    i: int,
    e: int,
    abbrev: Seq<char>,
    start: int,
    end: int,
    value: ValueView,
)
    requires
        ends_by(m, i, e),
        i < m.count() || (i == m.count() && end <= e),
    ensures
        #[trigger] ends_by(m.leaf(abbrev, start, end, value), i, e),
{
    reveal(ends_by);
    reveal(Model::leaf);
}

pub broadcast proof fn leaf_moves(
    m: Model,
    abbrev: Seq<char>,
    start: int,
    end: int,
    value: ValueView,
)
    ensures
        (#[trigger] m.leaf(abbrev, start, end, value)).trace.depth == m.trace.depth,
        m.leaf(abbrev, start, end, value).count() >= m.count() + 1,
        m.leaf(abbrev, start, end, value).base == m.base,
{
    reveal(Model::leaf);
}

pub broadcast proof fn leaf_text_alike(
    bases: Bases,
    m1: Model,
    m2: Model,
    abbrev1: Seq<char>,
    start1: int,
    end1: int,
    value1: ValueView,
    text1: Seq<char>,
    abbrev2: Seq<char>,
    start2: int,
    end2: int,
    value2: ValueView,
    text2: Seq<char>,
)
    requires
        alike(bases, m1, m2),
        abbrev1 == abbrev2,
        start1 == start2,
        end1 == end2,
        value1 == value2,
        text1 == text2,
    ensures
        #[trigger] alike(
            bases,
            m1.leaf_text(abbrev1, start1, end1, value1, text1),
            m2.leaf_text(abbrev2, start2, end2, value2, text2),
        ),
{
    reveal(alike);
    reveal(Model::leaf_text);
    reveal(Model::record);
    rows_pushed(bases, m1, m2);
}

pub broadcast proof fn leaf_text_level(
    bases: Bases,
    m1: Model,
    i1: int,
    m2: Model,
    i2: int,
    abbrev1: Seq<char>,
    start1: int,
    end1: int,
    value1: ValueView,
    text1: Seq<char>,
    abbrev2: Seq<char>,
    start2: int,
    end2: int,
    value2: ValueView,
    text2: Seq<char>,
)
    requires
        level(bases, m1, i1, m2, i2),
        alike(bases, m1, m2),
        abbrev1 == abbrev2,
        start1 == start2,
    ensures
        #[trigger] level(
            bases,
            m1.leaf_text(abbrev1, start1, end1, value1, text1),
            i1,
            m2.leaf_text(abbrev2, start2, end2, value2, text2),
            i2,
        ),
{
    reveal(level);
    reveal(Model::leaf_text);
    reveal(Model::record);
    reveal(alike);
    rows_stay(m1, i1);
    rows_stay(m2, i2);
}

pub broadcast proof fn leaf_text_ends(
    m: Model,
    i: int,
    e: int,
    abbrev: Seq<char>,
    start: int,
    end: int,
    value: ValueView,
    text: Seq<char>,
)
    requires
        ends_by(m, i, e),
        i < m.count() || (i == m.count() && end <= e),
    ensures
        #[trigger] ends_by(m.leaf_text(abbrev, start, end, value, text), i, e),
{
    reveal(ends_by);
    reveal(Model::leaf_text);
    reveal(Model::record);
}

pub broadcast proof fn leaf_text_moves(
    m: Model,
    abbrev: Seq<char>,
    start: int,
    end: int,
    value: ValueView,
    text: Seq<char>,
)
    requires
        m.trace.depth < 250,
        0 <= m.trace.depth,
    ensures
        (#[trigger] m.leaf_text(abbrev, start, end, value, text)).trace.depth == m.trace.depth,
        m.leaf_text(abbrev, start, end, value, text).count() >= m.count() + 1,
        m.leaf_text(abbrev, start, end, value, text).base == m.base,
{
    reveal(Model::leaf_text);
    reveal(Model::record);
}

pub broadcast proof fn begin_alike(
    bases: Bases,
    m1: Model,
    m2: Model,
    abbrev1: Seq<char>,
    start1: int,
    end1: int,
    abbrev2: Seq<char>,
    start2: int,
    end2: int,
)
    requires
        alike(bases, m1, m2),
        abbrev1 == abbrev2,
        start1 == start2,
        end1 == end2,
    ensures
        #[trigger] alike(bases, m1.begin(abbrev1, start1, end1), m2.begin(abbrev2, start2, end2)),
{
    reveal(alike);
    reveal(Model::begin);
    rows_pushed(bases, m1, m2);
}

pub broadcast proof fn begin_level(
    bases: Bases,
    m1: Model,
    i1: int,
    m2: Model,
    i2: int,
    abbrev1: Seq<char>,
    start1: int,
    end1: int,
    abbrev2: Seq<char>,
    start2: int,
    end2: int,
)
    requires
        level(bases, m1, i1, m2, i2),
        alike(bases, m1, m2),
        abbrev1 == abbrev2,
        start1 == start2,
    ensures
        #[trigger] level(
            bases,
            m1.begin(abbrev1, start1, end1),
            i1,
            m2.begin(abbrev2, start2, end2),
            i2,
        ),
{
    reveal(level);
    reveal(Model::begin);
    reveal(alike);
    rows_stay(m1, i1);
    rows_stay(m2, i2);
}

pub broadcast proof fn begin_ends(m: Model, i: int, e: int, abbrev: Seq<char>, start: int, end: int)
    requires
        ends_by(m, i, e),
        i < m.count() || (i == m.count() && end <= e),
    ensures
        #[trigger] ends_by(m.begin(abbrev, start, end), i, e),
{
    reveal(ends_by);
    reveal(Model::begin);
}

pub broadcast proof fn begin_moves(m: Model, abbrev: Seq<char>, start: int, end: int)
    ensures
        (#[trigger] m.begin(abbrev, start, end)).trace.depth == deeper(m.trace.depth),
        m.begin(abbrev, start, end).count() >= m.count() + 1,
        m.begin(abbrev, start, end).base == m.base,
{
    reveal(Model::begin);
}

pub broadcast proof fn begin_value_alike(
    bases: Bases,
    m1: Model,
    m2: Model,
    abbrev1: Seq<char>,
    start1: int,
    end1: int,
    value1: ValueView,
    abbrev2: Seq<char>,
    start2: int,
    end2: int,
    value2: ValueView,
)
    requires
        alike(bases, m1, m2),
        abbrev1 == abbrev2,
        start1 == start2,
        end1 == end2,
        value1 == value2,
    ensures
        #[trigger] alike(
            bases,
            m1.begin_value(abbrev1, start1, end1, value1),
            m2.begin_value(abbrev2, start2, end2, value2),
        ),
{
    reveal(alike);
    reveal(Model::begin_value);
    rows_pushed(bases, m1, m2);
}

pub broadcast proof fn begin_value_level(
    bases: Bases,
    m1: Model,
    i1: int,
    m2: Model,
    i2: int,
    abbrev1: Seq<char>,
    start1: int,
    end1: int,
    value1: ValueView,
    abbrev2: Seq<char>,
    start2: int,
    end2: int,
    value2: ValueView,
)
    requires
        level(bases, m1, i1, m2, i2),
        alike(bases, m1, m2),
        abbrev1 == abbrev2,
        start1 == start2,
    ensures
        #[trigger] level(
            bases,
            m1.begin_value(abbrev1, start1, end1, value1),
            i1,
            m2.begin_value(abbrev2, start2, end2, value2),
            i2,
        ),
{
    reveal(level);
    reveal(Model::begin_value);
    reveal(alike);
    rows_stay(m1, i1);
    rows_stay(m2, i2);
}

pub broadcast proof fn begin_value_ends(
    m: Model,
    i: int,
    e: int,
    abbrev: Seq<char>,
    start: int,
    end: int,
    value: ValueView,
)
    requires
        ends_by(m, i, e),
        i < m.count() || (i == m.count() && end <= e),
    ensures
        #[trigger] ends_by(m.begin_value(abbrev, start, end, value), i, e),
{
    reveal(ends_by);
    reveal(Model::begin_value);
}

pub broadcast proof fn begin_value_moves(
    m: Model,
    abbrev: Seq<char>,
    start: int,
    end: int,
    value: ValueView,
)
    ensures
        (#[trigger] m.begin_value(abbrev, start, end, value)).trace.depth == deeper(m.trace.depth),
        m.begin_value(abbrev, start, end, value).count() >= m.count() + 1,
        m.begin_value(abbrev, start, end, value).base == m.base,
{
    reveal(Model::begin_value);
}

pub broadcast proof fn begin_text_alike(
    bases: Bases,
    m1: Model,
    m2: Model,
    abbrev1: Seq<char>,
    start1: int,
    end1: int,
    text1: Seq<char>,
    abbrev2: Seq<char>,
    start2: int,
    end2: int,
    text2: Seq<char>,
)
    requires
        alike(bases, m1, m2),
        abbrev1 == abbrev2,
        start1 == start2,
        end1 == end2,
        text1 == text2,
    ensures
        #[trigger] alike(
            bases,
            m1.begin_text(abbrev1, start1, end1, text1),
            m2.begin_text(abbrev2, start2, end2, text2),
        ),
{
    reveal(alike);
    reveal(Model::begin_text);
    reveal(Model::record);
    rows_pushed(bases, m1, m2);
}

pub broadcast proof fn begin_text_level(
    bases: Bases,
    m1: Model,
    i1: int,
    m2: Model,
    i2: int,
    abbrev1: Seq<char>,
    start1: int,
    end1: int,
    text1: Seq<char>,
    abbrev2: Seq<char>,
    start2: int,
    end2: int,
    text2: Seq<char>,
)
    requires
        level(bases, m1, i1, m2, i2),
        alike(bases, m1, m2),
        abbrev1 == abbrev2,
        start1 == start2,
    ensures
        #[trigger] level(
            bases,
            m1.begin_text(abbrev1, start1, end1, text1),
            i1,
            m2.begin_text(abbrev2, start2, end2, text2),
            i2,
        ),
{
    reveal(level);
    reveal(Model::begin_text);
    reveal(Model::record);
    reveal(alike);
    rows_stay(m1, i1);
    rows_stay(m2, i2);
}

pub broadcast proof fn begin_text_ends(
    m: Model,
    i: int,
    e: int,
    abbrev: Seq<char>,
    start: int,
    end: int,
    text: Seq<char>,
)
    requires
        ends_by(m, i, e),
        i < m.count() || (i == m.count() && end <= e),
    ensures
        #[trigger] ends_by(m.begin_text(abbrev, start, end, text), i, e),
{
    reveal(ends_by);
    reveal(Model::begin_text);
    reveal(Model::record);
}

pub broadcast proof fn begin_text_moves(
    m: Model,
    abbrev: Seq<char>,
    start: int,
    end: int,
    text: Seq<char>,
)
    requires
        m.trace.depth < 250,
        0 <= m.trace.depth,
    ensures
        (#[trigger] m.begin_text(abbrev, start, end, text)).trace.depth == deeper(m.trace.depth),
        m.begin_text(abbrev, start, end, text).count() >= m.count() + 1,
        m.begin_text(abbrev, start, end, text).base == m.base,
{
    reveal(Model::begin_text);
    reveal(Model::record);
}

pub broadcast proof fn begin_value_text_alike(
    bases: Bases,
    m1: Model,
    m2: Model,
    abbrev1: Seq<char>,
    start1: int,
    end1: int,
    value1: ValueView,
    text1: Seq<char>,
    abbrev2: Seq<char>,
    start2: int,
    end2: int,
    value2: ValueView,
    text2: Seq<char>,
)
    requires
        alike(bases, m1, m2),
        abbrev1 == abbrev2,
        start1 == start2,
        end1 == end2,
        value1 == value2,
        text1 == text2,
    ensures
        #[trigger] alike(
            bases,
            m1.begin_value_text(abbrev1, start1, end1, value1, text1),
            m2.begin_value_text(abbrev2, start2, end2, value2, text2),
        ),
{
    reveal(alike);
    reveal(Model::begin_value_text);
    rows_pushed(bases, m1, m2);
}

pub broadcast proof fn begin_value_text_level(
    bases: Bases,
    m1: Model,
    i1: int,
    m2: Model,
    i2: int,
    abbrev1: Seq<char>,
    start1: int,
    end1: int,
    value1: ValueView,
    text1: Seq<char>,
    abbrev2: Seq<char>,
    start2: int,
    end2: int,
    value2: ValueView,
    text2: Seq<char>,
)
    requires
        level(bases, m1, i1, m2, i2),
        alike(bases, m1, m2),
        abbrev1 == abbrev2,
        start1 == start2,
    ensures
        #[trigger] level(
            bases,
            m1.begin_value_text(abbrev1, start1, end1, value1, text1),
            i1,
            m2.begin_value_text(abbrev2, start2, end2, value2, text2),
            i2,
        ),
{
    reveal(level);
    reveal(Model::begin_value_text);
    reveal(alike);
    rows_stay(m1, i1);
    rows_stay(m2, i2);
}

pub broadcast proof fn begin_value_text_ends(
    m: Model,
    i: int,
    e: int,
    abbrev: Seq<char>,
    start: int,
    end: int,
    value: ValueView,
    text: Seq<char>,
)
    requires
        ends_by(m, i, e),
        i < m.count() || (i == m.count() && end <= e),
    ensures
        #[trigger] ends_by(m.begin_value_text(abbrev, start, end, value, text), i, e),
{
    reveal(ends_by);
    reveal(Model::begin_value_text);
}

pub broadcast proof fn begin_value_text_moves(
    m: Model,
    abbrev: Seq<char>,
    start: int,
    end: int,
    value: ValueView,
    text: Seq<char>,
)
    ensures
        (#[trigger] m.begin_value_text(
            abbrev,
            start,
            end,
            value,
            text,
        )).trace.depth == deeper(m.trace.depth),
        m.begin_value_text(abbrev, start, end, value, text).count() >= m.count() + 1,
        m.begin_value_text(abbrev, start, end, value, text).base == m.base,
{
    reveal(Model::begin_value_text);
}

pub broadcast proof fn end_alike(bases: Bases, m1: Model, m2: Model)
    requires
        alike(bases, m1, m2),
    ensures
        #[trigger] alike(bases, m1.end(), m2.end()),
{
    reveal(alike);
    reveal(Model::end);
}

pub broadcast proof fn end_level(bases: Bases, m1: Model, i1: int, m2: Model, i2: int)
    requires
        level(bases, m1, i1, m2, i2),
    ensures
        #[trigger] level(bases, m1.end(), i1, m2.end(), i2),
{
    reveal(level);
    reveal(Model::end);
}

pub broadcast proof fn end_ends(m: Model, i: int, e: int)
    requires
        ends_by(m, i, e),
    ensures
        #[trigger] ends_by(m.end(), i, e),
{
    reveal(ends_by);
    reveal(Model::end);
}

pub broadcast proof fn end_moves(m: Model)
    ensures
        (#[trigger] m.end()).trace.depth == shallower(m.trace.depth),
        m.end().count() == m.count(),
        m.end().base == m.base,
{
    reveal(Model::end);
}

pub broadcast proof fn next_taken_alike(bases: Bases, m1: Model, m2: Model)
    requires
        alike(bases, m1, m2),
    ensures
        #[trigger] alike(bases, m1.next_taken(), m2.next_taken()),
{
    reveal(alike);
    reveal(Model::next_taken);
}

pub broadcast proof fn next_taken_level(bases: Bases, m1: Model, i1: int, m2: Model, i2: int)
    requires
        level(bases, m1, i1, m2, i2),
    ensures
        #[trigger] level(bases, m1.next_taken(), i1, m2.next_taken(), i2),
{
    reveal(level);
    reveal(Model::next_taken);
}

pub broadcast proof fn next_taken_ends(m: Model, i: int, e: int)
    requires
        ends_by(m, i, e),
    ensures
        #[trigger] ends_by(m.next_taken(), i, e),
{
    reveal(ends_by);
    reveal(Model::next_taken);
}

pub broadcast proof fn next_taken_moves(m: Model)
    ensures
        (#[trigger] m.next_taken()).trace.depth == m.trace.depth,
        m.next_taken().count() == m.count(),
        m.next_taken().base == m.base,
{
    reveal(Model::next_taken);
}

pub broadcast proof fn drop_held_alike(bases: Bases, m1: Model, m2: Model)
    requires
        alike(bases, m1, m2),
    ensures
        #[trigger] alike(bases, m1.drop_held(), m2.drop_held()),
{
    reveal(alike);
    reveal(Model::drop_held);
}

pub broadcast proof fn drop_held_level(bases: Bases, m1: Model, i1: int, m2: Model, i2: int)
    requires
        level(bases, m1, i1, m2, i2),
    ensures
        #[trigger] level(bases, m1.drop_held(), i1, m2.drop_held(), i2),
{
    reveal(level);
    reveal(Model::drop_held);
}

pub broadcast proof fn drop_held_ends(m: Model, i: int, e: int)
    requires
        ends_by(m, i, e),
    ensures
        #[trigger] ends_by(m.drop_held(), i, e),
{
    reveal(ends_by);
    reveal(Model::drop_held);
}

pub broadcast proof fn drop_held_moves(m: Model)
    ensures
        (#[trigger] m.drop_held()).trace.depth == m.trace.depth,
        m.drop_held().count() == m.count(),
        m.drop_held().base == m.base,
{
    reveal(Model::drop_held);
}

pub broadcast proof fn at_depth_alike(bases: Bases, m1: Model, m2: Model, depth1: int, depth2: int)
    requires
        alike(bases, m1, m2),
        depth1 == depth2,
    ensures
        #[trigger] alike(bases, m1.at_depth(depth1), m2.at_depth(depth2)),
{
    reveal(alike);
    reveal(Model::at_depth);
}

pub broadcast proof fn at_depth_level(
    bases: Bases,
    m1: Model,
    i1: int,
    m2: Model,
    i2: int,
    depth1: int,
    depth2: int,
)
    requires
        level(bases, m1, i1, m2, i2),
    ensures
        #[trigger] level(bases, m1.at_depth(depth1), i1, m2.at_depth(depth2), i2),
{
    reveal(level);
    reveal(Model::at_depth);
}

pub broadcast proof fn at_depth_ends(m: Model, i: int, e: int, depth: int)
    requires
        ends_by(m, i, e),
    ensures
        #[trigger] ends_by(m.at_depth(depth), i, e),
{
    reveal(ends_by);
    reveal(Model::at_depth);
}

pub broadcast proof fn at_depth_moves(m: Model, depth: int)
    ensures
        (#[trigger] m.at_depth(depth)).trace.depth == depth,
        m.at_depth(depth).count() == m.count(),
        m.at_depth(depth).base == m.base,
{
    reveal(Model::at_depth);
}

pub broadcast proof fn call_next_alike(
    bases: Bases,
    m1: Model,
    m2: Model,
    proto1: Proto,
    offset1: int,
    proto2: Proto,
    offset2: int,
)
    requires
        alike(bases, m1, m2),
        proto1 == proto2,
        offset1 == offset2,
    ensures
        #[trigger] alike(bases, m1.call_next(proto1, offset1), m2.call_next(proto2, offset2)),
{
    reveal(alike);
    reveal(Model::call_next);
}

pub broadcast proof fn call_next_level(
    bases: Bases,
    m1: Model,
    i1: int,
    m2: Model,
    i2: int,
    proto1: Proto,
    offset1: int,
    proto2: Proto,
    offset2: int,
)
    requires
        level(bases, m1, i1, m2, i2),
    ensures
        #[trigger] level(
            bases,
            m1.call_next(proto1, offset1),
            i1,
            m2.call_next(proto2, offset2),
            i2,
        ),
{
    reveal(level);
    reveal(Model::call_next);
}

pub broadcast proof fn call_next_ends(m: Model, i: int, e: int, proto: Proto, offset: int)
    requires
        ends_by(m, i, e),
    ensures
        #[trigger] ends_by(m.call_next(proto, offset), i, e),
{
    reveal(ends_by);
    reveal(Model::call_next);
}

pub broadcast proof fn call_next_moves(m: Model, proto: Proto, offset: int)
    ensures
        (#[trigger] m.call_next(proto, offset)).trace.depth == m.trace.depth,
        m.call_next(proto, offset).count() == m.count(),
        m.call_next(proto, offset).base == m.base,
{
    reveal(Model::call_next);
}

pub broadcast proof fn call_next_bounded_alike(
    bases: Bases,
    m1: Model,
    m2: Model,
    proto1: Proto,
    offset1: int,
    len1: int,
    proto2: Proto,
    offset2: int,
    len2: int,
)
    requires
        alike(bases, m1, m2),
        proto1 == proto2,
        offset1 == offset2,
        len1 == len2,
    ensures
        #[trigger] alike(
            bases,
            m1.call_next_bounded(proto1, offset1, len1),
            m2.call_next_bounded(proto2, offset2, len2),
        ),
{
    reveal(alike);
    reveal(Model::call_next_bounded);
}

pub broadcast proof fn call_next_bounded_level(
    bases: Bases,
    m1: Model,
    i1: int,
    m2: Model,
    i2: int,
    proto1: Proto,
    offset1: int,
    len1: int,
    proto2: Proto,
    offset2: int,
    len2: int,
)
    requires
        level(bases, m1, i1, m2, i2),
    ensures
        #[trigger] level(
            bases,
            m1.call_next_bounded(proto1, offset1, len1),
            i1,
            m2.call_next_bounded(proto2, offset2, len2),
            i2,
        ),
{
    reveal(level);
    reveal(Model::call_next_bounded);
}

pub broadcast proof fn call_next_bounded_ends(
    m: Model,
    i: int,
    e: int,
    proto: Proto,
    offset: int,
    len: int,
)
    requires
        ends_by(m, i, e),
    ensures
        #[trigger] ends_by(m.call_next_bounded(proto, offset, len), i, e),
{
    reveal(ends_by);
    reveal(Model::call_next_bounded);
}

pub broadcast proof fn call_next_bounded_moves(m: Model, proto: Proto, offset: int, len: int)
    ensures
        (#[trigger] m.call_next_bounded(proto, offset, len)).trace.depth == m.trace.depth,
        m.call_next_bounded(proto, offset, len).count() == m.count(),
        m.call_next_bounded(proto, offset, len).base == m.base,
{
    reveal(Model::call_next_bounded);
}

pub broadcast proof fn call_next_in_source_alike(
    bases: Bases,
    m1: Model,
    m2: Model,
    proto1: Proto,
    source1: SourceId,
    proto2: Proto,
    source2: SourceId,
)
    requires
        alike(bases, m1, m2),
        proto1 == proto2,
        source1 == source2,
    ensures
        #[trigger] alike(
            bases,
            m1.call_next_in_source(proto1, source1),
            m2.call_next_in_source(proto2, source2),
        ),
{
    reveal(alike);
    reveal(Model::call_next_in_source);
}

pub broadcast proof fn call_next_in_source_level(
    bases: Bases,
    m1: Model,
    i1: int,
    m2: Model,
    i2: int,
    proto1: Proto,
    source1: SourceId,
    proto2: Proto,
    source2: SourceId,
)
    requires
        level(bases, m1, i1, m2, i2),
    ensures
        #[trigger] level(
            bases,
            m1.call_next_in_source(proto1, source1),
            i1,
            m2.call_next_in_source(proto2, source2),
            i2,
        ),
{
    reveal(level);
    reveal(Model::call_next_in_source);
}

pub broadcast proof fn call_next_in_source_ends(
    m: Model,
    i: int,
    e: int,
    proto: Proto,
    source: SourceId,
)
    requires
        ends_by(m, i, e),
    ensures
        #[trigger] ends_by(m.call_next_in_source(proto, source), i, e),
{
    reveal(ends_by);
    reveal(Model::call_next_in_source);
}

pub broadcast proof fn call_next_in_source_moves(m: Model, proto: Proto, source: SourceId)
    ensures
        (#[trigger] m.call_next_in_source(proto, source)).trace.depth == m.trace.depth,
        m.call_next_in_source(proto, source).count() == m.count(),
        m.call_next_in_source(proto, source).base == m.base,
{
    reveal(Model::call_next_in_source);
}

pub broadcast proof fn add_source_alike(
    bases: Bases,
    m1: Model,
    m2: Model,
    bytes1: Seq<u8>,
    bytes2: Seq<u8>,
)
    requires
        alike(bases, m1, m2),
        bytes1 == bytes2,
    ensures
        #[trigger] alike(bases, m1.add_source(bytes1), m2.add_source(bytes2)),
{
    reveal(alike);
    reveal(Model::add_source);
}

pub broadcast proof fn add_source_level(
    bases: Bases,
    m1: Model,
    i1: int,
    m2: Model,
    i2: int,
    bytes1: Seq<u8>,
    bytes2: Seq<u8>,
)
    requires
        level(bases, m1, i1, m2, i2),
    ensures
        #[trigger] level(bases, m1.add_source(bytes1), i1, m2.add_source(bytes2), i2),
{
    reveal(level);
    reveal(Model::add_source);
}

pub broadcast proof fn add_source_ends(m: Model, i: int, e: int, bytes: Seq<u8>)
    requires
        ends_by(m, i, e),
    ensures
        #[trigger] ends_by(m.add_source(bytes), i, e),
{
    reveal(ends_by);
    reveal(Model::add_source);
}

pub broadcast proof fn add_source_moves(m: Model, bytes: Seq<u8>)
    ensures
        (#[trigger] m.add_source(bytes)).trace.depth == m.trace.depth,
        m.add_source(bytes).count() == m.count(),
        m.add_source(bytes).base == m.base,
{
    reveal(Model::add_source);
}

pub broadcast proof fn in_source_alike(
    bases: Bases,
    m1: Model,
    m2: Model,
    source1: SourceId,
    source2: SourceId,
)
    requires
        alike(bases, m1, m2),
        source1 == source2,
    ensures
        #[trigger] alike(bases, m1.in_source(source1), m2.in_source(source2)),
{
    reveal(alike);
    reveal(Model::in_source);
}

pub broadcast proof fn in_source_level(
    bases: Bases,
    m1: Model,
    i1: int,
    m2: Model,
    i2: int,
    source1: SourceId,
    source2: SourceId,
)
    requires
        level(bases, m1, i1, m2, i2),
    ensures
        #[trigger] level(bases, m1.in_source(source1), i1, m2.in_source(source2), i2),
{
    reveal(level);
    reveal(Model::in_source);
}

pub broadcast proof fn in_source_ends(m: Model, i: int, e: int, source: SourceId)
    requires
        ends_by(m, i, e),
    ensures
        #[trigger] ends_by(m.in_source(source), i, e),
{
    reveal(ends_by);
    reveal(Model::in_source);
}

pub broadcast proof fn in_source_moves(m: Model, source: SourceId)
    ensures
        (#[trigger] m.in_source(source)).trace.depth == m.trace.depth,
        m.in_source(source).count() == m.count(),
        m.in_source(source).base == m.base,
{
    reveal(Model::in_source);
}

pub broadcast proof fn with_base_alike(bases: Bases, m1: Model, m2: Model, base1: int, base2: int)
    requires
        alike(bases, m1, m2),
        base1 == base2,
    ensures
        #[trigger] alike(bases, m1.with_base(base1), m2.with_base(base2)),
{
    reveal(alike);
    reveal(Model::with_base);
}

pub broadcast proof fn with_base_level(
    bases: Bases,
    m1: Model,
    i1: int,
    m2: Model,
    i2: int,
    base1: int,
    base2: int,
)
    requires
        level(bases, m1, i1, m2, i2),
    ensures
        #[trigger] level(bases, m1.with_base(base1), i1, m2.with_base(base2), i2),
{
    reveal(level);
    reveal(Model::with_base);
}

pub broadcast proof fn with_base_ends(m: Model, i: int, e: int, base: int)
    requires
        ends_by(m, i, e),
    ensures
        #[trigger] ends_by(m.with_base(base), i, e),
{
    reveal(ends_by);
    reveal(Model::with_base);
}

pub broadcast proof fn with_base_moves(m: Model, base: int)
    ensures
        (#[trigger] m.with_base(base)).trace.depth == m.trace.depth,
        m.with_base(base).count() == m.count(),
        m.with_base(base).base == base,
{
    reveal(Model::with_base);
}

pub broadcast proof fn nested_alike(bases: Bases, m1: Model, m2: Model, nesting1: u8, nesting2: u8)
    requires
        alike(bases, m1, m2),
        nesting1 == nesting2,
    ensures
        #[trigger] alike(bases, m1.nested(nesting1), m2.nested(nesting2)),
{
    reveal(alike);
    reveal(Model::nested);
}

pub broadcast proof fn nested_level(
    bases: Bases,
    m1: Model,
    i1: int,
    m2: Model,
    i2: int,
    nesting1: u8,
    nesting2: u8,
)
    requires
        level(bases, m1, i1, m2, i2),
    ensures
        #[trigger] level(bases, m1.nested(nesting1), i1, m2.nested(nesting2), i2),
{
    reveal(level);
    reveal(Model::nested);
}

pub broadcast proof fn nested_ends(m: Model, i: int, e: int, nesting: u8)
    requires
        ends_by(m, i, e),
    ensures
        #[trigger] ends_by(m.nested(nesting), i, e),
{
    reveal(ends_by);
    reveal(Model::nested);
}

pub broadcast proof fn nested_moves(m: Model, nesting: u8)
    ensures
        (#[trigger] m.nested(nesting)).trace.depth == m.trace.depth,
        m.nested(nesting).count() == m.count(),
        m.nested(nesting).base == m.base,
{
    reveal(Model::nested);
}

pub broadcast proof fn push_protocol_alike(
    bases: Bases,
    m1: Model,
    m2: Model,
    name1: Seq<char>,
    name2: Seq<char>,
)
    requires
        alike(bases, m1, m2),
        name1 == name2,
    ensures
        #[trigger] alike(bases, m1.push_protocol(name1), m2.push_protocol(name2)),
{
    reveal(alike);
    reveal(Model::push_protocol);
}

pub broadcast proof fn push_protocol_level(
    bases: Bases,
    m1: Model,
    i1: int,
    m2: Model,
    i2: int,
    name1: Seq<char>,
    name2: Seq<char>,
)
    requires
        level(bases, m1, i1, m2, i2),
    ensures
        #[trigger] level(bases, m1.push_protocol(name1), i1, m2.push_protocol(name2), i2),
{
    reveal(level);
    reveal(Model::push_protocol);
}

pub broadcast proof fn push_protocol_ends(m: Model, i: int, e: int, name: Seq<char>)
    requires
        ends_by(m, i, e),
    ensures
        #[trigger] ends_by(m.push_protocol(name), i, e),
{
    reveal(ends_by);
    reveal(Model::push_protocol);
}

pub broadcast proof fn push_protocol_moves(m: Model, name: Seq<char>)
    ensures
        (#[trigger] m.push_protocol(name)).trace.depth == m.trace.depth,
        m.push_protocol(name).count() == m.count(),
        m.push_protocol(name).base == m.base,
{
    reveal(Model::push_protocol);
}

pub broadcast proof fn set_protocol_alike(
    bases: Bases,
    m1: Model,
    m2: Model,
    name1: Seq<char>,
    name2: Seq<char>,
)
    requires
        alike(bases, m1, m2),
        name1 == name2,
    ensures
        #[trigger] alike(bases, m1.set_protocol(name1), m2.set_protocol(name2)),
{
    reveal(alike);
    reveal(Model::set_protocol);
    reveal(Model::push_protocol);
    reveal(Model::named);
}

pub broadcast proof fn set_protocol_level(
    bases: Bases,
    m1: Model,
    i1: int,
    m2: Model,
    i2: int,
    name1: Seq<char>,
    name2: Seq<char>,
)
    requires
        level(bases, m1, i1, m2, i2),
    ensures
        #[trigger] level(bases, m1.set_protocol(name1), i1, m2.set_protocol(name2), i2),
{
    reveal(level);
    reveal(Model::set_protocol);
    reveal(Model::push_protocol);
    reveal(Model::named);
}

pub broadcast proof fn set_protocol_ends(m: Model, i: int, e: int, name: Seq<char>)
    requires
        ends_by(m, i, e),
    ensures
        #[trigger] ends_by(m.set_protocol(name), i, e),
{
    reveal(ends_by);
    reveal(Model::set_protocol);
    reveal(Model::push_protocol);
    reveal(Model::named);
}

pub broadcast proof fn set_protocol_moves(m: Model, name: Seq<char>)
    ensures
        (#[trigger] m.set_protocol(name)).trace.depth == m.trace.depth,
        m.set_protocol(name).count() == m.count(),
        m.set_protocol(name).base == m.base,
{
    reveal(Model::set_protocol);
    reveal(Model::push_protocol);
    reveal(Model::named);
}

pub broadcast proof fn named_alike(
    bases: Bases,
    m1: Model,
    m2: Model,
    name1: Seq<char>,
    name2: Seq<char>,
)
    requires
        alike(bases, m1, m2),
        name1 == name2,
    ensures
        #[trigger] alike(bases, m1.named(name1), m2.named(name2)),
{
    reveal(alike);
    reveal(Model::named);
}

pub broadcast proof fn named_level(
    bases: Bases,
    m1: Model,
    i1: int,
    m2: Model,
    i2: int,
    name1: Seq<char>,
    name2: Seq<char>,
)
    requires
        level(bases, m1, i1, m2, i2),
    ensures
        #[trigger] level(bases, m1.named(name1), i1, m2.named(name2), i2),
{
    reveal(level);
    reveal(Model::named);
}

pub broadcast proof fn named_ends(m: Model, i: int, e: int, name: Seq<char>)
    requires
        ends_by(m, i, e),
    ensures
        #[trigger] ends_by(m.named(name), i, e),
{
    reveal(ends_by);
    reveal(Model::named);
}

pub broadcast proof fn named_moves(m: Model, name: Seq<char>)
    ensures
        (#[trigger] m.named(name)).trace.depth == m.trace.depth,
        m.named(name).count() == m.count(),
        m.named(name).base == m.base,
{
    reveal(Model::named);
}

pub broadcast proof fn truncate_protocols_alike(
    bases: Bases,
    m1: Model,
    m2: Model,
    k1: int,
    k2: int,
)
    requires
        alike(bases, m1, m2),
        k1 == k2,
    ensures
        #[trigger] alike(bases, m1.truncate_protocols(k1), m2.truncate_protocols(k2)),
{
    reveal(alike);
    reveal(Model::truncate_protocols);
}

pub broadcast proof fn truncate_protocols_level(
    bases: Bases,
    m1: Model,
    i1: int,
    m2: Model,
    i2: int,
    k1: int,
    k2: int,
)
    requires
        level(bases, m1, i1, m2, i2),
    ensures
        #[trigger] level(bases, m1.truncate_protocols(k1), i1, m2.truncate_protocols(k2), i2),
{
    reveal(level);
    reveal(Model::truncate_protocols);
}

pub broadcast proof fn truncate_protocols_ends(m: Model, i: int, e: int, k: int)
    requires
        ends_by(m, i, e),
    ensures
        #[trigger] ends_by(m.truncate_protocols(k), i, e),
{
    reveal(ends_by);
    reveal(Model::truncate_protocols);
}

pub broadcast proof fn truncate_protocols_moves(m: Model, k: int)
    ensures
        (#[trigger] m.truncate_protocols(k)).trace.depth == m.trace.depth,
        m.truncate_protocols(k).count() == m.count(),
        m.truncate_protocols(k).base == m.base,
{
    reveal(Model::truncate_protocols);
}

pub broadcast proof fn set_info_alike(
    bases: Bases,
    m1: Model,
    m2: Model,
    info1: Seq<char>,
    info2: Seq<char>,
)
    requires
        alike(bases, m1, m2),
        info1 == info2,
    ensures
        #[trigger] alike(bases, m1.set_info(info1), m2.set_info(info2)),
{
    reveal(alike);
    reveal(Model::set_info);
}

pub broadcast proof fn set_info_level(
    bases: Bases,
    m1: Model,
    i1: int,
    m2: Model,
    i2: int,
    info1: Seq<char>,
    info2: Seq<char>,
)
    requires
        level(bases, m1, i1, m2, i2),
    ensures
        #[trigger] level(bases, m1.set_info(info1), i1, m2.set_info(info2), i2),
{
    reveal(level);
    reveal(Model::set_info);
}

pub broadcast proof fn set_info_ends(m: Model, i: int, e: int, info: Seq<char>)
    requires
        ends_by(m, i, e),
    ensures
        #[trigger] ends_by(m.set_info(info), i, e),
{
    reveal(ends_by);
    reveal(Model::set_info);
}

pub broadcast proof fn set_info_moves(m: Model, info: Seq<char>)
    ensures
        (#[trigger] m.set_info(info)).trace.depth == m.trace.depth,
        m.set_info(info).count() == m.count(),
        m.set_info(info).base == m.base,
{
    reveal(Model::set_info);
}

pub broadcast proof fn between_alike(
    bases: Bases,
    m1: Model,
    m2: Model,
    source1: AddrView,
    destination1: AddrView,
    source2: AddrView,
    destination2: AddrView,
)
    requires
        alike(bases, m1, m2),
        source1 == source2,
        destination1 == destination2,
    ensures
        #[trigger] alike(
            bases,
            m1.between(source1, destination1),
            m2.between(source2, destination2),
        ),
{
    reveal(alike);
    reveal(Model::between);
}

pub broadcast proof fn between_level(
    bases: Bases,
    m1: Model,
    i1: int,
    m2: Model,
    i2: int,
    source1: AddrView,
    destination1: AddrView,
    source2: AddrView,
    destination2: AddrView,
)
    requires
        level(bases, m1, i1, m2, i2),
    ensures
        #[trigger] level(
            bases,
            m1.between(source1, destination1),
            i1,
            m2.between(source2, destination2),
            i2,
        ),
{
    reveal(level);
    reveal(Model::between);
}

pub broadcast proof fn between_ends(
    m: Model,
    i: int,
    e: int,
    source: AddrView,
    destination: AddrView,
)
    requires
        ends_by(m, i, e),
    ensures
        #[trigger] ends_by(m.between(source, destination), i, e),
{
    reveal(ends_by);
    reveal(Model::between);
}

pub broadcast proof fn between_moves(m: Model, source: AddrView, destination: AddrView)
    ensures
        (#[trigger] m.between(source, destination)).trace.depth == m.trace.depth,
        m.between(source, destination).count() == m.count(),
        m.between(source, destination).base == m.base,
{
    reveal(Model::between);
}

pub broadcast proof fn with_addrs_alike(
    bases: Bases,
    m1: Model,
    m2: Model,
    addrs1: Option<AddrsView>,
    addrs2: Option<AddrsView>,
)
    requires
        alike(bases, m1, m2),
        addrs1 == addrs2,
    ensures
        #[trigger] alike(bases, m1.with_addrs(addrs1), m2.with_addrs(addrs2)),
{
    reveal(alike);
    reveal(Model::with_addrs);
}

pub broadcast proof fn with_addrs_level(
    bases: Bases,
    m1: Model,
    i1: int,
    m2: Model,
    i2: int,
    addrs1: Option<AddrsView>,
    addrs2: Option<AddrsView>,
)
    requires
        level(bases, m1, i1, m2, i2),
    ensures
        #[trigger] level(bases, m1.with_addrs(addrs1), i1, m2.with_addrs(addrs2), i2),
{
    reveal(level);
    reveal(Model::with_addrs);
}

pub broadcast proof fn with_addrs_ends(m: Model, i: int, e: int, addrs: Option<AddrsView>)
    requires
        ends_by(m, i, e),
    ensures
        #[trigger] ends_by(m.with_addrs(addrs), i, e),
{
    reveal(ends_by);
    reveal(Model::with_addrs);
}

pub broadcast proof fn with_addrs_moves(m: Model, addrs: Option<AddrsView>)
    ensures
        (#[trigger] m.with_addrs(addrs)).trace.depth == m.trace.depth,
        m.with_addrs(addrs).count() == m.count(),
        m.with_addrs(addrs).base == m.base,
{
    reveal(Model::with_addrs);
}

pub broadcast proof fn with_summary_alike(
    bases: Bases,
    m1: Model,
    m2: Model,
    summary1: SummaryView,
    summary2: SummaryView,
)
    requires
        alike(bases, m1, m2),
        quiet(summary1) == quiet(summary2),
    ensures
        #[trigger] alike(bases, m1.with_summary(summary1), m2.with_summary(summary2)),
{
    reveal(alike);
    reveal(Model::with_summary);
}

pub broadcast proof fn with_summary_level(
    bases: Bases,
    m1: Model,
    i1: int,
    m2: Model,
    i2: int,
    summary1: SummaryView,
    summary2: SummaryView,
)
    requires
        level(bases, m1, i1, m2, i2),
    ensures
        #[trigger] level(bases, m1.with_summary(summary1), i1, m2.with_summary(summary2), i2),
{
    reveal(level);
    reveal(Model::with_summary);
}

pub broadcast proof fn with_summary_ends(m: Model, i: int, e: int, summary: SummaryView)
    requires
        ends_by(m, i, e),
    ensures
        #[trigger] ends_by(m.with_summary(summary), i, e),
{
    reveal(ends_by);
    reveal(Model::with_summary);
}

pub broadcast proof fn with_summary_moves(m: Model, summary: SummaryView)
    ensures
        (#[trigger] m.with_summary(summary)).trace.depth == m.trace.depth,
        m.with_summary(summary).count() == m.count(),
        m.with_summary(summary).base == m.base,
{
    reveal(Model::with_summary);
}

pub broadcast proof fn with_stream_alike(
    bases: Bases,
    m1: Model,
    m2: Model,
    stream1: Option<(u32, Direction)>,
    stream2: Option<(u32, Direction)>,
)
    requires
        alike(bases, m1, m2),
        stream1 == stream2,
    ensures
        #[trigger] alike(bases, m1.with_stream(stream1), m2.with_stream(stream2)),
{
    reveal(alike);
    reveal(Model::with_stream);
}

pub broadcast proof fn with_stream_level(
    bases: Bases,
    m1: Model,
    i1: int,
    m2: Model,
    i2: int,
    stream1: Option<(u32, Direction)>,
    stream2: Option<(u32, Direction)>,
)
    requires
        level(bases, m1, i1, m2, i2),
    ensures
        #[trigger] level(bases, m1.with_stream(stream1), i1, m2.with_stream(stream2), i2),
{
    reveal(level);
    reveal(Model::with_stream);
}

pub broadcast proof fn with_stream_ends(m: Model, i: int, e: int, stream: Option<(u32, Direction)>)
    requires
        ends_by(m, i, e),
    ensures
        #[trigger] ends_by(m.with_stream(stream), i, e),
{
    reveal(ends_by);
    reveal(Model::with_stream);
}

pub broadcast proof fn with_stream_moves(m: Model, stream: Option<(u32, Direction)>)
    ensures
        (#[trigger] m.with_stream(stream)).trace.depth == m.trace.depth,
        m.with_stream(stream).count() == m.count(),
        m.with_stream(stream).base == m.base,
{
    reveal(Model::with_stream);
}

pub broadcast proof fn with_origin_alike(
    bases: Bases,
    m1: Model,
    m2: Model,
    origin1: Option<Origin>,
    origin2: Option<Origin>,
)
    requires
        alike(bases, m1, m2),
        origin1 == origin2,
    ensures
        #[trigger] alike(bases, m1.with_origin(origin1), m2.with_origin(origin2)),
{
    reveal(alike);
    reveal(Model::with_origin);
}

pub broadcast proof fn with_origin_level(
    bases: Bases,
    m1: Model,
    i1: int,
    m2: Model,
    i2: int,
    origin1: Option<Origin>,
    origin2: Option<Origin>,
)
    requires
        level(bases, m1, i1, m2, i2),
    ensures
        #[trigger] level(bases, m1.with_origin(origin1), i1, m2.with_origin(origin2), i2),
{
    reveal(level);
    reveal(Model::with_origin);
}

pub broadcast proof fn with_origin_ends(m: Model, i: int, e: int, origin: Option<Origin>)
    requires
        ends_by(m, i, e),
    ensures
        #[trigger] ends_by(m.with_origin(origin), i, e),
{
    reveal(ends_by);
    reveal(Model::with_origin);
}

pub broadcast proof fn with_origin_moves(m: Model, origin: Option<Origin>)
    ensures
        (#[trigger] m.with_origin(origin)).trace.depth == m.trace.depth,
        m.with_origin(origin).count() == m.count(),
        m.with_origin(origin).base == m.base,
{
    reveal(Model::with_origin);
}

pub broadcast proof fn take_held_alike(
    bases: Bases,
    m1: Model,
    m2: Model,
    stream1: u32,
    dir1: Direction,
    stream2: u32,
    dir2: Direction,
)
    requires
        alike(bases, m1, m2),
        stream1 == stream2,
        dir1 == dir2,
    ensures
        #[trigger] alike(bases, m1.take_held(stream1, dir1), m2.take_held(stream2, dir2)),
{
    reveal(alike);
    reveal(Model::take_held);
}

pub broadcast proof fn take_held_level(
    bases: Bases,
    m1: Model,
    i1: int,
    m2: Model,
    i2: int,
    stream1: u32,
    dir1: Direction,
    stream2: u32,
    dir2: Direction,
)
    requires
        level(bases, m1, i1, m2, i2),
    ensures
        #[trigger] level(bases, m1.take_held(stream1, dir1), i1, m2.take_held(stream2, dir2), i2),
{
    reveal(level);
    reveal(Model::take_held);
}

pub broadcast proof fn take_held_ends(m: Model, i: int, e: int, stream: u32, dir: Direction)
    requires
        ends_by(m, i, e),
    ensures
        #[trigger] ends_by(m.take_held(stream, dir), i, e),
{
    reveal(ends_by);
    reveal(Model::take_held);
}

pub broadcast proof fn take_held_moves(m: Model, stream: u32, dir: Direction)
    ensures
        (#[trigger] m.take_held(stream, dir)).trace.depth == m.trace.depth,
        m.take_held(stream, dir).count() == m.count(),
        m.take_held(stream, dir).base == m.base,
{
    reveal(Model::take_held);
}

pub broadcast proof fn hold_alike(
    bases: Bases,
    m1: Model,
    m2: Model,
    bytes1: Seq<u8>,
    bytes2: Seq<u8>,
)
    requires
        alike(bases, m1, m2),
        bytes1 == bytes2,
    ensures
        #[trigger] alike(bases, m1.hold(bytes1).0, m2.hold(bytes2).0),
        m1.hold(bytes1).1 == m2.hold(bytes2).1,
{
    reveal(alike);
    reveal(Model::hold);
}

pub broadcast proof fn hold_level(
    bases: Bases,
    m1: Model,
    i1: int,
    m2: Model,
    i2: int,
    bytes1: Seq<u8>,
    bytes2: Seq<u8>,
)
    requires
        level(bases, m1, i1, m2, i2),
    ensures
        #[trigger] level(bases, m1.hold(bytes1).0, i1, m2.hold(bytes2).0, i2),
{
    reveal(level);
    reveal(Model::hold);
}

pub broadcast proof fn hold_ends(m: Model, i: int, e: int, bytes: Seq<u8>)
    requires
        ends_by(m, i, e),
    ensures
        #[trigger] ends_by(m.hold(bytes).0, i, e),
{
    reveal(ends_by);
    reveal(Model::hold);
}

pub broadcast proof fn hold_moves(m: Model, bytes: Seq<u8>)
    ensures
        (#[trigger] m.hold(bytes).0).trace.depth == m.trace.depth,
        m.hold(bytes).0.count() == m.count(),
        m.hold(bytes).0.base == m.base,
{
    reveal(Model::hold);
}

pub broadcast proof fn add_fragment_alike(
    bases: Bases,
    m1: Model,
    m2: Model,
    key1: FragKeyView,
    offset1: usize,
    more1: bool,
    payload1: Seq<u8>,
    key2: FragKeyView,
    offset2: usize,
    more2: bool,
    payload2: Seq<u8>,
)
    requires
        alike(bases, m1, m2),
        key1 == key2,
        offset1 == offset2,
        more1 == more2,
        payload1 == payload2,
    ensures
        #[trigger] alike(
            bases,
            m1.add_fragment(key1, offset1, more1, payload1).0,
            m2.add_fragment(key2, offset2, more2, payload2).0,
        ),
        m1.add_fragment(
            key1,
            offset1,
            more1,
            payload1,
        ).1 == m2.add_fragment(key2, offset2, more2, payload2).1,
{
    reveal(alike);
    reveal(Model::add_fragment);
}

pub broadcast proof fn add_fragment_level(
    bases: Bases,
    m1: Model,
    i1: int,
    m2: Model,
    i2: int,
    key1: FragKeyView,
    offset1: usize,
    more1: bool,
    payload1: Seq<u8>,
    key2: FragKeyView,
    offset2: usize,
    more2: bool,
    payload2: Seq<u8>,
)
    requires
        level(bases, m1, i1, m2, i2),
    ensures
        #[trigger] level(
            bases,
            m1.add_fragment(key1, offset1, more1, payload1).0,
            i1,
            m2.add_fragment(key2, offset2, more2, payload2).0,
            i2,
        ),
{
    reveal(level);
    reveal(Model::add_fragment);
}

pub broadcast proof fn add_fragment_ends(
    m: Model,
    i: int,
    e: int,
    key: FragKeyView,
    offset: usize,
    more: bool,
    payload: Seq<u8>,
)
    requires
        ends_by(m, i, e),
    ensures
        #[trigger] ends_by(m.add_fragment(key, offset, more, payload).0, i, e),
{
    reveal(ends_by);
    reveal(Model::add_fragment);
}

pub broadcast proof fn add_fragment_moves(
    m: Model,
    key: FragKeyView,
    offset: usize,
    more: bool,
    payload: Seq<u8>,
)
    ensures
        (#[trigger] m.add_fragment(key, offset, more, payload).0).trace.depth == m.trace.depth,
        m.add_fragment(key, offset, more, payload).0.count() == m.count(),
        m.add_fragment(key, offset, more, payload).0.base == m.base,
{
    reveal(Model::add_fragment);
}

pub broadcast proof fn look_up_alike(
    bases: Bases,
    m1: Model,
    m2: Model,
    src1: EndView,
    dst1: EndView,
    proto1: u8,
    fresh1: bool,
    src2: EndView,
    dst2: EndView,
    proto2: u8,
    fresh2: bool,
)
    requires
        alike(bases, m1, m2),
        src1 == src2,
        dst1 == dst2,
        proto1 == proto2,
        fresh1 == fresh2,
    ensures
        #[trigger] alike(
            bases,
            m1.look_up(src1, dst1, proto1, fresh1).0,
            m2.look_up(src2, dst2, proto2, fresh2).0,
        ),
        m1.look_up(src1, dst1, proto1, fresh1).1 == m2.look_up(src2, dst2, proto2, fresh2).1,
{
    reveal(alike);
    reveal(Model::look_up);
}

pub broadcast proof fn look_up_level(
    bases: Bases,
    m1: Model,
    i1: int,
    m2: Model,
    i2: int,
    src1: EndView,
    dst1: EndView,
    proto1: u8,
    fresh1: bool,
    src2: EndView,
    dst2: EndView,
    proto2: u8,
    fresh2: bool,
)
    requires
        level(bases, m1, i1, m2, i2),
    ensures
        #[trigger] level(
            bases,
            m1.look_up(src1, dst1, proto1, fresh1).0,
            i1,
            m2.look_up(src2, dst2, proto2, fresh2).0,
            i2,
        ),
{
    reveal(level);
    reveal(Model::look_up);
}

pub broadcast proof fn look_up_ends(
    m: Model,
    i: int,
    e: int,
    src: EndView,
    dst: EndView,
    proto: u8,
    fresh: bool,
)
    requires
        ends_by(m, i, e),
    ensures
        #[trigger] ends_by(m.look_up(src, dst, proto, fresh).0, i, e),
{
    reveal(ends_by);
    reveal(Model::look_up);
}

pub broadcast proof fn look_up_moves(m: Model, src: EndView, dst: EndView, proto: u8, fresh: bool)
    ensures
        (#[trigger] m.look_up(src, dst, proto, fresh).0).trace.depth == m.trace.depth,
        m.look_up(src, dst, proto, fresh).0.count() == m.count(),
        m.look_up(src, dst, proto, fresh).0.base == m.base,
{
    reveal(Model::look_up);
}

pub broadcast proof fn analyse_alike(
    bases: Bases,
    m1: Model,
    m2: Model,
    key1: KeyView,
    d1: Direction,
    seg1: Segment,
    key2: KeyView,
    d2: Direction,
    seg2: Segment,
)
    requires
        alike(bases, m1, m2),
        key1 == key2,
        d1 == d2,
        seg1 == seg2,
    ensures
        #[trigger] alike(bases, m1.analyse(key1, d1, seg1).0, m2.analyse(key2, d2, seg2).0),
        m1.analyse(key1, d1, seg1).1 == m2.analyse(key2, d2, seg2).1,
{
    reveal(alike);
    reveal(Model::analyse);
}

pub broadcast proof fn analyse_level(
    bases: Bases,
    m1: Model,
    i1: int,
    m2: Model,
    i2: int,
    key1: KeyView,
    d1: Direction,
    seg1: Segment,
    key2: KeyView,
    d2: Direction,
    seg2: Segment,
)
    requires
        level(bases, m1, i1, m2, i2),
    ensures
        #[trigger] level(bases, m1.analyse(key1, d1, seg1).0, i1, m2.analyse(key2, d2, seg2).0, i2),
{
    reveal(level);
    reveal(Model::analyse);
}

pub broadcast proof fn analyse_ends(
    m: Model,
    i: int,
    e: int,
    key: KeyView,
    d: Direction,
    seg: Segment,
)
    requires
        ends_by(m, i, e),
    ensures
        #[trigger] ends_by(m.analyse(key, d, seg).0, i, e),
{
    reveal(ends_by);
    reveal(Model::analyse);
}

pub broadcast proof fn analyse_moves(m: Model, key: KeyView, d: Direction, seg: Segment)
    ensures
        (#[trigger] m.analyse(key, d, seg).0).trace.depth == m.trace.depth,
        m.analyse(key, d, seg).0.count() == m.count(),
        m.analyse(key, d, seg).0.base == m.base,
{
    reveal(Model::analyse);
}

pub broadcast proof fn end_at_alike(
    bases: Bases,
    m1: Model,
    m2: Model,
    id1: int,
    end1: int,
    id2: int,
    end2: int,
)
    requires
        alike(bases, m1, m2),
        level(bases, m1, id1, m2, id2),
        id1 < m1.count(),
        end1 == end2,
        ends_by(m1, id1, end1),
        ends_by(m2, id2, end2),
    ensures
        #[trigger] alike(bases, m1.end_at(id1, end1), m2.end_at(id2, end2)),
{
    reveal(alike);
    reveal(level);
    reveal(ends_by);
    reveal(Model::end_at);
    rows_changed(
        bases,
        m1,
        id1,
        Row { end: end1, ..m1.trace.rows[id1] },
        m2,
        id2,
        Row { end: end2, ..m2.trace.rows[id2] },
    );
}

pub broadcast proof fn end_at_level(
    bases: Bases,
    m1: Model,
    i1: int,
    m2: Model,
    i2: int,
    id1: int,
    end1: int,
    id2: int,
    end2: int,
)
    requires
        level(bases, m1, i1, m2, i2),
        0 <= id1 < m1.count(),
        0 <= id2 < m2.count(),
    ensures
        #[trigger] level(bases, m1.end_at(id1, end1), i1, m2.end_at(id2, end2), i2),
{
    reveal(level);
    reveal(Model::end_at);
    rank_stays(m1.trace.rows, id1, Row { end: end1, ..m1.trace.rows[id1] }, i1);
    rank_stays(m2.trace.rows, id2, Row { end: end2, ..m2.trace.rows[id2] }, i2);
}

pub broadcast proof fn end_at_ends(m: Model, i: int, e: int, id: int, end: int)
    requires
        ends_by(m, i, e),
        0 <= id < m.count(),
        id != i || end <= e,
    ensures
        #[trigger] ends_by(m.end_at(id, end), i, e),
{
    reveal(ends_by);
    reveal(Model::end_at);
}

pub broadcast proof fn end_at_moves(m: Model, id: int, end: int)
    requires
        0 <= id < m.count(),
    ensures
        (#[trigger] m.end_at(id, end)).trace.depth == shallower(m.trace.depth),
        m.end_at(id, end).count() == m.count(),
        m.end_at(id, end).base == m.base,
{
    reveal(Model::end_at);
}

pub broadcast proof fn set_end_alike(
    bases: Bases,
    m1: Model,
    m2: Model,
    id1: int,
    end1: int,
    id2: int,
    end2: int,
)
    requires
        alike(bases, m1, m2),
        level(bases, m1, id1, m2, id2),
        id1 < m1.count(),
        end1 == end2,
        ends_by(m1, id1, end1),
        ends_by(m2, id2, end2),
    ensures
        #[trigger] alike(bases, m1.set_end(id1, end1), m2.set_end(id2, end2)),
{
    reveal(alike);
    reveal(level);
    reveal(ends_by);
    reveal(Model::set_end);
    rows_changed(
        bases,
        m1,
        id1,
        Row { end: end1, ..m1.trace.rows[id1] },
        m2,
        id2,
        Row { end: end2, ..m2.trace.rows[id2] },
    );
}

pub broadcast proof fn set_end_level(
    bases: Bases,
    m1: Model,
    i1: int,
    m2: Model,
    i2: int,
    id1: int,
    end1: int,
    id2: int,
    end2: int,
)
    requires
        level(bases, m1, i1, m2, i2),
        0 <= id1 < m1.count(),
        0 <= id2 < m2.count(),
    ensures
        #[trigger] level(bases, m1.set_end(id1, end1), i1, m2.set_end(id2, end2), i2),
{
    reveal(level);
    reveal(Model::set_end);
    rank_stays(m1.trace.rows, id1, Row { end: end1, ..m1.trace.rows[id1] }, i1);
    rank_stays(m2.trace.rows, id2, Row { end: end2, ..m2.trace.rows[id2] }, i2);
}

pub broadcast proof fn set_end_ends(m: Model, i: int, e: int, id: int, end: int)
    requires
        ends_by(m, i, e),
        0 <= id < m.count(),
        id != i || end <= e,
    ensures
        #[trigger] ends_by(m.set_end(id, end), i, e),
{
    reveal(ends_by);
    reveal(Model::set_end);
}

pub broadcast proof fn set_end_moves(m: Model, id: int, end: int)
    requires
        0 <= id < m.count(),
    ensures
        (#[trigger] m.set_end(id, end)).trace.depth == m.trace.depth,
        m.set_end(id, end).count() == m.count(),
        m.set_end(id, end).base == m.base,
{
    reveal(Model::set_end);
}

pub broadcast proof fn set_text_alike(
    bases: Bases,
    m1: Model,
    m2: Model,
    id1: int,
    text1: Seq<char>,
    id2: int,
    text2: Seq<char>,
)
    requires
        alike(bases, m1, m2),
        level(bases, m1, id1, m2, id2),
        id1 < m1.count(),
        text1 == text2,
    ensures
        #[trigger] alike(bases, m1.set_text(id1, text1), m2.set_text(id2, text2)),
{
    reveal(alike);
    reveal(level);
    reveal(ends_by);
    reveal(Model::set_text);
    rows_relabelled(
        bases,
        m1,
        id1,
        Row { text: Some(text1), ..m1.trace.rows[id1] },
        m2,
        id2,
        Row { text: Some(text2), ..m2.trace.rows[id2] },
    );
}

pub broadcast proof fn set_text_level(
    bases: Bases,
    m1: Model,
    i1: int,
    m2: Model,
    i2: int,
    id1: int,
    text1: Seq<char>,
    id2: int,
    text2: Seq<char>,
)
    requires
        level(bases, m1, i1, m2, i2),
        0 <= id1 < m1.count(),
        0 <= id2 < m2.count(),
    ensures
        #[trigger] level(bases, m1.set_text(id1, text1), i1, m2.set_text(id2, text2), i2),
{
    reveal(level);
    reveal(Model::set_text);
    rank_stays(m1.trace.rows, id1, Row { text: Some(text1), ..m1.trace.rows[id1] }, i1);
    rank_stays(m2.trace.rows, id2, Row { text: Some(text2), ..m2.trace.rows[id2] }, i2);
}

pub broadcast proof fn set_text_ends(m: Model, i: int, e: int, id: int, text: Seq<char>)
    requires
        ends_by(m, i, e),
        0 <= id < m.count(),
    ensures
        #[trigger] ends_by(m.set_text(id, text), i, e),
{
    reveal(ends_by);
    reveal(Model::set_text);
}

pub broadcast proof fn set_text_moves(m: Model, id: int, text: Seq<char>)
    requires
        0 <= id < m.count(),
    ensures
        (#[trigger] m.set_text(id, text)).trace.depth == m.trace.depth,
        m.set_text(id, text).count() == m.count(),
        m.set_text(id, text).base == m.base,
{
    reveal(Model::set_text);
}

pub broadcast proof fn set_value_alike(
    bases: Bases,
    m1: Model,
    m2: Model,
    id1: int,
    value1: ValueView,
    id2: int,
    value2: ValueView,
)
    requires
        alike(bases, m1, m2),
        level(bases, m1, id1, m2, id2),
        id1 < m1.count(),
        value1 == value2,
    ensures
        #[trigger] alike(bases, m1.set_value(id1, value1), m2.set_value(id2, value2)),
{
    reveal(alike);
    reveal(level);
    reveal(ends_by);
    reveal(Model::set_value);
    rows_relabelled(
        bases,
        m1,
        id1,
        Row { value: value1, ..m1.trace.rows[id1] },
        m2,
        id2,
        Row { value: value2, ..m2.trace.rows[id2] },
    );
}

pub broadcast proof fn set_value_level(
    bases: Bases,
    m1: Model,
    i1: int,
    m2: Model,
    i2: int,
    id1: int,
    value1: ValueView,
    id2: int,
    value2: ValueView,
)
    requires
        level(bases, m1, i1, m2, i2),
        0 <= id1 < m1.count(),
        0 <= id2 < m2.count(),
    ensures
        #[trigger] level(bases, m1.set_value(id1, value1), i1, m2.set_value(id2, value2), i2),
{
    reveal(level);
    reveal(Model::set_value);
    rank_stays(m1.trace.rows, id1, Row { value: value1, ..m1.trace.rows[id1] }, i1);
    rank_stays(m2.trace.rows, id2, Row { value: value2, ..m2.trace.rows[id2] }, i2);
}

pub broadcast proof fn set_value_ends(m: Model, i: int, e: int, id: int, value: ValueView)
    requires
        ends_by(m, i, e),
        0 <= id < m.count(),
    ensures
        #[trigger] ends_by(m.set_value(id, value), i, e),
{
    reveal(ends_by);
    reveal(Model::set_value);
}

pub broadcast proof fn set_value_moves(m: Model, id: int, value: ValueView)
    requires
        0 <= id < m.count(),
    ensures
        (#[trigger] m.set_value(id, value)).trace.depth == m.trace.depth,
        m.set_value(id, value).count() == m.count(),
        m.set_value(id, value).base == m.base,
{
    reveal(Model::set_value);
}


pub proof fn record_alike(
    bases: Bases,
    m1: Model,
    m2: Model,
    start: int,
    end: int,
    severity: Severity,
    group: Group,
    summary: Seq<char>,
)
    requires
        alike(bases, m1, m2),
    ensures
        alike(
            bases,
            m1.record(start, end, severity, group, summary),
            m2.record(start, end, severity, group, summary),
        ),
{
    reveal(alike);
    reveal(Model::record);
    let (n1, n2) = (
        m1.record(start, end, severity, group, summary),
        m2.record(start, end, severity, group, summary),
    );
    let (a, b) = (m1.trace.rows, m2.trace.rows);
    let k = n1.count();
    let (r, q, u) = (n1.trace.rows[k - 3], n1.trace.rows[k - 2], n1.trace.rows[k - 1]);
    assert(n1.trace.rows == a.push(r).push(q).push(u));
    assert(n2.trace.rows == b.push(r).push(q).push(u));
    row_pushed(bases, a, b, r, r);
    row_pushed(bases, a.push(r), b.push(r), q, q);
    row_pushed(bases, a.push(r).push(q), b.push(r).push(q), u, u);
}

pub broadcast proof fn expert_alike(
    bases: Bases,
    m1: Model,
    m2: Model,
    abbrev1: Seq<char>,
    start1: int,
    end1: int,
    severity1: Severity,
    group1: Group,
    summary1: Seq<char>,
    abbrev2: Seq<char>,
    start2: int,
    end2: int,
    severity2: Severity,
    group2: Group,
    summary2: Seq<char>,
)
    requires
        alike(bases, m1, m2),
        abbrev1 == abbrev2,
        start1 == start2,
        end1 == end2,
        severity1 == severity2,
        group1 == group2,
        summary1 == summary2,
    ensures
        #[trigger] alike(
            bases,
            m1.expert(abbrev1, start1, end1, severity1, group1, summary1),
            m2.expert(abbrev2, start2, end2, severity2, group2, summary2),
        ),
{
    reveal(Model::expert);
    let (x1, x2) = (
        m1.leaf_text(abbrev1, start1, end1, ValueView::Empty, summary1),
        m2.leaf_text(abbrev2, start2, end2, ValueView::Empty, summary2),
    );
    leaf_text_alike(
        bases,
        m1,
        m2,
        abbrev1,
        start1,
        end1,
        ValueView::Empty,
        summary1,
        abbrev2,
        start2,
        end2,
        ValueView::Empty,
        summary2,
    );
    record_alike(bases, x1, x2, start1, end1, severity1, group1, summary1);
}

pub proof fn record_level(
    bases: Bases,
    m1: Model,
    i1: int,
    m2: Model,
    i2: int,
    start: int,
    end: int,
    severity: Severity,
    group: Group,
    summary: Seq<char>,
)
    requires
        level(bases, m1, i1, m2, i2),
        i1 < m1.count(),
    ensures
        level(bases, m1.record(start, end, severity, group, summary), i1, m2, i2),
        level(bases, m1, i1, m2.record(start, end, severity, group, summary), i2),
        level(
            bases,
            m1.record(start, end, severity, group, summary),
            i1,
            m2.record(start, end, severity, group, summary),
            i2,
        ),
{
    reveal(level);
    reveal(Model::record);
    let n1 = m1.record(start, end, severity, group, summary);
    assert(n1.trace.rows.take(i1) =~= m1.trace.rows.take(i1));
    let n2 = m2.record(start, end, severity, group, summary);
    assert(n2.trace.rows.take(i2) =~= m2.trace.rows.take(i2));
}

pub broadcast proof fn expert_level(
    bases: Bases,
    m1: Model,
    i1: int,
    m2: Model,
    i2: int,
    abbrev1: Seq<char>,
    start1: int,
    end1: int,
    severity1: Severity,
    group1: Group,
    summary1: Seq<char>,
    abbrev2: Seq<char>,
    start2: int,
    end2: int,
    severity2: Severity,
    group2: Group,
    summary2: Seq<char>,
)
    requires
        level(bases, m1, i1, m2, i2),
        alike(bases, m1, m2),
        abbrev1 == abbrev2,
        start1 == start2,
        end1 == end2,
        severity1 == severity2,
        group1 == group2,
        summary1 == summary2,
    ensures
        #[trigger] level(
            bases,
            m1.expert(abbrev1, start1, end1, severity1, group1, summary1),
            i1,
            m2.expert(abbrev2, start2, end2, severity2, group2, summary2),
            i2,
        ),
{
    reveal(Model::expert);
    let (x1, x2) = (
        m1.leaf_text(abbrev1, start1, end1, ValueView::Empty, summary1),
        m2.leaf_text(abbrev2, start2, end2, ValueView::Empty, summary2),
    );
    leaf_text_level(
        bases,
        m1,
        i1,
        m2,
        i2,
        abbrev1,
        start1,
        end1,
        ValueView::Empty,
        summary1,
        abbrev2,
        start2,
        end2,
        ValueView::Empty,
        summary2,
    );
    assert(i1 < x1.count()) by {
        level_facts(bases, m1, i1, m2, i2);
        reveal(Model::leaf_text);
        reveal(Model::record);
    }
    record_level(bases, x1, i1, x2, i2, start1, end1, severity1, group1, summary1);
}

pub broadcast proof fn expert_ends(
    m: Model,
    i: int,
    e: int,
    abbrev: Seq<char>,
    start: int,
    end: int,
    severity: Severity,
    group: Group,
    summary: Seq<char>,
)
    requires
        ends_by(m, i, e),
        i < m.count() || (i == m.count() && end <= e),
    ensures
        #[trigger] ends_by(m.expert(abbrev, start, end, severity, group, summary), i, e),
{
    reveal(Model::expert);
    leaf_text_ends(m, i, e, abbrev, start, end, ValueView::Empty, summary);
    reveal(ends_by);
    reveal(Model::record);
    let x = m.leaf_text(abbrev, start, end, ValueView::Empty, summary);
    assert(x.count() > m.count()) by {
        reveal(Model::leaf_text);
    }
}

pub broadcast proof fn expert_moves(
    m: Model,
    abbrev: Seq<char>,
    start: int,
    end: int,
    severity: Severity,
    group: Group,
    summary: Seq<char>,
)
    requires
        0 <= m.trace.depth < 250,
    ensures
        (#[trigger] m.expert(
            abbrev,
            start,
            end,
            severity,
            group,
            summary,
        )).trace.depth == m.trace.depth,
        m.expert(abbrev, start, end, severity, group, summary).count() >= m.count() + 1,
        m.expert(abbrev, start, end, severity, group, summary).base == m.base,
{
    reveal(Model::expert);
    reveal(Model::leaf_text);
    reveal(Model::record);
}

/// A verdict in both, which may differ.
pub broadcast proof fn checked_alike(
    bases: Bases,
    m1: Model,
    m2: Model,
    abbrev1: Seq<char>,
    start1: int,
    end1: int,
    status1: u64,
    abbrev2: Seq<char>,
    start2: int,
    end2: int,
    status2: u64,
)
    requires
        alike(bases, m1, m2),
        is_status(abbrev1),
        abbrev1 == abbrev2,
        start1 == start2,
        end1 == end2,
        0 <= end1,
        0 <= m1.trace.depth < 250,
    ensures
        #[trigger] alike(
            bases,
            checked(m1, abbrev1, start1, end1, status1),
            checked(m2, abbrev2, start2, end2, status2),
        ),
{
    reveal(alike);
    reveal(Model::leaf);
    let (x1, x2) = (
        m1.leaf(abbrev1, start1, end1, ValueView::Unsigned(status1)),
        m2.leaf(abbrev2, start2, end2, ValueView::Unsigned(status2)),
    );
    row_pushed(bases, m1.trace.rows, m2.trace.rows, x1.trace.rows.last(), x2.trace.rows.last());
    assert(alike(bases, x1, x2));
    reported(x1, start1, end1);
    reported(x2, start2, end2);
    let (f1, f2) = (finding(x1, start1, end1).trace.rows, finding(x2, start2, end2).trace.rows);
    assert forall|k: int| #![trigger bases[k]] 0 <= k < bases.len() implies ({
        &&& twins(f1, bases[k].0, f2, bases[k].1)
        &&& twins(f1, bases[k].0, x2.trace.rows, bases[k].1)
        &&& twins(x1.trace.rows, bases[k].0, f2, bases[k].1)
    }) by {
        let (lo1, lo2) = (bases[k].0, bases[k].1);
        assert(twins(x1.trace.rows, lo1, x2.trace.rows, lo2));
        assert(f1.take(lo1) =~= x1.trace.rows.take(lo1));
        assert(f2.take(lo2) =~= x2.trace.rows.take(lo2));
        assert(f1[lo1] == f1.take(x1.count())[lo1]);
        assert(f2[lo2] == f2.take(x2.count())[lo2]);
        assert(lo1 <= m1.count() && lo2 <= m2.count());
    }
    let (y1, y2) = (
        checked(m1, abbrev1, start1, end1, status1),
        checked(m2, abbrev2, start2, end2, status2),
    );
    assert forall|k: int, s: SourceId, least: int|
        #![trigger furthest(y1.trace.rows, bases[k].0, s, least)]
        #![trigger furthest(y2.trace.rows, bases[k].1, s, least)]
        0 <= k < bases.len() implies furthest(
            y1.trace.rows,
            bases[k].0,
            s,
            least,
        ) == furthest(y2.trace.rows, bases[k].1, s, least) by {
        let (lo1, lo2) = (bases[k].0, bases[k].1);
        furthest_pushed(m1.trace.rows, x1.trace.rows.last(), lo1, s, least);
        furthest_pushed(m2.trace.rows, x2.trace.rows.last(), lo2, s, least);
        assert(furthest(x1.trace.rows, lo1, s, least) == furthest(x2.trace.rows, lo2, s, least));
        report_reaches(x1, start1, end1, lo1, s, least);
        report_reaches(x2, start2, end2, lo2, s, least);
    }
}

/// The finding of a bad checksum.
pub open spec fn finding(m: Model, start: int, end: int) -> Model {
    m.expert("_ws.checksum.bad"@, start, end, Severity::Error, Group::Checksum, BAD_CHECKSUM@)
}

proof fn reported(m: Model, start: int, end: int)
    requires
        0 <= m.trace.depth < 250,
    ensures
        plain(finding(m, start, end).trace.rows) == plain(m.trace.rows),
        finding(m, start, end).count() == m.count() + 4,
        rest(finding(m, start, end)) == rest(m),
        finding(m, start, end).trace.rows.take(m.count()) == m.trace.rows,
{
    reveal(Model::expert);
    reveal(Model::leaf_text);
    reveal(Model::record);
    reveal_strlit("_ws.checksum.bad");
    reveal_strlit("_ws.malformed");
    assert("_ws.checksum.bad"@.len() != "_ws.malformed"@.len());
    let a = finding(m, start, end).trace.rows;
    let k = a.len();
    assert(a.drop_last().drop_last().drop_last().drop_last() =~= m.trace.rows);
    assert(a.take(m.count()) =~= m.trace.rows);
    assert(is_report(a[k - 1].abbrev) && is_report(a[k - 2].abbrev));
    assert(is_report(a[k - 3].abbrev) && is_report(a[k - 4].abbrev));
    reveal_with_fuel(plain, 5);
}

proof fn report_reaches(m: Model, start: int, end: int, lo: int, s: SourceId, least: int)
    requires
        0 <= lo < m.count(),
        0 <= m.trace.depth < 250,
        0 <= end,
        m.trace.rows.last().end == end,
        m.trace.rows.last().source == m.source,
    ensures
        furthest(
            finding(m, start, end).trace.rows,
            lo,
            s,
            least,
        ) == furthest(m.trace.rows, lo, s, least),
{
    reveal(Model::expert);
    reveal(Model::leaf_text);
    reveal(Model::record);
    reveal_strlit("_ws.checksum.bad");
    reveal_strlit("_ws.malformed");
    assert("_ws.checksum.bad"@.len() != "_ws.malformed"@.len());
    let a = finding(m, start, end).trace.rows;
    let k = m.trace.rows.len() as int;
    let base = m.trace.rows;
    let b = base.push(a[k]);
    let c = b.push(a[k + 1]);
    let d = c.push(a[k + 2]);
    assert(a =~= d.push(a[k + 3]));
    furthest_pushed(base.drop_last(), base.last(), lo, s, least);
    assert(base.drop_last().push(base.last()) =~= base);
    furthest_pushed(base, a[k], lo, s, least);
    furthest_pushed(b, a[k + 1], lo, s, least);
    furthest_pushed(c, a[k + 2], lo, s, least);
    furthest_pushed(d, a[k + 3], lo, s, least);
}

pub broadcast proof fn checked_level(
    bases: Bases,
    m1: Model,
    i1: int,
    m2: Model,
    i2: int,
    abbrev1: Seq<char>,
    start1: int,
    end1: int,
    status1: u64,
    abbrev2: Seq<char>,
    start2: int,
    end2: int,
    status2: u64,
)
    requires
        level(bases, m1, i1, m2, i2),
        alike(bases, m1, m2),
        abbrev1 == abbrev2,
        start1 == start2,
        0 <= m1.trace.depth < 250,
    ensures
        #[trigger] level(
            bases,
            checked(m1, abbrev1, start1, end1, status1),
            i1,
            checked(m2, abbrev2, start2, end2, status2),
            i2,
        ),
{
    let (x1, x2) = (
        m1.leaf(abbrev1, start1, end1, ValueView::Unsigned(status1)),
        m2.leaf(abbrev2, start2, end2, ValueView::Unsigned(status2)),
    );
    leaf_level(
        bases,
        m1,
        i1,
        m2,
        i2,
        abbrev1,
        start1,
        end1,
        ValueView::Unsigned(status1),
        abbrev2,
        start2,
        end2,
        ValueView::Unsigned(status2),
    );
    alike_facts(bases, m1, m2);
    leaf_moves(m1, abbrev1, start1, end1, ValueView::Unsigned(status1));
    leaf_moves(m2, abbrev2, start2, end2, ValueView::Unsigned(status2));
    level_facts(bases, m1, i1, m2, i2);
    reported(x1, start1, end1);
    reported(x2, start2, end2);
    reveal(level);
    let (f1, f2) = (finding(x1, start1, end1), finding(x2, start2, end2));
    assert(f1.trace.rows.take(i1) =~= x1.trace.rows.take(i1));
    assert(f2.trace.rows.take(i2) =~= x2.trace.rows.take(i2));
    assert(f1.trace.rows[i1] == f1.trace.rows.take(x1.count())[i1]);
    assert(f2.trace.rows[i2] == f2.trace.rows.take(x2.count())[i2]);
}

pub broadcast proof fn checked_ends(
    m: Model,
    i: int,
    e: int,
    abbrev: Seq<char>,
    start: int,
    end: int,
    status: u64,
)
    requires
        ends_by(m, i, e),
        0 <= m.trace.depth < 250,
        i < m.count() || (i == m.count() && end <= e),
    ensures
        #[trigger] ends_by(checked(m, abbrev, start, end, status), i, e),
{
    let x = m.leaf(abbrev, start, end, ValueView::Unsigned(status));
    leaf_ends(m, i, e, abbrev, start, end, ValueView::Unsigned(status));
    leaf_moves(m, abbrev, start, end, ValueView::Unsigned(status));
    expert_ends(
        x,
        i,
        e,
        "_ws.checksum.bad"@,
        start,
        end,
        Severity::Error,
        Group::Checksum,
        BAD_CHECKSUM@,
    );
}

pub broadcast proof fn checked_moves(m: Model, abbrev: Seq<char>, start: int, end: int, status: u64)
    requires
        0 <= m.trace.depth < 250,
    ensures
        (#[trigger] checked(m, abbrev, start, end, status)).trace.depth == m.trace.depth,
        checked(m, abbrev, start, end, status).count() >= m.count() + 1,
        checked(m, abbrev, start, end, status).base == m.base,
{
    let x = m.leaf(abbrev, start, end, ValueView::Unsigned(status));
    leaf_moves(m, abbrev, start, end, ValueView::Unsigned(status));
    expert_moves(
        x,
        "_ws.checksum.bad"@,
        start,
        end,
        Severity::Error,
        Group::Checksum,
        BAD_CHECKSUM@,
    );
}


pub broadcast group keeping_alike {
    alike_facts,
    level_first,
    level_facts,
    ends_first,
    leaf_alike,
    leaf_level,
    leaf_ends,
    leaf_moves,
    leaf_text_alike,
    leaf_text_level,
    leaf_text_ends,
    leaf_text_moves,
    begin_alike,
    begin_level,
    begin_ends,
    begin_moves,
    begin_value_alike,
    begin_value_level,
    begin_value_ends,
    begin_value_moves,
    begin_text_alike,
    begin_text_level,
    begin_text_ends,
    begin_text_moves,
    begin_value_text_alike,
    begin_value_text_level,
    begin_value_text_ends,
    begin_value_text_moves,
    end_alike,
    end_level,
    end_ends,
    end_moves,
    next_taken_alike,
    next_taken_level,
    next_taken_ends,
    next_taken_moves,
    drop_held_alike,
    drop_held_level,
    drop_held_ends,
    drop_held_moves,
    at_depth_alike,
    at_depth_level,
    at_depth_ends,
    at_depth_moves,
    call_next_alike,
    call_next_level,
    call_next_ends,
    call_next_moves,
    call_next_bounded_alike,
    call_next_bounded_level,
    call_next_bounded_ends,
    call_next_bounded_moves,
    call_next_in_source_alike,
    call_next_in_source_level,
    call_next_in_source_ends,
    call_next_in_source_moves,
    add_source_alike,
    add_source_level,
    add_source_ends,
    add_source_moves,
    in_source_alike,
    in_source_level,
    in_source_ends,
    in_source_moves,
    with_base_alike,
    with_base_level,
    with_base_ends,
    with_base_moves,
    nested_alike,
    nested_level,
    nested_ends,
    nested_moves,
    push_protocol_alike,
    push_protocol_level,
    push_protocol_ends,
    push_protocol_moves,
    set_protocol_alike,
    set_protocol_level,
    set_protocol_ends,
    set_protocol_moves,
    named_alike,
    named_level,
    named_ends,
    named_moves,
    truncate_protocols_alike,
    truncate_protocols_level,
    truncate_protocols_ends,
    truncate_protocols_moves,
    set_info_alike,
    set_info_level,
    set_info_ends,
    set_info_moves,
    between_alike,
    between_level,
    between_ends,
    between_moves,
    with_addrs_alike,
    with_addrs_level,
    with_addrs_ends,
    with_addrs_moves,
    with_summary_alike,
    with_summary_level,
    with_summary_ends,
    with_summary_moves,
    with_stream_alike,
    with_stream_level,
    with_stream_ends,
    with_stream_moves,
    with_origin_alike,
    with_origin_level,
    with_origin_ends,
    with_origin_moves,
    take_held_alike,
    take_held_level,
    take_held_ends,
    take_held_moves,
    hold_alike,
    hold_level,
    hold_ends,
    hold_moves,
    add_fragment_alike,
    add_fragment_level,
    add_fragment_ends,
    add_fragment_moves,
    look_up_alike,
    look_up_level,
    look_up_ends,
    look_up_moves,
    analyse_alike,
    analyse_level,
    analyse_ends,
    analyse_moves,
    end_at_alike,
    end_at_level,
    end_at_ends,
    end_at_moves,
    set_end_alike,
    set_end_level,
    set_end_ends,
    set_end_moves,
    set_text_alike,
    set_text_level,
    set_text_ends,
    set_text_moves,
    set_value_alike,
    set_value_level,
    set_value_ends,
    set_value_moves,
    expert_alike,
    expert_level,
    expert_ends,
    expert_moves,
    checked_alike,
    checked_level,
    checked_ends,
    checked_moves,
}

} // verus!

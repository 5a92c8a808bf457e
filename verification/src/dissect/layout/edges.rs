//! What is shown of bytes that no layer could read, or that none asked for.

use vstd::prelude::*;

use super::{nothing_written, writing, written, Field};
use crate::dissect::ctx::{Model, Proto};
use crate::dissect::cursor::{DissectError, SourceId};
use crate::dissect::node::{furthest, Row, ValueView};
use crate::dissect::proto::{cut, data_layer, shortfall};
use crate::dissect::{exposed, malformed, with_tail};

verus! {

/// A layer sees its data source from its offset on, and no more than it was
/// given.
pub proof fn layers_see_what_they_are_given(owned: Seq<u8>, offset: int, len: Option<usize>, i: int)
    requires
        0 <= offset <= owned.len(),
    ensures
        ({
            let d = exposed(owned, offset, len);
            &&& len is None ==> d.len() == owned.len() - offset
            &&& len matches Some(l) ==> d.len() <= l && d.len() <= owned.len() - offset && (d.len()
                == l || d.len() == owned.len() - offset)
            &&& 0 <= i < d.len() ==> d[i] == owned[offset + i]
        }),
{
}

proof fn furthest_of(rows: Seq<Row>, lo: int, source: SourceId, least: int, k: int)
    requires
        0 <= lo,
    ensures
        furthest(rows, lo, source, least) >= least,
        lo <= k < rows.len() && rows[k].source == source ==> rows[k].end <= furthest(
            rows,
            lo,
            source,
            least,
        ),
        furthest(rows, lo, source, least) == least || exists|j: int|
            lo <= j < rows.len() && (#[trigger] rows[j]).source == source && rows[j].end
                == furthest(rows, lo, source, least),
    decreases rows.len() - lo,
{
    if lo < rows.len() {
        let next = if rows[lo].source == source && rows[lo].end > least {
            rows[lo].end
        } else {
            least
        };
        furthest_of(rows, lo + 1, source, next, k);
    }
}

/// What no row of the layers reaches at the end of a frame is shown as one
/// field: padding if it is all zero behind Ethernet, else a trailer, and data
/// on other links. Where a row reaches the end, there is nothing to show.
pub proof fn leftover_bytes_are_shown_once(bytes: Seq<u8>, first: int, m: Model, reach: int)
    requires
        0 <= first,
        0 <= reach <= bytes.len(),
        forall|k: int|
            first <= k < m.count() && (#[trigger] m.trace.rows[k]).source == 0
                ==> m.trace.rows[k].end <= reach,
        reach == 0 || exists|k: int|
            first <= k < m.count() && (#[trigger] m.trace.rows[k]).source == 0
                && m.trace.rows[k].end == reach,
    ensures
        ({
            let after = with_tail(bytes, first, m);
            let s = written(after, m.count());
            let n = bytes.len() as int;
            &&& reach == n ==> s.len() == 0
            &&& reach < n ==> s == seq![
                Field {
                    abbrev: if m.link_type.0 != 1 {
                        "data.data"@
                    } else if exists|i: int| reach <= i < n && bytes[i] != 0 {
                        "eth.trailer"@
                    } else {
                        "eth.padding"@
                    },
                    source: 0,
                    start: reach,
                    end: n,
                    value: ValueView::Bytes,
                },
            ]
        }),
{
    broadcast use writing;

    reveal_strlit("_ws.malformed");
    reveal_strlit("data.data");
    reveal_strlit("eth.trailer");
    reveal_strlit("eth.padding");
    assert("_ws.malformed"@.len() == 13 && "data.data"@.len() == 9 && "eth.trailer"@.len() == 11
        && "eth.padding"@.len() == 11);
    nothing_written(m);
    let n = bytes.len() as int;
    let covered = furthest(m.trace.rows, first, 0, 0);
    furthest_of(m.trace.rows, first, 0, 0, 0);
    if reach > 0 {
        let k = choose|k: int|
            first <= k < m.count() && (#[trigger] m.trace.rows[k]).source == 0
                && m.trace.rows[k].end == reach;
        furthest_of(m.trace.rows, first, 0, 0, k);
    }
    assert(covered == reach);
    let inner = m.in_source(0);
    assert(inner.count() == m.count() && inner.source == 0 && written(inner, m.count())
        == Seq::<Field>::empty()) by {
        reveal(Model::in_source);
        assert(written(m.in_source(0), m.count()) =~= Seq::empty());
    }
    if reach < n {
        let tail = bytes.subrange(reach, n);
        assert(crate::dissect::all_zero(tail) <==> !(exists|i: int|
            reach <= i < n && bytes[i] != 0)) by {
            if crate::dissect::all_zero(tail) {
                assert forall|i: int| reach <= i < n implies bytes[i] == 0 by {
                    assert(tail[i - reach] == 0);
                }
            }
        }
        let s = written(with_tail(bytes, first, m), m.count());
        assert(s.len() == 1);
        assert(s =~= seq![s[0]]);
    }
}

/// The data pseudo-layer shows the bytes and how many there are.
pub proof fn data_is_shown_with_its_length(d: Seq<u8>, m: Model)
    requires
        d.len() <= u64::MAX,
    ensures
        ({
            let n = d.len() as int;
            let at = |name: Seq<char>, value: ValueView|
                Field { abbrev: name, source: m.source, start: m.base, end: m.base + n, value };
            written(data_layer(d, m), m.count()) == seq![
                at("data"@, ValueView::Empty),
                at("data.data"@, ValueView::Bytes),
                at("data.len"@, ValueView::Unsigned(d.len() as u64)),
            ]
        }),
{
    broadcast use writing;

    nothing_written(m);
    let n = d.len() as int;
    let at = |name: Seq<char>, value: ValueView|
        Field { abbrev: name, source: m.source, start: m.base, end: m.base + n, value };
    assert(written(data_layer(d, m), m.count()) =~= seq![
        at("data"@, ValueView::Empty),
        at("data.data"@, ValueView::Bytes),
        at("data.len"@, ValueView::Unsigned(d.len() as u64)),
    ]);
}

/// A frame with a layer that could not be read says so: it is named after the
/// layer, says what was wrong, and nothing more is read of it.
pub proof fn unreadable_layers_are_named(
    proto: Proto,
    e: DissectError,
    offset: int,
    source_len: int,
    d: Seq<u8>,
    before: Model,
    m: Model,
)
    ensures
        ({
            let after = malformed(proto, e, offset, source_len, d, before, m);
            &&& after.next is None
            &&& after.summary.protocol == proto.called()
            &&& after.summary.info == "[Malformed Packet: "@ + proto.called() + "] "@ + e.message()
        }),
{
    reveal(Model::set_info);
    reveal(Model::named);
    reveal(Model::next_taken);
}

/// Fields are read one after the other, and the first that does not fit is
/// what is missing: where it begins, how long it is, and how much of it is
/// there.
pub proof fn the_first_field_that_does_not_fit_is_missing(
    at: int,
    left: int,
    widths: Seq<usize>,
)
    requires
        0 <= at,
        0 <= left,
        at + left <= usize::MAX,
        widths.len() > 0,
    ensures
        left < widths[0] || widths.len() == 1 ==> shortfall(at, left, widths) == cut(
            at,
            widths[0] as int,
            left,
        ),
        widths.len() > 1 && left >= widths[0] ==> shortfall(at, left, widths) == shortfall(
            at + widths[0],
            left - widths[0],
            widths.skip(1),
        ),
{
    assert(widths.skip(1) =~= widths.drop_first());
}

} // verus!

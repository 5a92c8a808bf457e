//! A row's byte range lies inside that of the row it stands under.
//!
//! Rows without bytes, and rows about another data source than the row they
//! stand under, stand for themselves.

use vstd::prelude::*;

use super::ctx::Model;
use super::cursor::SourceId;
use super::node::Row;
use super::proto::Outcome;
use super::ranges::end_at_counts;
use super::reporting::ops::end_at_moves;
use ops::{end_at_fine, end_at_kids, end_at_opened, end_at_roomy};

pub mod dhcp;
pub mod dns;
pub mod frame;
pub mod http;
pub mod icmp;
pub mod icmpv6;
pub mod ipv6;
pub mod link;
pub mod network;
pub mod ops;
pub mod tls;
pub mod transport;

verus! {

/// The bytes `start..end` lie in those of row `c`, unless either is empty.
pub open spec fn covers(c: Row, s: SourceId, start: int, end: int) -> bool {
    start >= end || c.start >= c.end || c.source != s || (c.start <= start && end <= c.end)
}

/// Row `r` may stand under row `c`.
pub open spec fn holds(c: Row, r: Row) -> bool {
    covers(c, r.source, r.start, r.end)
}

/// The last row that is at most `d` deep, or less than nothing.
pub open spec fn last_at_most(rows: Seq<Row>, d: int) -> int
    decreases rows.len(),
{
    if rows.len() == 0 {
        -1
    } else if rows.last().depth <= d {
        rows.len() - 1
    } else {
        last_at_most(rows.drop_last(), d)
    }
}

/// The row that row `i` stands under, or less than nothing.
pub open spec fn parent_of(rows: Seq<Row>, i: int) -> int {
    last_at_most(rows.take(i), rows[i].depth - 1)
}

/// Row `i` lies in the row it stands under.
pub open spec fn nested_at(rows: Seq<Row>, i: int) -> bool {
    parent_of(rows, i) >= 0 ==> holds(rows[parent_of(rows, i)], rows[i])
}

/// Every row lies in the row it stands under.
pub open spec fn all_nested(rows: Seq<Row>) -> bool {
    forall|i: int| 0 <= i < rows.len() ==> #[trigger] nested_at(rows, i)
}

/// Every row of the frame so far lies in the row it stands under.
#[verifier::opaque]
pub open spec fn fine(m: Model) -> bool {
    &&& all_nested(m.trace.rows)
    &&& forall|i: int|
        #![trigger m.trace.rows[i]]
        0 <= i < m.count() ==> 0 <= m.trace.rows[i].depth
}

/// The container open at depth `d`, if there is one, has room for `lo..hi` of
/// source `s`.
#[verifier::opaque]
pub open spec fn roomy(m: Model, d: int, s: SourceId, lo: int, hi: int) -> bool {
    d >= 0 ==> d < m.trace.depth && (last_at_most(m.trace.rows, d) >= 0 ==> covers(
        m.trace.rows[last_at_most(m.trace.rows, d)],
        s,
        lo,
        hi,
    ))
}

/// Row `id` is the container open at depth `d`; it starts at `p` of source `s`.
#[verifier::opaque]
pub open spec fn opened(m: Model, d: int, id: int, s: SourceId, p: int) -> bool {
    &&& 0 <= d < m.trace.depth
    &&& 0 <= id < m.count()
    &&& last_at_most(m.trace.rows, d) == id
    &&& m.trace.rows[id].depth == d
    &&& m.trace.rows[id].source == s
    &&& m.trace.rows[id].start == p
}

/// The rows behind row `id` about source `s` lie in `lo..hi`.
#[verifier::opaque]
pub open spec fn kids(m: Model, id: int, s: SourceId, lo: int, hi: int) -> bool {
    forall|i: int|
        #![trigger m.trace.rows[i]]
        0 <= i && id < i < m.count() && m.trace.rows[i].source == s ==> {
            ||| m.trace.rows[i].start >= m.trace.rows[i].end
            ||| lo <= m.trace.rows[i].start && m.trace.rows[i].end <= hi
        }
}

pub broadcast proof fn roomy_nowhere(m: Model, d: int, s: SourceId, lo: int, hi: int)
    requires
        d < 0,
    ensures
        #[trigger] roomy(m, d, s, lo, hi),
{
    reveal(roomy);
}

pub broadcast proof fn roomy_empty(m: Model, d: int, s: SourceId, lo: int, hi: int)
    requires
        lo >= hi,
        d < m.trace.depth,
    ensures
        #[trigger] roomy(m, d, s, lo, hi),
{
    reveal(roomy);
}

pub broadcast proof fn kids_none(m: Model, id: int, s: SourceId, lo: int, hi: int)
    requires
        id >= m.count() - 1,
    ensures
        #[trigger] kids(m, id, s, lo, hi),
{
    reveal(kids);
}

pub broadcast proof fn opened_facts(m: Model, d: int, id: int, s: SourceId, p: int)
    requires
        #[trigger] opened(m, d, id, s, p),
    ensures
        0 <= d < m.trace.depth,
        0 <= id < m.count(),
        m.trace.rows[id].depth == d,
        m.trace.rows[id].source == s,
        m.trace.rows[id].start == p,
{
    reveal(opened);
}

// ---- rows -----------------------------------------------------------------------------

pub proof fn last_pushed(rows: Seq<Row>, r: Row, d: int)
    ensures
        last_at_most(rows.push(r), d) == (if r.depth <= d {
            rows.len() as int
        } else {
            last_at_most(rows, d)
        }),
{
    assert(rows.push(r).drop_last() =~= rows);
}

pub proof fn last_bounds(rows: Seq<Row>, d: int)
    ensures
        -1 <= last_at_most(rows, d) < rows.len(),
        last_at_most(rows, d) >= 0 ==> rows[last_at_most(rows, d)].depth <= d,
        forall|i: int|
            #![trigger rows[i]]
            last_at_most(rows, d) < i < rows.len() ==> rows[i].depth > d,
    decreases rows.len(),
{
    if rows.len() > 0 && rows.last().depth > d {
        last_bounds(rows.drop_last(), d);
        let front = rows.drop_last();
        assert forall|i: int|
            #![trigger rows[i]]
            last_at_most(rows, d) < i < rows.len() implies rows[i].depth > d by {
            if i < front.len() {
                assert(front[i] == rows[i]);
            }
        }
    }
}

/// One more row, in the container it stands in.
pub proof fn row_nested(rows: Seq<Row>, r: Row)
    requires
        all_nested(rows),
        ({
            let p = last_at_most(rows, r.depth - 1);
            p >= 0 ==> holds(rows[p], r)
        }),
    ensures
        all_nested(rows.push(r)),
{
    let more = rows.push(r);
    last_bounds(rows, r.depth - 1);
    assert forall|i: int| 0 <= i < more.len() implies #[trigger] nested_at(more, i) by {
        if i < rows.len() {
            assert(more.take(i) =~= rows.take(i));
            assert(nested_at(rows, i));
            last_bounds(rows.take(i), rows[i].depth - 1);
        } else {
            assert(more.take(i) =~= rows);
        }
    }
}

proof fn last_same(a: Seq<Row>, b: Seq<Row>, d: int)
    requires
        a.len() == b.len(),
        forall|i: int| #![trigger a[i]] 0 <= i < a.len() ==> a[i].depth == b[i].depth,
    ensures
        last_at_most(a, d) == last_at_most(b, d),
    decreases a.len(),
{
    if a.len() > 0 {
        assert(a.last().depth == b.last().depth) by {
            assert(a[a.len() - 1].depth == b[a.len() - 1].depth);
        }
        let (x, y) = (a.drop_last(), b.drop_last());
        assert forall|i: int| #![trigger x[i]] 0 <= i < x.len() implies x[i].depth
            == y[i].depth by {
            assert(a[i].depth == b[i].depth);
        }
        last_same(x, y, d);
    }
}

pub proof fn last_kept(rows: Seq<Row>, id: int, r: Row, d: int)
    requires
        0 <= id < rows.len(),
        r.depth == rows[id].depth,
    ensures
        last_at_most(rows.update(id, r), d) == last_at_most(rows, d),
{
    last_same(rows.update(id, r), rows, d);
}

/// A row whose place and name stay.
pub proof fn row_relabelled(rows: Seq<Row>, id: int, r: Row)
    requires
        all_nested(rows),
        0 <= id < rows.len(),
        r == (Row { text: r.text, value: r.value, ..rows[id] }),
    ensures
        all_nested(rows.update(id, r)),
{
    let more = rows.update(id, r);
    assert forall|i: int| 0 <= i < more.len() implies #[trigger] nested_at(more, i) by {
        assert(nested_at(rows, i));
        last_same(more.take(i), rows.take(i), rows[i].depth - 1);
        last_bounds(rows.take(i), rows[i].depth - 1);
    }
}

/// The last row at most `d` deep, and what stands before it.
proof fn last_before(rows: Seq<Row>, d: int, id: int)
    requires
        last_at_most(rows, d) == id,
        id >= 0,
        rows[id].depth == d,
    ensures
        last_at_most(rows.take(id), d - 1) == last_at_most(rows, d - 1),
    decreases rows.len(),
{
    last_bounds(rows, d);
    if id == rows.len() - 1 {
        assert(rows.take(id) =~= rows.drop_last());
    } else {
        last_before(rows.drop_last(), d, id);
        assert(rows.drop_last().take(id) =~= rows.take(id));
    }
}

/// A container that now ends at `e`.
pub proof fn row_ended(m: Model, d: int, id: int, s: SourceId, p: int, e: int)
    requires
        fine(m),
        opened(m, d, id, s, p),
        kids(m, id, s, p, e),
        roomy(m, d - 1, s, p, e),
    ensures
        all_nested(m.trace.rows.update(id, Row { end: e, ..m.trace.rows[id] })),
{
    reveal(fine);
    reveal(opened);
    reveal(kids);
    reveal(roomy);
    let rows = m.trace.rows;
    let r = Row { end: e, ..rows[id] };
    let more = rows.update(id, r);
    last_before(rows, d, id);
    assert forall|i: int| 0 <= i < more.len() implies #[trigger] nested_at(more, i) by {
        assert(nested_at(rows, i));
        last_same(more.take(i), rows.take(i), rows[i].depth - 1);
        last_bounds(rows.take(i), rows[i].depth - 1);
        let q = parent_of(rows, i);
        if i == id {
            if q >= 0 {
                last_bounds(rows, d - 1);
            }
        } else if q == id {
            assert(id < i);
            assert(rows[i].source == s ==> rows[i].start >= rows[i].end
                || (p <= rows[i].start && rows[i].end <= e));
        }
    }
}

/// Rows written at depth `depth` or deeper leave the containers above open.
pub proof fn rows_deeper(rows: Seq<Row>, more: Seq<Row>, depth: int, d: int)
    requires
        rows.len() <= more.len(),
        forall|i: int| #![trigger more[i]] 0 <= i < rows.len() ==> more[i] == rows[i],
        forall|i: int| #![trigger more[i]] rows.len() <= i < more.len() ==> more[i].depth >= depth,
    ensures
        d < depth ==> last_at_most(more, d) == last_at_most(rows, d),
        d == depth && rows.len() < more.len() && more[rows.len() as int].depth == depth && (forall|
            i: int,
        |
            #![trigger more[i]]
            rows.len() < i < more.len() ==> more[i].depth > depth) ==> last_at_most(more, d)
            == rows.len(),
    decreases more.len(),
{
    if more.len() == rows.len() {
        assert(more =~= rows);
    } else {
        let front = more.drop_last();
        assert(forall|i: int| #![trigger front[i]] 0 <= i < front.len() ==> front[i] == more[i]);
        rows_deeper(rows, front, depth, d);
    }
}

/// Nothing stands under a row that is not there.
pub proof fn no_parent(rows: Seq<Row>)
    requires
        forall|i: int| #![trigger rows[i]] 0 <= i < rows.len() ==> 0 <= rows[i].depth,
    ensures
        last_at_most(rows, -1) == -1,
{
    last_bounds(rows, -1);
    if last_at_most(rows, -1) >= 0 {
        assert(rows[last_at_most(rows, -1)].depth >= 0);
    }
}

/// What was open stays open, and what was written lies in `lo..hi`.
pub open spec fn wrote(m: Model, x: Model, lo: int, hi: int) -> bool {
    &&& fine(x)
    &&& x.count() >= m.count()
    &&& x.base == m.base
    &&& x.source == m.source
    &&& forall|id: int, a: int, b: int|
        kids(m, id, m.source, a, b) && a <= lo && hi <= b ==> #[trigger] kids(
            x,
            id,
            m.source,
            a,
            b,
        )
    &&& forall|d: int, a: int, b: int|
        roomy(m, d, m.source, a, b) && d < m.trace.depth ==> #[trigger] roomy(
            x,
            d,
            m.source,
            a,
            b,
        )
    &&& forall|d: int, id: int, p: int|
        opened(m, d, id, m.source, p) ==> #[trigger] opened(x, d, id, m.source, p)
}

/// What was written lies in `lo..hi`, and no container was left open.
pub open spec fn closed_in(m: Model, x: Model, lo: int, hi: int) -> bool {
    wrote(m, x, lo, hi) && x.trace.depth == m.trace.depth
}

/// The innermost container has room for all of `lo..hi`.
pub open spec fn fits_all(m: Model, lo: int, hi: int) -> bool {
    &&& fine(m)
    &&& 0 <= m.trace.depth < 240
    &&& forall|a: int, b: int|
        lo <= a && b <= hi ==> #[trigger] roomy(m, m.trace.depth - 1, m.source, a, b)
}

/// Pieces written one behind the other.
pub proof fn wrote_on(m: Model, x: Model, y: Model, lo: int, hi: int, lo2: int, hi2: int)
    requires
        wrote(m, x, lo, hi),
        wrote(x, y, lo2, hi2),
        lo <= lo2,
        hi2 <= hi,
        x.trace.depth >= m.trace.depth,
    ensures
        wrote(m, y, lo, hi),
{
}

/// A container about other bytes has room for anything.
pub proof fn roomy_elsewhere(
    m: Model,
    d: int,
    id: int,
    s: SourceId,
    p: int,
    other: SourceId,
    lo: int,
    hi: int,
)
    requires
        opened(m, d, id, s, p),
        other != s,
    ensures
        roomy(m, d, other, lo, hi),
{
    reveal(opened);
    reveal(roomy);
}

/// Where the slice starts and how deep it is quoted do not matter to rows.
pub proof fn wrote_elsewhere(m: Model, base: int, nesting: u8, x: Model, lo: int, hi: int)
    requires
        wrote(m.nested(nesting).with_base(base), x, lo, hi),
    ensures
        wrote(m, x.with_base(m.base).nested(m.nesting), lo, hi),
{
    let inner = m.nested(nesting).with_base(base);
    let y = x.with_base(m.base).nested(m.nesting);
    assert(y.trace == x.trace && inner.trace == m.trace && inner.source == m.source && y.source
        == x.source && y.base == m.base) by {
        reveal(Model::with_base);
        reveal(Model::nested);
    }
    same_rows(x, y);
    same_rows(m, inner);
}

/// What is said of a frame's rows depends on nothing else.
proof fn same_rows(m: Model, x: Model)
    requires
        m.trace == x.trace,
    ensures
        fine(m) == fine(x),
        forall|id: int, s: SourceId, a: int, b: int| #[trigger]
            kids(m, id, s, a, b) == kids(x, id, s, a, b),
        forall|id: int, s: SourceId, a: int, b: int| #[trigger]
            kids(x, id, s, a, b) == kids(m, id, s, a, b),
        forall|d: int, s: SourceId, a: int, b: int| #[trigger]
            roomy(m, d, s, a, b) == roomy(x, d, s, a, b),
        forall|d: int, s: SourceId, a: int, b: int| #[trigger]
            roomy(x, d, s, a, b) == roomy(m, d, s, a, b),
        forall|d: int, id: int, s: SourceId, p: int| #[trigger]
            opened(m, d, id, s, p) == opened(x, d, id, s, p),
        forall|d: int, id: int, s: SourceId, p: int| #[trigger]
            opened(x, d, id, s, p) == opened(m, d, id, s, p),
{
    reveal(fine);
    reveal(kids);
    reveal(roomy);
    reveal(opened);
}

/// A dissector may start on `d`.
pub open spec fn begins(d: Seq<u8>, m: Model) -> bool {
    &&& 0 <= m.base
    &&& m.trace.depth < 200
    &&& fits_all(m, m.base, m.base + d.len())
}

/// A layer writes rows about its own bytes, each in the row it stands under;
/// one that fails has written nothing, or left its own row open.
pub open spec fn nests(d: Seq<u8>, m: Model, o: Outcome) -> bool {
    &&& wrote(m, o.0, m.base, m.base + d.len())
    &&& o.1 is Some ==> o.0.count() == m.count() || opened(
        o.0,
        m.trace.depth,
        m.count(),
        m.source,
        m.base,
    )
}

/// A container closed at `e`.
pub proof fn shut(m: Model, x: Model, id: int, p: int, e: int, lo: int, hi: int)
    requires
        wrote(m, x, lo, hi),
        x.trace.depth == m.trace.depth + 1,
        opened(x, m.trace.depth, id, m.source, p),
        kids(x, id, m.source, p, e),
        m.count() <= id,
        fits_all(m, lo, hi),
        lo <= p,
        e <= hi,
    ensures
        closed_in(m, x.end_at(id, e), lo, hi),
        x.end_at(id, e).count() == x.count(),
{
    opened_facts(x, m.trace.depth, id, m.source, p);
    assert(roomy(m, m.trace.depth - 1, m.source, p, e));
    assert(roomy(x, m.trace.depth - 1, m.source, p, e));
    end_at_fine(x, m.trace.depth, m.source, p, id, e);
    let y = x.end_at(id, e);
    end_at_counts(x, id, e);
    end_at_moves(x, id, e);
    assert forall|i: int, a: int, b: int|
        kids(m, i, m.source, a, b) && a <= lo && hi <= b implies #[trigger] kids(
        y,
        i,
        m.source,
        a,
        b,
    ) by {
        assert(kids(x, i, m.source, a, b));
        end_at_kids(x, i, m.source, a, b, id, e);
    }
    assert forall|d: int, a: int, b: int|
        roomy(m, d, m.source, a, b) && d < m.trace.depth implies #[trigger] roomy(
        y,
        d,
        m.source,
        a,
        b,
    ) by {
        assert(roomy(x, d, m.source, a, b));
        end_at_roomy(x, d, m.source, a, b, id, e);
    }
    assert forall|d: int, i: int, q: int|
        opened(m, d, i, m.source, q) implies #[trigger] opened(y, d, i, m.source, q) by {
        opened_facts(m, d, i, m.source, q);
        assert(opened(x, d, i, m.source, q));
        end_at_opened(x, d, i, m.source, q, id, e);
    }
}

} // verus!

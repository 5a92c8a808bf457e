//! Settings change what a dissector reports, never what it parses.
//!
//! Two dissections of the same frame under different settings write the same
//! rows, but for the verdicts on checksums and for the expert records that
//! follow from them. That is shown here for each operation on a frame being
//! dissected, then for each protocol, and then for whole frames.

use vstd::prelude::*;

use super::ctx::{Model, Options};
use super::cursor::SourceId;
use super::node::{furthest, Row, Trace, ValueView};
use super::proto::Outcome;
use super::SummaryView;

pub mod dhcp;
pub mod dns;
pub mod frame;
pub mod http;
pub mod icmp;
pub mod icmpv6;
pub mod ipv6;
pub mod link;
pub mod network;
pub mod ops;
pub mod tls;
pub mod transport;
pub mod verdicts;

verus! {

/// Places in two dissections that correspond.
pub type Bases = Seq<(int, int)>;

/// The row is part of an expert record, or the finding it belongs to.
pub open spec fn is_report(abbrev: Seq<char>) -> bool {
    abbrev == "_ws.expert"@ || abbrev == "_ws.expert.severity"@ || abbrev == "_ws.expert.group"@
        || abbrev == "_ws.checksum.bad"@
}

/// The row tells the verdict on a checksum.
pub open spec fn is_status(abbrev: Seq<char>) -> bool {
    abbrev == "ip.checksum.status"@ || abbrev == "icmp.checksum.status"@ || abbrev
        == "icmpv6.checksum.status"@ || abbrev == "tcp.checksum.status"@ || abbrev
        == "udp.checksum.status"@
}

/// The row without the verdict, where it tells one.
pub open spec fn shape(r: Row) -> Row {
    if is_status(r.abbrev) {
        Row { value: ValueView::Empty, ..r }
    } else {
        r
    }
}

/// The rows without what is only reported.
pub open spec fn plain(rows: Seq<Row>) -> Seq<Row>
    decreases rows.len(),
{
    if rows.len() == 0 {
        Seq::empty()
    } else if is_report(rows.last().abbrev) {
        plain(rows.drop_last())
    } else {
        plain(rows.drop_last()).push(shape(rows.last()))
    }
}

/// The summary without the worst finding.
pub open spec fn quiet(s: SummaryView) -> SummaryView {
    SummaryView { expert: None, ..s }
}

/// What is known of a frame besides its rows and what is reported.
pub open spec fn rest(m: Model) -> Model {
    Model {
        options: Options { validate_ip_checksums: true, validate_transport_checksums: true },
        summary: quiet(m.summary),
        trace: Trace { rows: Seq::empty(), depth: m.trace.depth },
        ..m
    }
}

/// How many rows before `i` are not only reported.
pub open spec fn rank(rows: Seq<Row>, i: int) -> int {
    plain(rows.take(i)).len() as int
}

/// Rows `i` and `j` correspond.
pub open spec fn twins(a: Seq<Row>, i: int, b: Seq<Row>, j: int) -> bool {
    &&& 0 <= i <= a.len()
    &&& 0 <= j <= b.len()
    &&& rank(a, i) == rank(b, j)
    &&& i == a.len() <==> j == b.len()
    &&& i < a.len() ==> a[i].abbrev == b[j].abbrev && a[i].source == b[j].source && a[i].start
        == b[j].start
}

/// The rows agree but for what is reported, and reach as far from each of
/// `bases` on.
pub open spec fn same_rows(bases: Bases, a: Seq<Row>, b: Seq<Row>) -> bool {
    &&& plain(a) == plain(b)
    &&& forall|k: int|
        #![trigger bases[k]]
        0 <= k < bases.len() ==> twins(a, bases[k].0, b, bases[k].1)
    &&& forall|k: int, s: SourceId, least: int|
        #![trigger furthest(a, bases[k].0, s, least)]
        #![trigger furthest(b, bases[k].1, s, least)]
        0 <= k < bases.len() ==> furthest(a, bases[k].0, s, least) == furthest(
            b,
            bases[k].1,
            s,
            least,
        )
}

/// Two dissections agree but for what they report.
#[verifier::opaque]
pub open spec fn alike(bases: Bases, m1: Model, m2: Model) -> bool {
    &&& rest(m1) == rest(m2)
    &&& same_rows(bases, m1.trace.rows, m2.trace.rows)
}

/// Rows `i1` and `i2` correspond, behind all of `bases`.
#[verifier::opaque]
pub open spec fn level(bases: Bases, m1: Model, i1: int, m2: Model, i2: int) -> bool {
    &&& twins(m1.trace.rows, i1, m2.trace.rows, i2)
    &&& forall|k: int|
        #![trigger bases[k]]
        0 <= k < bases.len() ==> bases[k].0 <= i1 && bases[k].1 <= i2
}

/// Row `i`, if it is written already, ends at `e` at the latest.
#[verifier::opaque]
pub open spec fn ends_by(m: Model, i: int, e: int) -> bool {
    0 <= i < m.count() ==> m.trace.rows[i].end <= e
}

pub broadcast proof fn alike_facts(bases: Bases, m1: Model, m2: Model)
    requires
        #[trigger] alike(bases, m1, m2),
    ensures
        m1.link_type == m2.link_type,
        m1.frame_number == m2.frame_number,
        m1.ts == m2.ts,
        m1.state == m2.state,
        m1.stream == m2.stream,
        m1.origin == m2.origin,
        m1.held_bytes == m2.held_bytes,
        quiet(m1.summary) == quiet(m2.summary),
        m1.summary.info == m2.summary.info,
        m1.summary.protocol == m2.summary.protocol,
        m1.trace.depth == m2.trace.depth,
        m1.protocols == m2.protocols,
        m1.addrs == m2.addrs,
        m1.extra == m2.extra,
        m1.source == m2.source,
        m1.base == m2.base,
        m1.next == m2.next,
        m1.nesting == m2.nesting,
{
    reveal(alike);
    let (a, b) = (rest(m1), rest(m2));
    assert(a.summary == b.summary && a.trace.depth == b.trace.depth);
}

pub broadcast proof fn level_first(bases: Bases, m1: Model, i1: int, m2: Model, i2: int)
    requires
        alike(bases, m1, m2),
        i1 == m1.count(),
        i2 == m2.count(),
    ensures
        #[trigger] level(bases, m1, i1, m2, i2),
{
    reveal(alike);
    reveal(level);
    assert(m1.trace.rows.take(i1) =~= m1.trace.rows);
    assert(m2.trace.rows.take(i2) =~= m2.trace.rows);
}

pub broadcast proof fn level_facts(bases: Bases, m1: Model, i1: int, m2: Model, i2: int)
    requires
        #[trigger] level(bases, m1, i1, m2, i2),
    ensures
        0 <= i1 <= m1.count(),
        0 <= i2 <= m2.count(),
        i1 < m1.count() <==> i2 < m2.count(),
{
    reveal(level);
}

pub broadcast proof fn ends_first(m: Model, i: int, e: int)
    requires
        i >= m.count(),
    ensures
        #[trigger] ends_by(m, i, e),
{
    reveal(ends_by);
}

// ---- rows -----------------------------------------------------------------------------

pub proof fn furthest_pushed(rows: Seq<Row>, r: Row, lo: int, s: SourceId, least: int)
    requires
        0 <= lo <= rows.len(),
    ensures
        furthest(rows.push(r), lo, s, least) == ({
            let before = furthest(rows, lo, s, least);
            if r.source == s && r.end > before {
                r.end
            } else {
                before
            }
        }),
    decreases rows.len() - lo,
{
    let more = rows.push(r);
    if lo < rows.len() {
        assert(more[lo] == rows[lo]);
        let next = if rows[lo].source == s && rows[lo].end > least {
            rows[lo].end
        } else {
            least
        };
        furthest_pushed(rows, r, lo + 1, s, next);
    } else {
        assert(more[lo] == r);
        assert(furthest(more, lo + 1, s, if r.source == s && r.end > least {
            r.end
        } else {
            least
        }) == if r.source == s && r.end > least {
            r.end
        } else {
            least
        });
    }
}

/// The later of two ends.
pub open spec fn later(a: int, b: int) -> int {
    if a > b {
        a
    } else {
        b
    }
}

pub proof fn furthest_from(rows: Seq<Row>, lo: int, s: SourceId, a: int, b: int)
    ensures
        furthest(rows, lo, s, later(a, b)) == later(furthest(rows, lo, s, a), b),
    decreases rows.len() - lo,
{
    if 0 <= lo < rows.len() {
        let r = rows[lo];
        let up = |x: int|
            if r.source == s && r.end > x {
                r.end
            } else {
                x
            };
        assert(up(later(a, b)) == later(up(a), b));
        furthest_from(rows, lo + 1, s, up(a), b);
    }
}

pub proof fn furthest_changed(rows: Seq<Row>, i: int, e: int, lo: int, s: SourceId, least: int)
    requires
        0 <= lo <= i < rows.len(),
        rows[i].end <= e,
    ensures
        furthest(rows.update(i, Row { end: e, ..rows[i] }), lo, s, least) == (if rows[i].source
            == s {
            later(furthest(rows, lo, s, least), e)
        } else {
            furthest(rows, lo, s, least)
        }),
    decreases rows.len() - lo,
{
    let changed = rows.update(i, Row { end: e, ..rows[i] });
    let next = if rows[lo].source == s && rows[lo].end > least {
        rows[lo].end
    } else {
        least
    };
    if lo < i {
        assert(changed[lo] == rows[lo]);
        furthest_changed(rows, i, e, lo + 1, s, next);
    } else {
        furthest_same(rows, changed, lo + 1, s, later(next, e));
        furthest_same(rows, changed, lo + 1, s, next);
        furthest_from(rows, lo + 1, s, next, e);
    }
}

proof fn furthest_same(a: Seq<Row>, b: Seq<Row>, lo: int, s: SourceId, least: int)
    requires
        a.len() == b.len(),
        0 <= lo,
        forall|k: int| #![trigger a[k]] #![trigger b[k]] lo <= k < a.len() ==> a[k].end == b[k].end
            && a[k].source == b[k].source,
    ensures
        furthest(a, lo, s, least) == furthest(b, lo, s, least),
    decreases a.len() - lo,
{
    if lo < a.len() {
        assert(a[lo].end == b[lo].end);
        furthest_same(
            a,
            b,
            lo + 1,
            s,
            if a[lo].source == s && a[lo].end > least {
                a[lo].end
            } else {
                least
            },
        );
    }
}

proof fn furthest_kept(rows: Seq<Row>, i: int, r: Row, lo: int, s: SourceId, least: int)
    requires
        0 <= i < rows.len(),
        0 <= lo,
        r.end == rows[i].end,
        r.source == rows[i].source,
    ensures
        furthest(rows.update(i, r), lo, s, least) == furthest(rows, lo, s, least),
{
    furthest_same(rows.update(i, r), rows, lo, s, least);
}

/// One more row in both.
pub proof fn row_pushed(bases: Bases, a: Seq<Row>, b: Seq<Row>, r: Row, q: Row)
    requires
        same_rows(bases, a, b),
        shape(r) == shape(q),
    ensures
        same_rows(bases, a.push(r), b.push(q)),
{
    let (a1, b1) = (a.push(r), b.push(q));
    assert(a1.drop_last() =~= a && b1.drop_last() =~= b);
    assert(r.abbrev == q.abbrev && r.source == q.source && r.end == q.end && r.start == q.start);
    assert forall|k: int| #![trigger bases[k]] 0 <= k < bases.len() implies twins(
        a1,
        bases[k].0,
        b1,
        bases[k].1,
    ) by {
        assert(a1.take(bases[k].0) =~= a.take(bases[k].0));
        assert(b1.take(bases[k].1) =~= b.take(bases[k].1));
    }
    assert forall|k: int, s: SourceId, least: int|
        #![trigger furthest(a1, bases[k].0, s, least)]
        #![trigger furthest(b1, bases[k].1, s, least)]
        0 <= k < bases.len() implies furthest(a1, bases[k].0, s, least) == furthest(
        b1,
        bases[k].1,
        s,
        least,
    ) by {
        furthest_pushed(a, r, bases[k].0, s, least);
        furthest_pushed(b, q, bases[k].1, s, least);
        assert(furthest(a, bases[k].0, s, least) == furthest(b, bases[k].1, s, least));
    }
}

/// One more row in both, whatever it holds.
pub proof fn rows_pushed(bases: Bases, m1: Model, m2: Model)
    requires
        same_rows(bases, m1.trace.rows, m2.trace.rows),
    ensures
        forall|r: Row| #[trigger]
            same_rows(bases, m1.trace.rows.push(r), m2.trace.rows.push(r)),
        forall|r: Row, q: Row, u: Row, v: Row|
            same_rows(
                bases,
                #[trigger] m1.trace.rows.push(r).push(q).push(u).push(v),
                m2.trace.rows.push(r).push(q).push(u).push(v),
            ),
{
    let (a, b) = (m1.trace.rows, m2.trace.rows);
    assert forall|r: Row| #[trigger] same_rows(bases, a.push(r), b.push(r)) by {
        row_pushed(bases, a, b, r, r);
    }
    assert forall|r: Row, q: Row, u: Row, v: Row|
        same_rows(
            bases,
            #[trigger] a.push(r).push(q).push(u).push(v),
            b.push(r).push(q).push(u).push(v),
        ) by {
        row_pushed(bases, a, b, r, r);
        row_pushed(bases, a.push(r), b.push(r), q, q);
        row_pushed(bases, a.push(r).push(q), b.push(r).push(q), u, u);
        row_pushed(bases, a.push(r).push(q).push(u), b.push(r).push(q).push(u), v, v);
    }
}

/// Rows written later leave the place of a row as it is.
pub proof fn rows_stay(m: Model, i: int)
    requires
        0 <= i <= m.count(),
    ensures
        forall|r: Row| rank(#[trigger] m.trace.rows.push(r), i) == rank(m.trace.rows, i),
        forall|r: Row, q: Row, u: Row, v: Row|
            rank(#[trigger] m.trace.rows.push(r).push(q).push(u).push(v), i) == rank(
                m.trace.rows,
                i,
            ),
{
    let a = m.trace.rows;
    assert forall|r: Row| rank(#[trigger] a.push(r), i) == rank(a, i) by {
        assert(a.push(r).take(i) =~= a.take(i));
    }
    assert forall|r: Row, q: Row, u: Row, v: Row|
        rank(#[trigger] a.push(r).push(q).push(u).push(v), i) == rank(a, i) by {
        assert(a.push(r).push(q).push(u).push(v).take(i) =~= a.take(i));
    }
}

/// Changing a row leaves the place of every row as it is.
pub proof fn rank_stays(rows: Seq<Row>, id: int, r: Row, i: int)
    requires
        0 <= id < rows.len(),
        r.abbrev == rows[id].abbrev,
        0 <= i <= rows.len(),
    ensures
        rank(rows.update(id, r), i) == rank(rows, i),
    decreases i,
{
    let changed = rows.update(id, r);
    if i > 0 {
        rank_stays(rows, id, r, i - 1);
        assert(rows.take(i).drop_last() =~= rows.take(i - 1));
        assert(changed.take(i).drop_last() =~= changed.take(i - 1));
        assert(changed[i - 1].abbrev == rows[i - 1].abbrev);
    }
}

/// Changing a row changes what it is without reports.
pub proof fn plain_changed(rows: Seq<Row>, id: int, r: Row)
    requires
        0 <= id < rows.len(),
        r.abbrev == rows[id].abbrev,
    ensures
        is_report(r.abbrev) ==> plain(rows.update(id, r)) == plain(rows),
        !is_report(r.abbrev) ==> 0 <= rank(rows, id) < plain(rows).len() && plain(
            rows,
        )[rank(rows, id)] == shape(rows[id]) && plain(rows.update(id, r)) == plain(rows).update(
            rank(rows, id),
            shape(r),
        ),
    decreases rows.len(),
{
    let changed = rows.update(id, r);
    let last = rows.len() - 1;
    if id == last {
        assert(changed.drop_last() =~= rows.drop_last());
        assert(rows.take(id) =~= rows.drop_last());
        if !is_report(r.abbrev) {
            let p = plain(rows.drop_last());
            assert(p.push(shape(rows[id])).update(p.len() as int, shape(r)) =~= p.push(shape(r)));
        }
    } else {
        let front = rows.drop_last();
        plain_changed(front, id, r);
        assert(changed.drop_last() =~= front.update(id, r));
        assert(front.take(id) =~= rows.take(id));
        assert(changed.last() == rows.last());
        if !is_report(r.abbrev) {
            let k = rank(rows, id);
            let p = plain(front);
            if !is_report(rows.last().abbrev) {
                let z = shape(rows.last());
                assert(p.push(z).update(k, shape(r)) =~= p.update(k, shape(r)).push(z));
            }
        }
    }
}

/// Corresponding rows changed in the same way.
pub proof fn rows_changed(
    bases: Bases,
    m1: Model,
    i1: int,
    r: Row,
    m2: Model,
    i2: int,
    q: Row,
)
    requires
        same_rows(bases, m1.trace.rows, m2.trace.rows),
        0 <= i1 < m1.count(),
        0 <= i2 < m2.count(),
        twins(m1.trace.rows, i1, m2.trace.rows, i2),
        forall|k: int|
            #![trigger bases[k]]
            0 <= k < bases.len() ==> bases[k].0 <= i1 && bases[k].1 <= i2,
        r.end == q.end,
        r == (Row { end: r.end, text: r.text, value: r.value, ..m1.trace.rows[i1] }),
        q == (Row { end: r.end, text: q.text, value: q.value, ..m2.trace.rows[i2] }),
        shape(m1.trace.rows[i1]) == shape(m2.trace.rows[i2]) ==> shape(r) == shape(q),
        m1.trace.rows[i1].end <= r.end,
        m2.trace.rows[i2].end <= r.end,
    ensures
        same_rows(bases, m1.trace.rows.update(i1, r), m2.trace.rows.update(i2, q)),
{
    let (a, b) = (m1.trace.rows, m2.trace.rows);
    let (a1, b1) = (a.update(i1, r), b.update(i2, q));
    plain_changed(a, i1, r);
    plain_changed(b, i2, q);
    assert forall|k: int| #![trigger bases[k]] 0 <= k < bases.len() implies twins(
        a1,
        bases[k].0,
        b1,
        bases[k].1,
    ) by {
        rank_stays(a, i1, r, bases[k].0);
        rank_stays(b, i2, q, bases[k].1);
    }
    assert forall|k: int, s: SourceId, least: int|
        #![trigger furthest(a1, bases[k].0, s, least)]
        #![trigger furthest(b1, bases[k].1, s, least)]
        0 <= k < bases.len() implies furthest(a1, bases[k].0, s, least) == furthest(
        b1,
        bases[k].1,
        s,
        least,
    ) by {
        let (lo1, lo2) = (bases[k].0, bases[k].1);
        furthest_changed(a, i1, r.end, lo1, s, least);
        furthest_changed(b, i2, r.end, lo2, s, least);
        furthest_same(a1, a.update(i1, Row { end: r.end, ..a[i1] }), lo1, s, least);
        furthest_same(b1, b.update(i2, Row { end: r.end, ..b[i2] }), lo2, s, least);
        assert(furthest(a, lo1, s, least) == furthest(b, lo2, s, least));
    }
}

/// Corresponding rows labelled or filled in the same way.
pub proof fn rows_relabelled(
    bases: Bases,
    m1: Model,
    i1: int,
    r: Row,
    m2: Model,
    i2: int,
    q: Row,
)
    requires
        same_rows(bases, m1.trace.rows, m2.trace.rows),
        0 <= i1 < m1.count(),
        0 <= i2 < m2.count(),
        twins(m1.trace.rows, i1, m2.trace.rows, i2),
        r == (Row { text: r.text, value: r.value, ..m1.trace.rows[i1] }),
        q == (Row { text: q.text, value: q.value, ..m2.trace.rows[i2] }),
        shape(m1.trace.rows[i1]) == shape(m2.trace.rows[i2]) ==> shape(r) == shape(q),
    ensures
        same_rows(bases, m1.trace.rows.update(i1, r), m2.trace.rows.update(i2, q)),
{
    let (a, b) = (m1.trace.rows, m2.trace.rows);
    let (a1, b1) = (a.update(i1, r), b.update(i2, q));
    plain_changed(a, i1, r);
    plain_changed(b, i2, q);
    assert forall|k: int| #![trigger bases[k]] 0 <= k < bases.len() implies twins(
        a1,
        bases[k].0,
        b1,
        bases[k].1,
    ) by {
        rank_stays(a, i1, r, bases[k].0);
        rank_stays(b, i2, q, bases[k].1);
    }
    assert forall|k: int, s: SourceId, least: int|
        #![trigger furthest(a1, bases[k].0, s, least)]
        #![trigger furthest(b1, bases[k].1, s, least)]
        0 <= k < bases.len() implies furthest(a1, bases[k].0, s, least) == furthest(
        b1,
        bases[k].1,
        s,
        least,
    ) by {
        let (lo1, lo2) = (bases[k].0, bases[k].1);
        furthest_kept(a, i1, r, lo1, s, least);
        furthest_kept(b, i2, q, lo2, s, least);
        assert(furthest(a, lo1, s, least) == furthest(b, lo2, s, least));
    }
}

/// The same rows behind both.
pub proof fn rows_appended(bases: Bases, a: Seq<Row>, b: Seq<Row>, t: Seq<Row>)
    requires
        same_rows(bases, a, b),
    ensures
        same_rows(bases, a + t, b + t),
    decreases t.len(),
{
    if t.len() == 0 {
        assert(a + t =~= a && b + t =~= b);
    } else {
        let front = t.drop_last();
        rows_appended(bases, a, b, front);
        row_pushed(bases, a + front, b + front, t.last(), t.last());
        assert(a + t =~= (a + front).push(t.last()));
        assert(b + t =~= (b + front).push(t.last()));
    }
}

/// A frame agrees with itself.
pub proof fn alike_itself(m: Model)
    ensures
        alike(Seq::empty(), m, m),
{
    reveal(alike);
}

/// A dissector may start in both: it starts at a place in the bytes, and not
/// too deep in the tree.
pub open spec fn start_alike(bases: Bases, m1: Model, m2: Model) -> bool {
    &&& alike(bases, m1, m2)
    &&& 0 <= m1.base
    &&& 0 <= m1.trace.depth < 200
}

/// Two layers agree but for what they report, and one that succeeds is back
/// at the depth it started from.
pub open spec fn agree(bases: Bases, depth: int, a: Outcome, b: Outcome) -> bool {
    &&& alike(bases, a.0, b.0)
    &&& a.1 == b.1
    &&& a.1 is None ==> a.0.trace.depth == depth
}

/// Rows that corresponded still do, and earlier rows end where they did.
pub open spec fn carries(bases: Bases, m1: Model, m2: Model, x1: Model, x2: Model) -> bool {
    &&& x1.count() >= m1.count()
    &&& x2.count() >= m2.count()
    &&& x1.base == m1.base
    &&& forall|i1: int, i2: int|
        level(bases, m1, i1, m2, i2) && i1 < m1.count() ==> #[trigger] level(bases, x1, i1, x2, i2)
    &&& forall|i: int, e: int|
        ends_by(m1, i, e) && i < m1.count() ==> #[trigger] ends_by(x1, i, e)
    &&& forall|i: int, e: int|
        ends_by(m2, i, e) && i < m2.count() ==> #[trigger] ends_by(x2, i, e)
}

/// Rows were added in both, which agree but for what is reported, and both
/// are back at the depth they started from.
pub open spec fn added(bases: Bases, m1: Model, m2: Model, x1: Model, x2: Model) -> bool {
    &&& alike(bases, x1, x2)
    &&& carries(bases, m1, m2, x1, x2)
    &&& x1.trace.depth == m1.trace.depth
}

/// What is carried over twice is carried over.
pub proof fn chained(
    bases: Bases,
    m1: Model,
    m2: Model,
    x1: Model,
    x2: Model,
    y1: Model,
    y2: Model,
)
    requires
        carries(bases, m1, m2, x1, x2),
        carries(bases, x1, x2, y1, y2),
    ensures
        carries(bases, m1, m2, y1, y2),
{
}

} // verus!

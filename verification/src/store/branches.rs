//! Which frames a row of the protocol hierarchy counts.

use vstd::prelude::*;

use super::hierarchy::{
    bytes_of, clip, ending, having, longest, nexts, passes, row_for, rows_below, tree_of, RowView,
    Trail,
};

verus! {

/// The chain of a frame begins with `prefix`.
pub open spec fn begins(t: Trail, prefix: Seq<Seq<char>>) -> bool {
    &&& prefix.len() <= t.chain.len()
    &&& forall|i: int| 0 <= i < prefix.len() ==> t.chain[i] == prefix[i]
}

/// How many of the first `n` frames have a chain that begins with `prefix`,
/// or that is `prefix`.
pub open spec fn counted(all: Seq<Trail>, prefix: Seq<Seq<char>>, whole: bool, n: int) -> int
    decreases n,
{
    if n <= 0 {
        0
    } else {
        let t = all[n - 1];
        counted(all, prefix, whole, n - 1) + if begins(t, prefix) && (whole ==> t.chain
            == prefix) {
            1int
        } else {
            0
        }
    }
}

/// The bytes of those frames.
pub open spec fn weighed(all: Seq<Trail>, prefix: Seq<Seq<char>>, whole: bool, n: int) -> int
    decreases n,
{
    if n <= 0 {
        0
    } else {
        let t = all[n - 1];
        weighed(all, prefix, whole, n - 1) + if begins(t, prefix) && (whole ==> t.chain
            == prefix) {
            t.bytes
        } else {
            0
        }
    }
}

/// A row counts the frames whose chain begins with its own chain, and as
/// ending there those whose chain is its own.
pub open spec fn tells(r: RowView, all: Seq<Trail>) -> bool {
    let n = all.len() as int;
    &&& r.chain.len() > 0
    &&& r.name == r.chain.last()
    &&& r.depth == r.chain.len() - 1
    &&& r.packets == counted(all, r.chain, false, n)
    &&& r.end_packets == counted(all, r.chain, true, n)
    &&& r.bytes == clip(weighed(all, r.chain, false, n))
    &&& r.end_bytes == clip(weighed(all, r.chain, true, n))
}

/// The frames among the first `n` whose chain begins with `prefix`.
spec fn starting(all: Seq<Trail>, prefix: Seq<Seq<char>>, n: int) -> Seq<Trail>
    decreases n,
{
    if n <= 0 {
        Seq::empty()
    } else if begins(all[n - 1], prefix) {
        starting(all, prefix, n - 1).push(all[n - 1])
    } else {
        starting(all, prefix, n - 1)
    }
}

proof fn having_same(a: Seq<Trail>, b: Seq<Trail>, depth: int, name: Seq<char>, n: int)
    requires
        0 <= n <= a.len(),
        n <= b.len(),
        forall|i: int| 0 <= i < n ==> a[i] == b[i],
    ensures
        having(a, depth, name, n) == having(b, depth, name, n),
    decreases n,
{
    if n > 0 {
        having_same(a, b, depth, name, n - 1);
    }
}

proof fn narrowed(all: Seq<Trail>, prefix: Seq<Seq<char>>, name: Seq<char>, n: int)
    requires
        0 <= n <= all.len(),
    ensures
        ({
            let some = starting(all, prefix, n);
            having(some, prefix.len() as int, name, some.len() as int) == starting(
                all,
                prefix.push(name),
                n,
            )
        }),
    decreases n,
{
    if n > 0 {
        narrowed(all, prefix, name, n - 1);
        let before = starting(all, prefix, n - 1);
        let some = starting(all, prefix, n);
        let t = all[n - 1];
        let depth = prefix.len() as int;
        let longer = prefix.push(name);
        if begins(t, prefix) {
            having_same(some, before, depth, name, before.len() as int);
            assert(passes(t, depth, name) == begins(t, longer)) by {
                if begins(t, longer) {
                    assert(t.chain[depth] == longer[depth]);
                }
                if passes(t, depth, name) {
                    assert forall|i: int| 0 <= i < longer.len() implies t.chain[i] == longer[i] by {
                        if i < depth {
                            assert(t.chain[i] == prefix[i]);
                        }
                    }
                }
            }
        } else {
            assert(!begins(t, longer)) by {
                if begins(t, longer) {
                    assert forall|i: int| 0 <= i < prefix.len() implies t.chain[i] == prefix[i] by {
                        assert(t.chain[i] == longer[i]);
                    }
                }
            }
        }
    }
}

proof fn ending_same(a: Seq<Trail>, b: Seq<Trail>, len: int, n: int)
    requires
        0 <= n <= a.len(),
        n <= b.len(),
        forall|i: int| 0 <= i < n ==> a[i] == b[i],
    ensures
        ending(a, len, n) == ending(b, len, n),
    decreases n,
{
    if n > 0 {
        ending_same(a, b, len, n - 1);
    }
}

proof fn sizes(all: Seq<Trail>, prefix: Seq<Seq<char>>, n: int)
    requires
        0 <= n <= all.len(),
    ensures
        ({
            let some = starting(all, prefix, n);
            let ends = ending(some, prefix.len() as int, some.len() as int);
            &&& some.len() == counted(all, prefix, false, n)
            &&& bytes_of(some) == weighed(all, prefix, false, n)
            &&& ends.len() == counted(all, prefix, true, n)
            &&& bytes_of(ends) == weighed(all, prefix, true, n)
        }),
    decreases n,
{
    if n > 0 {
        sizes(all, prefix, n - 1);
        let before = starting(all, prefix, n - 1);
        let some = starting(all, prefix, n);
        let t = all[n - 1];
        let len = prefix.len() as int;
        if begins(t, prefix) {
            assert(some.drop_last() =~= before);
            ending_same(some, before, len, before.len() as int);
            let was = ending(before, len, before.len() as int);
            assert(was.push(t).drop_last() =~= was);
            if t.chain.len() == len {
                assert(t.chain =~= prefix);
            }
        }
    }
}

proof fn rows_tell(
    top: Seq<Trail>,
    prefix: Seq<Seq<char>>,
    k: int,
    levels: nat,
    r: RowView,
)
    requires
        ({
            let all = starting(top, prefix, top.len() as int);
            rows_below(all, prefix, k, levels).contains(r)
        }),
    ensures
        tells(r, top),
    decreases levels, k,
{
    let n = top.len() as int;
    let all = starting(top, prefix, n);
    if levels > 0 && k > 0 {
        let depth = prefix.len() as int;
        let name = nexts(all, depth, all.len() as int)[k - 1];
        let some = having(all, depth, name, all.len() as int);
        let chain = prefix.push(name);
        narrowed(top, prefix, name, n);
        assert(some == starting(top, chain, n));
        let earlier = rows_below(all, prefix, k - 1, levels);
        let below = nexts(some, depth + 1, some.len() as int).len() as int;
        let later = rows_below(some, chain, below, (levels - 1) as nat);
        let own = row_for(some, chain);
        let rows = rows_below(all, prefix, k, levels);
        assert(rows == earlier + seq![own] + later);
        let i = choose|i: int| 0 <= i < rows.len() && rows[i] == r;
        if i < earlier.len() {
            assert(earlier[i] == r);
            rows_tell(top, prefix, k - 1, levels, r);
        } else if i == earlier.len() {
            sizes(top, chain, n);
            assert(r == own);
        } else {
            assert(later[i - earlier.len() - 1] == r);
            rows_tell(top, chain, below, (levels - 1) as nat, r);
        }
    }
}

proof fn all_start(all: Seq<Trail>, n: int)
    requires
        0 <= n <= all.len(),
    ensures
        starting(all, Seq::empty(), n) == all.take(n),
    decreases n,
{
    if n > 0 {
        all_start(all, n - 1);
        assert(all.take(n - 1).push(all[n - 1]) =~= all.take(n));
    } else {
        assert(all.take(0) =~= Seq::empty());
    }
}

/// Every row of the tree counts exactly the frames whose protocols begin with
/// its own, and as ending there exactly those whose protocols are its own.
pub proof fn rows_count_the_frames_below_them(all: Seq<Trail>, i: int)
    requires
        0 <= i < tree_of(all).len(),
    ensures
        tells(tree_of(all)[i], all),
{
    let n = all.len() as int;
    all_start(all, n);
    assert(all.take(n) =~= all);
    let k = nexts(all, 0, n).len() as int;
    assert(tree_of(all) == rows_below(all, Seq::empty(), k, longest(all)));
    rows_tell(all, Seq::empty(), k, longest(all), tree_of(all)[i]);
}

} // verus!

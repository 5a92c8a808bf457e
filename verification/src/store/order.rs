//! Stable ordering by number, as positions: the items themselves stay put.

use vstd::prelude::*;
use vstd::set_lib::*;

verus! {

/// Item `i` comes before item `j`: its key is smaller, or the same and it
/// stood earlier.
pub open spec fn precedes(keys: Seq<u64>, i: int, j: int) -> bool {
    keys[i] < keys[j] || (keys[i] == keys[j] && i < j)
}

/// `v` lists the positions `lo..hi`, each before the next.
pub open spec fn lists(keys: Seq<u64>, v: Seq<usize>, lo: int, hi: int) -> bool {
    &&& v.len() == hi - lo
    &&& forall|k: int| 0 <= k < v.len() ==> lo <= #[trigger] v[k] < hi
    &&& forall|i: int, j: int|
        0 <= i < j < v.len() ==> precedes(keys, #[trigger] v[i] as int, #[trigger] v[j] as int)
}

/// `v` is the stable order of the items.
pub open spec fn is_order(keys: Seq<u64>, v: Seq<usize>) -> bool {
    lists(keys, v, 0, keys.len() as int)
}

/// The stable order of items with these keys.
pub open spec fn stable_order(keys: Seq<u64>) -> Seq<usize> {
    choose|v: Seq<usize>| is_order(keys, v)
}

/// The items in the order that `v` gives.
pub open spec fn arranged<A>(items: Seq<A>, v: Seq<usize>) -> Seq<A> {
    Seq::new(v.len(), |k: int| items[v[k] as int])
}

/// The stable order of items lists every one of them exactly once.
pub proof fn order_lists_everything(keys: Seq<u64>, v: Seq<usize>)
    requires
        is_order(keys, v),
    ensures
        forall|i: usize| i < keys.len() ==> #[trigger] v.contains(i),
        forall|i: int, j: int|
            0 <= i < v.len() && 0 <= j < v.len() && i != j ==> #[trigger] v[i] != #[trigger] v[j],
{
    let w: Seq<int> = v.map_values(|x: usize| x as int);
    let n = keys.len() as int;
    assert(w.no_duplicates()) by {
        assert forall|i: int, j: int| 0 <= i < w.len() && 0 <= j < w.len() && i != j implies w[i]
            != w[j] by {
            if i < j {
                assert(precedes(keys, v[i] as int, v[j] as int));
            } else {
                assert(precedes(keys, v[j] as int, v[i] as int));
            }
        }
    }
    w.unique_seq_to_set();
    lemma_int_range(0, n);
    assert(w.to_set().subset_of(set_int_range(0, n))) by {
        assert forall|x: int| w.to_set().contains(x) implies set_int_range(0, n).contains(x) by {
            let k = choose|k: int| 0 <= k < w.len() && w[k] == x;
            assert(v[k] == x);
        }
    }
    lemma_subset_equality(w.to_set(), set_int_range(0, n));
    assert forall|i: usize| i < keys.len() implies #[trigger] v.contains(i) by {
        assert(w.to_set().contains(i as int));
        let k = choose|k: int| 0 <= k < w.len() && w[k] == i;
        assert(v[k] == i);
    }
    assert forall|i: int, j: int|
        0 <= i < v.len() && 0 <= j < v.len() && i != j implies #[trigger] v[i] != #[trigger] v[j] by {
        assert(w[i] != w[j]);
    }
}

/// Items have one stable order.
pub proof fn order_is_unique(keys: Seq<u64>, v: Seq<usize>, w: Seq<usize>)
    requires
        is_order(keys, v),
        is_order(keys, w),
    ensures
        v == w,
{
    order_lists_everything(keys, v);
    order_lists_everything(keys, w);
    lemma_agree(keys, v, w, keys.len() as int);
    assert(v =~= w);
}

proof fn lemma_agree(keys: Seq<u64>, v: Seq<usize>, w: Seq<usize>, n: int)
    requires
        is_order(keys, v),
        is_order(keys, w),
        0 <= n <= keys.len(),
        forall|i: usize| i < keys.len() ==> #[trigger] v.contains(i),
        forall|i: usize| i < keys.len() ==> #[trigger] w.contains(i),
    ensures
        forall|k: int| 0 <= k < n ==> v[k] == w[k],
    decreases n,
{
    if n > 0 {
        lemma_agree(keys, v, w, n - 1);
        let x = v[n - 1];
        let y = w[n - 1];
        assert(w.contains(x));
        assert(v.contains(y));
        let i = choose|i: int| 0 <= i < w.len() && w[i] == x;
        let j = choose|j: int| 0 <= j < v.len() && v[j] == y;
        if i < n - 1 {
            assert(v[i] == x);
            assert(precedes(keys, v[i] as int, v[n - 1] as int));
        } else if j < n - 1 {
            assert(w[j] == y);
            assert(precedes(keys, w[j] as int, w[n - 1] as int));
        } else if i > n - 1 && j > n - 1 {
            assert(precedes(keys, w[n - 1] as int, w[i] as int));
            assert(precedes(keys, v[n - 1] as int, v[j] as int));
        }
    }
}

/// Items that can be counted have a stable order.
pub proof fn order_exists(keys: Seq<u64>)
    requires
        keys.len() <= usize::MAX,
    ensures
        is_order(keys, stable_order(keys)),
{
    let v = lemma_exists(keys, keys.len() as int);
    assert(is_order(keys, v));
}

proof fn lemma_exists(keys: Seq<u64>, n: int) -> (v: Seq<usize>)
    requires
        0 <= n <= keys.len() <= usize::MAX,
    ensures
        lists(keys, v, 0, n),
    decreases n,
{
    if n == 0 {
        Seq::empty()
    } else {
        let w = lemma_exists(keys, n - 1);
        let p = lemma_spot(keys, w, n - 1, 0);
        let v = w.insert(p, (n - 1) as usize);
        assert forall|i: int, j: int| 0 <= i < j < v.len() implies precedes(
            keys,
            #[trigger] v[i] as int,
            #[trigger] v[j] as int,
        ) by {
            if i != p && j != p {
                let a = if i < p {
                    i
                } else {
                    i - 1
                };
                let b = if j < p {
                    j
                } else {
                    j - 1
                };
                assert(v[i] == w[a] && v[j] == w[b]);
            } else if i == p {
                assert(v[j] == w[j - 1]);
            } else {
                assert(v[i] == w[i]);
            }
        }
        assert forall|k: int| 0 <= k < v.len() implies 0 <= #[trigger] v[k] < n by {
            if k < p {
                assert(v[k] == w[k]);
            } else if k > p {
                assert(v[k] == w[k - 1]);
            }
        }
        v
    }
}

proof fn lemma_spot(keys: Seq<u64>, w: Seq<usize>, x: int, i: int) -> (p: int)
    requires
        lists(keys, w, 0, x),
        0 <= i <= w.len(),
        0 <= x < keys.len(),
        forall|k: int| 0 <= k < i ==> keys[#[trigger] w[k] as int] <= keys[x],
    ensures
        0 <= p <= w.len(),
        forall|k: int| 0 <= k < p ==> keys[#[trigger] w[k] as int] <= keys[x],
        forall|k: int| p <= k < w.len() ==> keys[x] < keys[#[trigger] w[k] as int],
    decreases w.len() - i,
{
    if i == w.len() {
        i
    } else if keys[w[i] as int] > keys[x] {
        assert forall|k: int| i <= k < w.len() implies keys[x] < keys[#[trigger] w[k] as int] by {
            if k > i {
                assert(precedes(keys, w[i] as int, w[k] as int));
            }
        }
        i
    } else {
        lemma_spot(keys, w, x, i + 1)
    }
}

fn merge(keys: &Vec<u64>, a: Vec<usize>, b: Vec<usize>, lo: usize, mid: usize, hi: usize) -> (r:
    Vec<usize>)
    requires
        lo <= mid <= hi <= keys@.len(),
        lists(keys@, a@, lo as int, mid as int),
        lists(keys@, b@, mid as int, hi as int),
    ensures
        lists(keys@, r@, lo as int, hi as int),
{
    let mut out: Vec<usize> = Vec::new();
    let mut i: usize = 0;
    let mut j: usize = 0;
    while i < a.len() || j < b.len()
        invariant
            lo <= mid <= hi <= keys@.len(),
            lists(keys@, a@, lo as int, mid as int),
            lists(keys@, b@, mid as int, hi as int),
            i <= a@.len(),
            j <= b@.len(),
            out@.len() == i + j,
            forall|k: int| 0 <= k < out@.len() ==> lo <= #[trigger] out@[k] < hi,
            forall|x: int, y: int|
                0 <= x < y < out@.len() ==> precedes(
                    keys@,
                    #[trigger] out@[x] as int,
                    #[trigger] out@[y] as int,
                ),
            forall|x: int, y: int|
                0 <= x < out@.len() && i <= y < a@.len() ==> precedes(
                    keys@,
                    #[trigger] out@[x] as int,
                    #[trigger] a@[y] as int,
                ),
            forall|x: int, y: int|
                0 <= x < out@.len() && j <= y < b@.len() ==> precedes(
                    keys@,
                    #[trigger] out@[x] as int,
                    #[trigger] b@[y] as int,
                ),
        decreases a.len() - i + b.len() - j,
    {
        let first: bool = if i >= a.len() {
            false
        } else if j >= b.len() {
            true
        } else {
            keys[a[i]] <= keys[b[j]]
        };
        if first {
            out.push(a[i]);
            i += 1;
        } else {
            out.push(b[j]);
            j += 1;
        }
    }
    out
}

fn sort_range(keys: &Vec<u64>, lo: usize, hi: usize) -> (r: Vec<usize>)
    requires
        lo <= hi <= keys@.len(),
    ensures
        lists(keys@, r@, lo as int, hi as int),
    decreases hi - lo,
{
    if hi - lo <= 1 {
        let mut out: Vec<usize> = Vec::new();
        if lo < hi {
            out.push(lo);
        }
        return out;
    }
    let mid: usize = lo + (hi - lo) / 2;
    let a: Vec<usize> = sort_range(keys, lo, mid);
    let b: Vec<usize> = sort_range(keys, mid, hi);
    merge(keys, a, b, lo, mid, hi)
}

/// The stable order of items with these keys.
pub fn order_by(keys: &Vec<u64>) -> (r: Vec<usize>)
    ensures
        is_order(keys@, r@),
        r@ == stable_order(keys@),
{
    let r: Vec<usize> = sort_range(keys, 0, keys.len());
    proof {
        assert(is_order(keys@, r@));
        order_is_unique(keys@, r@, stable_order(keys@));
    }
    r
}

} // verus!

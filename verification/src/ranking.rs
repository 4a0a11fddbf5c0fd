//! Putting items in order.
use vstd::prelude::*;

verus! {

/// `before` orders the numbers below `n` one after the other.
pub open spec fn strict_order(n: int, before: spec_fn(int, int) -> bool) -> bool {
    &&& forall|i: int| 0 <= i < n ==> !#[trigger] before(i, i)
    &&& forall|i: int, j: int|
        0 <= i < n && 0 <= j < n && i != j ==> #[trigger] before(i, j) || before(j, i)
    &&& forall|i: int, j: int, k: int|
        0 <= i < n && 0 <= j < n && 0 <= k < n && #[trigger] before(i, j) && #[trigger] before(j, k)
            ==> before(i, k)
}

/// `order` lists the numbers below `n`, each once, each before those after it.
pub open spec fn is_ranking(order: Seq<int>, n: int, before: spec_fn(int, int) -> bool) -> bool {
    &&& order.len() == n
    &&& forall|a: int| 0 <= a < order.len() ==> 0 <= #[trigger] order[a] < n
    &&& forall|i: int| 0 <= i < n ==> #[trigger] order.contains(i)
    &&& forall|a: int, b: int|
        0 <= a < b < order.len() ==> before(#[trigger] order[a], #[trigger] order[b])
}

/// The numbers below `n`, in order.
pub open spec fn ranking(n: int, before: spec_fn(int, int) -> bool) -> Seq<int> {
    choose|order: Seq<int>| is_ranking(order, n, before)
}

/// There is at most one order.
pub proof fn lemma_ranking_unique(
    a: Seq<int>,
    b: Seq<int>,
    n: int,
    before: spec_fn(int, int) -> bool,
)
    requires
        strict_order(n, before),
        is_ranking(a, n, before),
        is_ranking(b, n, before),
    ensures
        a == b,
{
    assert forall|k: int| 0 <= k < n implies a[k] == b[k] by {
        lemma_ranking_agrees(a, b, n, before, k);
    }
    assert(a =~= b);
}

proof fn lemma_ranking_agrees(
    a: Seq<int>,
    b: Seq<int>,
    n: int,
    before: spec_fn(int, int) -> bool,
    k: int,
)
    requires
        strict_order(n, before),
        is_ranking(a, n, before),
        is_ranking(b, n, before),
        0 <= k < n,
    ensures
        forall|j: int| 0 <= j <= k ==> a[j] == b[j],
    decreases k,
{
    if k > 0 {
        lemma_ranking_agrees(a, b, n, before, k - 1);
    }
    if a[k] != b[k] {
        lemma_not_later(a, b, n, before, k);
        lemma_not_later(b, a, n, before, k);
        assert(before(a[k], b[k]) && before(b[k], a[k]));
        assert(before(a[k], a[k]));
    }
}

/// Where two orders agree before `k` and differ there, each has its own item before the
/// other's.
proof fn lemma_not_later(
    a: Seq<int>,
    b: Seq<int>,
    n: int,
    before: spec_fn(int, int) -> bool,
    k: int,
)
    requires
        strict_order(n, before),
        is_ranking(a, n, before),
        is_ranking(b, n, before),
        0 <= k < n,
        forall|j: int| 0 <= j < k ==> a[j] == b[j],
        a[k] != b[k],
    ensures
        before(a[k], b[k]),
{
    assert(a.contains(b[k]));
    let m = choose|m: int| 0 <= m < a.len() && a[m] == b[k];
    if m < k {
        assert(b[m] == b[k]);
        assert(before(b[m], b[k]));
    }
    assert(m > k);
}

/// There is an order.
pub proof fn lemma_ranking_exists(n: int, before: spec_fn(int, int) -> bool)
    requires
        0 <= n,
        strict_order(n, before),
    ensures
        exists|order: Seq<int>| is_ranking(order, n, before),
    decreases n,
{
    if n == 0 {
        assert(is_ranking(Seq::<int>::empty(), 0, before));
    } else {
        let m = n - 1;
        lemma_ranking_exists(m, before);
        let start = choose|order: Seq<int>| is_ranking(order, m, before);
        let at = place(start, m, before);
        lemma_place(start, m, before);
        let end = start.insert(at, m);
        assert forall|i: int| 0 <= i < n implies #[trigger] end.contains(i) by {
            if i == n - 1 {
                assert(end[at] == i);
            } else {
                assert(start.contains(i));
                let q = choose|q: int| 0 <= q < start.len() && start[q] == i;
                if q < at {
                    assert(end[q] == i);
                } else {
                    assert(end[q + 1] == i);
                }
            }
        }
        assert forall|a: int| 0 <= a < end.len() implies 0 <= #[trigger] end[a] < n by {
            if a < at {
                assert(end[a] == start[a]);
            } else if a > at {
                assert(end[a] == start[a - 1]);
            }
        }
        assert forall|a: int, b: int| 0 <= a < b < end.len() implies before(
            #[trigger] end[a],
            #[trigger] end[b],
        ) by {
            let ia = if a < at {
                a
            } else {
                a - 1
            };
            let ib = if b < at {
                b
            } else {
                b - 1
            };
            if a != at {
                assert(end[a] == start[ia]);
            }
            if b != at {
                assert(end[b] == start[ib]);
            }
        }
        assert(is_ranking(end, n, before));
    }
}

/// How many of the listed numbers come before `k`.
spec fn place(order: Seq<int>, k: int, before: spec_fn(int, int) -> bool) -> int
    decreases order.len(),
{
    if order.len() == 0 {
        0
    } else if before(order.last(), k) {
        order.len() as int
    } else {
        place(order.drop_last(), k, before)
    }
}

proof fn lemma_place(order: Seq<int>, k: int, before: spec_fn(int, int) -> bool)
    requires
        strict_order(k + 1, before),
        0 <= k,
        forall|a: int| 0 <= a < order.len() ==> 0 <= #[trigger] order[a] < k,
        forall|a: int, b: int|
            0 <= a < b < order.len() ==> before(#[trigger] order[a], #[trigger] order[b]),
    ensures
        0 <= place(order, k, before) <= order.len(),
        forall|a: int| 0 <= a < place(order, k, before) ==> before(#[trigger] order[a], k),
        forall|a: int|
            place(order, k, before) <= a < order.len() ==> before(k, #[trigger] order[a]),
    decreases order.len(),
{
    if order.len() > 0 {
        let last = order[order.len() - 1];
        if before(last, k) {
            assert forall|a: int| 0 <= a < order.len() implies before(#[trigger] order[a], k) by {
                if a < order.len() - 1 {
                    assert(before(order[a], order[order.len() - 1]));
                }
            }
        } else {
            let init = order.drop_last();
            assert forall|a: int| 0 <= a < init.len() implies 0 <= #[trigger] init[a] < k by {
                assert(init[a] == order[a]);
            }
            assert forall|a: int, b: int| 0 <= a < b < init.len() implies before(
                #[trigger] init[a],
                #[trigger] init[b],
            ) by {
                assert(init[a] == order[a] && init[b] == order[b]);
            }
            lemma_place(init, k, before);
            assert(before(last, k) || before(k, last));
            assert forall|a: int| 0 <= a < place(order, k, before) implies before(
                #[trigger] order[a],
                k,
            ) by {
                assert(init[a] == order[a]);
            }
            assert forall|a: int| place(order, k, before) <= a < order.len() implies before(
                k,
                #[trigger] order[a],
            ) by {
                if a < init.len() {
                    assert(init[a] == order[a]);
                }
            }
        }
    }
}

/// The items of `v` in another order.
pub open spec fn arranged<A>(v: Seq<A>, order: Seq<int>) -> Seq<A> {
    Seq::new(order.len(), |k: int| v[order[k]])
}

proof fn lemma_permuted<A>(v: Seq<A>, order: Seq<int>)
    requires
        order.len() == v.len(),
        forall|a: int| 0 <= a < order.len() ==> 0 <= #[trigger] order[a] < v.len(),
        forall|i: int| 0 <= i < v.len() ==> #[trigger] order.contains(i),
        order.no_duplicates(),
    ensures
        arranged(v, order).to_multiset() == v.to_multiset(),
    decreases v.len(),
{
    broadcast use vstd::seq_lib::group_to_multiset_ensures;
    broadcast use vstd::multiset::group_multiset_axioms;

    let out = arranged(v, order);
    if v.len() == 0 {
        assert(out =~= v);
    } else {
        let last = v.len() - 1;
        assert(order.contains(last));
        let p = choose|p: int| 0 <= p < order.len() && order[p] == last;
        let rest = order.remove(p);
        let init = v.drop_last();
        assert forall|a: int| 0 <= a < rest.len() implies 0 <= #[trigger] rest[a] < init.len() by {
            let b = if a < p {
                a
            } else {
                a + 1
            };
            assert(rest[a] == order[b]);
        }
        assert forall|i: int| 0 <= i < init.len() implies #[trigger] rest.contains(i) by {
            assert(order.contains(i));
            let b = choose|b: int| 0 <= b < order.len() && order[b] == i;
            if b < p {
                assert(rest[b] == i);
            } else {
                assert(rest[b - 1] == i);
            }
        }
        lemma_permuted(init, rest);
        assert(out.remove(p) =~= arranged(init, rest));
        assert(out[p] == v[last]);
        assert(out.to_multiset().remove(v[last]) == v.drop_last().to_multiset());
        assert(v =~= v.drop_last().push(v[last]));
        assert(out.contains(v[last]));
        assert(out.to_multiset() =~= out.to_multiset().remove(v[last]).insert(v[last]));
    }
}

/// Items in order are the same items: none is lost and none comes in.
pub proof fn lemma_arranging_keeps_the_items<A>(
    v: Seq<A>,
    before: spec_fn(int, int) -> bool,
)
    requires
        strict_order(v.len() as int, before),
    ensures
        is_ranking(ranking(v.len() as int, before), v.len() as int, before),
        arranged(v, ranking(v.len() as int, before)).to_multiset() == v.to_multiset(),
{
    let n = v.len() as int;
    lemma_ranking_exists(n, before);
    let order = ranking(n, before);
    assert forall|a: int, b: int| 0 <= a < order.len() && 0 <= b < order.len() && a
        != b implies order[a] != order[b] by {
        if a < b {
            assert(before(order[a], order[b]));
        } else {
            assert(before(order[b], order[a]));
        }
    }
    lemma_permuted(v, order);
}

/// Sorts the numbers below `n`. `f(i, j)` tells whether `i` comes before `j`.
pub fn rank_by<F: Fn(usize, usize) -> bool>(
    n: usize,
    f: F,
    Ghost(before): Ghost<spec_fn(int, int) -> bool>,
) -> (r: Vec<usize>)
    requires
        strict_order(n as int, before),
        forall|i: usize, j: usize| i < n && j < n ==> f.requires((i, j)),
        forall|i: usize, j: usize, b: bool| #[trigger]
            f.ensures((i, j), b) && i < n && j < n ==> b == before(i as int, j as int),
    ensures
        is_ranking(r@.map_values(|i: usize| i as int), n as int, before),
        r@.map_values(|i: usize| i as int) == ranking(n as int, before),
{
    let mut out: Vec<usize> = Vec::new();
    for k in 0..n
        invariant
            strict_order(n as int, before),
            forall|i: usize, j: usize| i < n && j < n ==> f.requires((i, j)),
            forall|i: usize, j: usize, b: bool| #[trigger]
                f.ensures((i, j), b) && i < n && j < n ==> b == before(i as int, j as int),
            is_ranking(out@.map_values(|i: usize| i as int), k as int, before),
    {
        let ghost start = out@.map_values(|i: usize| i as int);
        let mut at: usize = out.len();
        assert forall|a: int| 0 <= a < out@.len() implies (#[trigger] out@[a]) < n by {
            assert(start[a] == out@[a] as int);
        }
        while at > 0 && f(k, out[at - 1])
            invariant
                k < n,
                at <= out@.len(),
                out@.len() == k,
                start == out@.map_values(|i: usize| i as int),
                is_ranking(start, k as int, before),
                forall|i: usize, j: usize| i < n && j < n ==> f.requires((i, j)),
                forall|i: usize, j: usize, b: bool| #[trigger]
                    f.ensures((i, j), b) && i < n && j < n ==> b == before(i as int, j as int),
                forall|a: int| at <= a < out@.len() ==> before(k as int, #[trigger] start[a]),
                forall|a: int| 0 <= a < out@.len() ==> (#[trigger] out@[a]) < n,
            decreases at,
        {
            assert(start[at - 1] == out@[at - 1] as int);
            at = at - 1;
        }
        proof {
            if at > 0 {
                assert(start[at - 1] == out@[at - 1] as int);
                assert(!before(k as int, start[at - 1]));
                assert(before(start[at - 1], k as int));
                assert forall|a: int| 0 <= a < at implies before(#[trigger] start[a], k as int) by {
                    if a < at - 1 {
                        assert(before(start[a], start[at - 1]));
                    }
                }
            }
        }
        out.insert(at, k);
        let ghost end = out@.map_values(|i: usize| i as int);
        proof {
            assert(end =~= start.insert(at as int, k as int));
            assert forall|i: int| 0 <= i < k + 1 implies #[trigger] end.contains(i) by {
                if i == k {
                    assert(end[at as int] == i);
                } else {
                    assert(start.contains(i));
                    let q = choose|q: int| 0 <= q < start.len() && start[q] == i;
                    if q < at {
                        assert(end[q] == i);
                    } else {
                        assert(end[q + 1] == i);
                    }
                }
            }
            assert forall|a: int| 0 <= a < end.len() implies 0 <= #[trigger] end[a] < k + 1 by {
                if a < at {
                    assert(end[a] == start[a]);
                } else if a > at {
                    assert(end[a] == start[a - 1]);
                }
            }
            assert forall|a: int, b: int| 0 <= a < b < end.len() implies before(
                #[trigger] end[a],
                #[trigger] end[b],
            ) by {
                let ia = if a < at {
                    a
                } else {
                    a - 1
                };
                let ib = if b < at {
                    b
                } else {
                    b - 1
                };
                if a != at {
                    assert(end[a] == start[ia]);
                }
                if b != at {
                    assert(end[b] == start[ib]);
                }
            }
        }
    }
    proof {
        let got = out@.map_values(|i: usize| i as int);
        assert(is_ranking(got, n as int, before));
        lemma_ranking_unique(got, ranking(n as int, before), n as int, before);
    }
    out
}

} // verus!

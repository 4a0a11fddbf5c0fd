//! Lists of distinct names in order, as the keys of an ordered map are.
use vstd::prelude::*;

use crate::text::{lemma_str_lt_total, lemma_str_lt_trans, less, str_eq, str_lt, strs};

verus! {

/// The names are distinct and in order.
pub open spec fn increasing(v: Seq<Seq<char>>) -> bool {
    forall|i: int, j: int| 0 <= i < j < v.len() ==> str_lt(#[trigger] v[i], #[trigger] v[j])
}

/// An ordered list of names is determined by the names in it.
pub proof fn lemma_increasing_unique(a: Seq<Seq<char>>, b: Seq<Seq<char>>)
    requires
        increasing(a),
        increasing(b),
        forall|s: Seq<char>| a.contains(s) <==> b.contains(s),
    ensures
        a == b,
{
    lemma_prefix_agrees(a, b, a.len() as int);
    lemma_prefix_agrees(b, a, b.len() as int);
    assert(a =~= b);
}

proof fn lemma_prefix_agrees(a: Seq<Seq<char>>, b: Seq<Seq<char>>, k: int)
    requires
        increasing(a),
        increasing(b),
        forall|s: Seq<char>| a.contains(s) <==> b.contains(s),
        0 <= k <= a.len(),
    ensures
        k <= b.len(),
        forall|j: int| 0 <= j < k ==> a[j] == b[j],
    decreases k,
{
    if k > 0 {
        let m = k - 1;
        lemma_prefix_agrees(a, b, m);
        assert(a.contains(a[m]));
        let q = choose|q: int| 0 <= q < b.len() && b[q] == a[m];
        if q < m {
            assert(a[q] == a[m]);
            assert(str_lt(a[q], a[m]));
            lemma_str_lt_total(a[q], a[m]);
        }
        if q > m {
            assert(b.contains(b[m]));
            let p = choose|p: int| 0 <= p < a.len() && a[p] == b[m];
            assert(str_lt(b[m], b[q]));
            if p < m {
                assert(b[p] == b[m]);
                assert(str_lt(b[p], b[m]));
                lemma_str_lt_total(b[p], b[m]);
            } else if p > m {
                assert(str_lt(a[m], a[p]));
                lemma_str_lt_total(a[m], a[p]);
            }
            lemma_str_lt_total(a[m], b[m]);
        }
    }
}

/// Adds a name where it is missing.
pub fn insert_key(keys: &mut Vec<String>, k: &str)
    requires
        increasing(strs(old(keys)@)),
    ensures
        increasing(strs(final(keys)@)),
        forall|s: Seq<char>|
            #[trigger] strs(final(keys)@).contains(s) <==> strs(old(keys)@).contains(s) || s == k@,
{
    let ghost start = strs(keys@);
    let n: usize = keys.len();
    let mut at: usize = 0;
    while at < n && less(keys[at].as_str(), k)
        invariant
            n == keys@.len(),
            keys@ == old(keys)@,
            start == strs(keys@),
            at <= n,
            forall|i: int| 0 <= i < at ==> str_lt(#[trigger] start[i], k@),
        decreases n - at,
    {
        assert(start[at as int] == keys@[at as int]@);
        at = at + 1;
    }
    if at < n && str_eq(keys[at].as_str(), k) {
        assert(start[at as int] == k@);
        assert(start.contains(k@));
        return;
    }
    keys.insert(at, k.to_owned());
    let ghost end = strs(keys@);
    proof {
        assert(end =~= start.insert(at as int, k@));
        if at < n {
            assert(start[at as int] == old(keys)@[at as int]@);
            lemma_str_lt_total(start[at as int], k@);
            assert(str_lt(k@, start[at as int]));
            assert forall|i: int| at <= i < n implies str_lt(k@, #[trigger] start[i]) by {
                if i > at {
                    lemma_str_lt_trans(k@, start[at as int], start[i]);
                }
            }
        }
        assert forall|i: int, j: int| 0 <= i < j < end.len() implies str_lt(
            #[trigger] end[i],
            #[trigger] end[j],
        ) by {
            let si = if i < at {
                i
            } else {
                i - 1
            };
            let sj = if j < at {
                j
            } else {
                j - 1
            };
            if i != at {
                assert(end[i] == start[si]);
            }
            if j != at {
                assert(end[j] == start[sj]);
            }
        }
        assert forall|s: Seq<char>| #[trigger] end.contains(s) <==> start.contains(s) || s == k@ by {
            if end.contains(s) {
                let q = choose|q: int| 0 <= q < end.len() && end[q] == s;
                if q < at {
                    assert(start[q] == s);
                } else if q > at {
                    assert(start[q - 1] == s);
                }
            }
            if start.contains(s) {
                let q = choose|q: int| 0 <= q < start.len() && start[q] == s;
                if q < at {
                    assert(end[q] == s);
                } else {
                    assert(end[q + 1] == s);
                }
            }
            if s == k@ {
                assert(end[at as int] == s);
            }
        }
    }
}

/// The distinct names of a list, in order.
pub open spec fn ordered(v: Seq<Seq<char>>) -> Seq<Seq<char>> {
    choose|k: Seq<Seq<char>>|
        increasing(k) && forall|s: Seq<char>| #[trigger] k.contains(s) <==> v.contains(s)
}

/// What [`insert_key`] has collected is the ordered list.
pub proof fn lemma_ordered(k: Seq<Seq<char>>, v: Seq<Seq<char>>)
    requires
        increasing(k),
        forall|s: Seq<char>| #[trigger] k.contains(s) <==> v.contains(s),
    ensures
        k == ordered(v),
{
    let o = ordered(v);
    assert(increasing(o) && forall|s: Seq<char>| #[trigger] o.contains(s) <==> v.contains(s));
    assert forall|s: Seq<char>| k.contains(s) <==> o.contains(s) by {
        assert(k.contains(s) <==> v.contains(s));
        assert(o.contains(s) <==> v.contains(s));
    }
    lemma_increasing_unique(k, o);
}

/// There is such a list.
pub proof fn lemma_ordered_exists(v: Seq<Seq<char>>)
    ensures
        increasing(ordered(v)),
        forall|s: Seq<char>| #[trigger] ordered(v).contains(s) <==> v.contains(s),
    decreases v.len(),
{
    if v.len() == 0 {
        let none = Seq::<Seq<char>>::empty();
        assert(increasing(none) && forall|s: Seq<char>|
            #[trigger] none.contains(s) <==> v.contains(s));
    } else {
        let init = v.drop_last();
        lemma_ordered_exists(init);
        let k = v[v.len() - 1];
        let o = insert_sorted(ordered(init), k);
        lemma_insert_sorted(ordered(init), k);
        assert forall|s: Seq<char>| #[trigger] o.contains(s) <==> v.contains(s) by {
            lemma_take_contains(v, v.len() - 1, s);
            assert(v.take(v.len() - 1) =~= init);
            assert(v.take(v.len() as int) =~= v);
            assert(ordered(init).contains(s) <==> init.contains(s));
        }
        assert(increasing(o));
    }
}

/// A name put in its place, where it is missing.
spec fn insert_sorted(v: Seq<Seq<char>>, k: Seq<char>) -> Seq<Seq<char>>
    decreases v.len(),
{
    if v.len() == 0 {
        seq![k]
    } else if v.last() == k {
        v
    } else if str_lt(v.last(), k) {
        v.push(k)
    } else {
        insert_sorted(v.drop_last(), k).push(v.last())
    }
}

proof fn lemma_insert_sorted(v: Seq<Seq<char>>, k: Seq<char>)
    requires
        increasing(v),
    ensures
        increasing(insert_sorted(v, k)),
        forall|s: Seq<char>|
            #[trigger] insert_sorted(v, k).contains(s) <==> v.contains(s) || s == k,
        v.len() > 0 && !str_lt(v.last(), k) && v.last() != k ==> forall|i: int|
            0 <= i < insert_sorted(v, k).len() - 1 ==> str_lt(
                #[trigger] insert_sorted(v, k)[i],
                v.last(),
            ),
    decreases v.len(),
{
    let r = insert_sorted(v, k);
    if v.len() == 0 {
        assert forall|s: Seq<char>| #[trigger] r.contains(s) <==> v.contains(s) || s == k by {
            if s == k {
                assert(r[0] == s);
            }
        }
    } else {
        let last = v[v.len() - 1];
        lemma_str_lt_total(last, k);
        if last == k {
            assert(v.contains(k));
        } else if str_lt(last, k) {
            assert forall|i: int, j: int| 0 <= i < j < r.len() implies str_lt(
                #[trigger] r[i],
                #[trigger] r[j],
            ) by {
                if j == v.len() && i < v.len() - 1 {
                    assert(str_lt(v[i], last));
                    lemma_str_lt_trans(v[i], last, k);
                }
            }
            assert forall|s: Seq<char>| #[trigger] r.contains(s) <==> v.contains(s) || s == k by {
                lemma_push_contains(v, k, s);
            }
        } else {
            let init = v.drop_last();
            assert forall|i: int, j: int| 0 <= i < j < init.len() implies str_lt(
                #[trigger] init[i],
                #[trigger] init[j],
            ) by {
                assert(init[i] == v[i] && init[j] == v[j]);
            }
            lemma_insert_sorted(init, k);
            let a = insert_sorted(init, k);
            assert forall|i: int| 0 <= i < a.len() implies str_lt(#[trigger] a[i], last) by {
                assert(a.contains(a[i]));
                if a[i] != k {
                    let q = choose|q: int| 0 <= q < init.len() && init[q] == a[i];
                    assert(str_lt(v[q], last));
                }
            }
            assert forall|i: int, j: int| 0 <= i < j < r.len() implies str_lt(
                #[trigger] r[i],
                #[trigger] r[j],
            ) by {
                assert(r[i] == a[i]);
                if j < a.len() {
                    assert(r[j] == a[j]);
                }
            }
            assert forall|s: Seq<char>| #[trigger] r.contains(s) <==> v.contains(s) || s == k by {
                lemma_push_contains(a, last, s);
                lemma_push_contains(init, last, s);
                assert(init.push(last) =~= v);
            }
        }
    }
}

proof fn lemma_push_contains(v: Seq<Seq<char>>, k: Seq<char>, s: Seq<char>)
    ensures
        v.push(k).contains(s) <==> v.contains(s) || s == k,
{
    let r = v.push(k);
    if v.contains(s) {
        let q = choose|q: int| 0 <= q < v.len() && v[q] == s;
        assert(r[q] == s);
    }
    if s == k {
        assert(r[v.len() as int] == s);
    }
    if r.contains(s) {
        let q = choose|q: int| 0 <= q < r.len() && r[q] == s;
        if q < v.len() {
            assert(v[q] == s);
        }
    }
}

/// Collecting one name more of a list.
pub proof fn lemma_take_contains(v: Seq<Seq<char>>, i: int, s: Seq<char>)
    requires
        0 <= i < v.len(),
    ensures
        v.take(i + 1).contains(s) <==> v.take(i).contains(s) || s == v[i],
{
    let a = v.take(i);
    let b = v.take(i + 1);
    if a.contains(s) {
        let q = choose|q: int| 0 <= q < a.len() && a[q] == s;
        assert(b[q] == s);
    }
    if s == v[i] {
        assert(b[i] == s);
    }
    if b.contains(s) {
        let q = choose|q: int| 0 <= q < b.len() && b[q] == s;
        if q < i {
            assert(a[q] == s);
        }
    }
}

/// The views of pairs of a name and a value.
pub open spec fn pairs<V>(v: Seq<(String, V)>) -> Seq<(Seq<char>, V)> {
    Seq::new(v.len(), |i: int| (v[i].0@, v[i].1))
}

/// The names of pairs.
pub open spec fn names<V>(v: Seq<(Seq<char>, V)>) -> Seq<Seq<char>> {
    Seq::new(v.len(), |i: int| v[i].0)
}

/// The pairs are an ordered map: their names are distinct and in order.
pub open spec fn is_map<V>(v: Seq<(String, V)>) -> bool {
    increasing(names(pairs(v)))
}

/// The value that a name has in a list of pairs: that of its last pair.
pub open spec fn value_in<V>(v: Seq<(Seq<char>, V)>, name: Seq<char>) -> Option<V>
    decreases v.len(),
{
    if v.len() == 0 {
        None
    } else if v.last().0 == name {
        Some(v.last().1)
    } else {
        value_in(v.drop_last(), name)
    }
}

/// In two lists every name has the same value.
pub open spec fn same_values<V>(a: Seq<(Seq<char>, V)>, b: Seq<(Seq<char>, V)>) -> bool {
    forall|s: Seq<char>| #[trigger] value_in(a, s) == value_in(b, s)
}

proof fn lemma_value_in<V>(v: Seq<(Seq<char>, V)>, i: int)
    requires
        increasing(names(v)),
        0 <= i < v.len(),
    ensures
        value_in(v, v[i].0) == Some(v[i].1),
    decreases v.len(),
{
    let n = v.len() - 1;
    if i < n {
        let init = v.drop_last();
        assert(names(v)[i] == v[i].0 && names(v)[n] == v[n].0);
        assert(str_lt(names(v)[i], names(v)[n]));
        lemma_str_lt_total(v[i].0, v[n].0);
        assert forall|a: int, b: int| 0 <= a < b < names(init).len() implies str_lt(
            #[trigger] names(init)[a],
            #[trigger] names(init)[b],
        ) by {
            assert(names(init)[a] == names(v)[a] && names(init)[b] == names(v)[b]);
        }
        lemma_value_in(init, i);
    }
}

proof fn lemma_no_value<V>(v: Seq<(Seq<char>, V)>, name: Seq<char>)
    requires
        forall|i: int| 0 <= i < v.len() ==> (#[trigger] v[i]).0 != name,
    ensures
        value_in(v, name) is None,
    decreases v.len(),
{
    if v.len() > 0 {
        let n = v.len() - 1;
        assert(v[n].0 != name);
        assert forall|i: int| 0 <= i < v.drop_last().len() implies (
        #[trigger] v.drop_last()[i]).0 != name by {
            assert(v.drop_last()[i] == v[i]);
        }
        lemma_no_value(v.drop_last(), name);
    }
}

/// Where the pairs of `b` are those of `a` but for the one of `k`, so are the values.
proof fn lemma_put<V>(
    a: Seq<(Seq<char>, V)>,
    b: Seq<(Seq<char>, V)>,
    k: Seq<char>,
    value: V,
    s: Seq<char>,
)
    requires
        increasing(names(a)),
        increasing(names(b)),
        b.contains((k, value)),
        forall|i: int| 0 <= i < a.len() && (#[trigger] a[i]).0 != k ==> b.contains(a[i]),
        forall|i: int| 0 <= i < b.len() && (#[trigger] b[i]).0 != k ==> a.contains(b[i]),
    ensures
        value_in(b, s) == if s == k {
            Some(value)
        } else {
            value_in(a, s)
        },
{
    if s == k {
        let i = choose|i: int| 0 <= i < b.len() && b[i] == (k, value);
        lemma_value_in(b, i);
    } else if exists|i: int| 0 <= i < a.len() && (#[trigger] a[i]).0 == s {
        let i = choose|i: int| 0 <= i < a.len() && (#[trigger] a[i]).0 == s;
        lemma_value_in(a, i);
        let j = choose|j: int| 0 <= j < b.len() && b[j] == a[i];
        lemma_value_in(b, j);
    } else {
        lemma_no_value(a, s);
        assert forall|j: int| 0 <= j < b.len() implies (#[trigger] b[j]).0 != s by {
            if b[j].0 == s {
                let i = choose|i: int| 0 <= i < a.len() && a[i] == b[j];
                assert(a[i].0 == s);
            }
        }
        lemma_no_value(b, s);
    }
}

/// Gives a name a value in an ordered map.
fn put<V: Copy>(m: &mut Vec<(String, V)>, k: &str, value: V)
    requires
        is_map(old(m)@),
    ensures
        is_map(final(m)@),
        forall|s: Seq<char>| #[trigger]
            value_in(pairs(final(m)@), s) == if s == k@ {
                Some(value)
            } else {
                value_in(pairs(old(m)@), s)
            },
{
    let ghost start = pairs(m@);
    let n: usize = m.len();
    let mut at: usize = 0;
    while at < n && less(m[at].0.as_str(), k)
        invariant
            n == m@.len(),
            m@ == old(m)@,
            start == pairs(m@),
            at <= n,
            forall|i: int| 0 <= i < at ==> str_lt((#[trigger] start[i]).0, k@),
        decreases n - at,
    {
        assert(start[at as int].0 == m@[at as int].0@);
        at = at + 1;
    }
    if at < n {
        assert(start[at as int].0 == m@[at as int].0@);
        proof {
            lemma_str_lt_total(start[at as int].0, k@);
        }
    }
    if at < n && str_eq(m[at].0.as_str(), k) {
        m.set(at, (k.to_owned(), value));
        let ghost end = pairs(m@);
        proof {
            assert(end =~= start.update(at as int, (k@, value)));
            assert(names(end) =~= names(start));
            lemma_put_at(start, end, k@, value, at as int, false);
        }
    } else {
        m.insert(at, (k.to_owned(), value));
        let ghost end = pairs(m@);
        proof {
            assert(end =~= start.insert(at as int, (k@, value)));
            lemma_inserted_in_order(start, end, (k@, value), at as int);
            lemma_put_at(start, end, k@, value, at as int, true);
        }
    }
}

proof fn lemma_inserted_in_order<V>(
    start: Seq<(Seq<char>, V)>,
    end: Seq<(Seq<char>, V)>,
    e: (Seq<char>, V),
    at: int,
)
    requires
        increasing(names(start)),
        0 <= at <= start.len(),
        end == start.insert(at, e),
        forall|i: int| 0 <= i < at ==> str_lt((#[trigger] start[i]).0, e.0),
        at < start.len() ==> str_lt(e.0, start[at].0),
    ensures
        increasing(names(end)),
{
    let a = names(start);
    let b = names(end);
    assert forall|i: int| at <= i < a.len() implies str_lt(e.0, #[trigger] a[i]) by {
        assert(a[at] == start[at].0);
        if i > at {
            lemma_str_lt_trans(e.0, a[at], a[i]);
        }
    }
    assert forall|i: int| 0 <= i < at implies str_lt(#[trigger] a[i], e.0) by {
        assert(a[i] == start[i].0);
    }
    assert forall|i: int, j: int| 0 <= i < j < b.len() implies str_lt(
        #[trigger] b[i],
        #[trigger] b[j],
    ) by {
        let si = if i < at {
            i
        } else {
            i - 1
        };
        let sj = if j < at {
            j
        } else {
            j - 1
        };
        if i != at {
            assert(b[i] == a[si]);
        }
        if j != at {
            assert(b[j] == a[sj]);
        }
    }
}

proof fn lemma_put_at<V>(
    start: Seq<(Seq<char>, V)>,
    end: Seq<(Seq<char>, V)>,
    k: Seq<char>,
    value: V,
    at: int,
    fresh: bool,
)
    requires
        increasing(names(start)),
        increasing(names(end)),
        0 <= at <= start.len(),
        fresh ==> end == start.insert(at, (k, value)),
        !fresh ==> at < start.len() && start[at].0 == k && end == start.update(at, (k, value)),
    ensures
        forall|s: Seq<char>| #[trigger]
            value_in(end, s) == if s == k {
                Some(value)
            } else {
                value_in(start, s)
            },
{
    assert(end[at] == (k, value));
    assert forall|i: int| 0 <= i < start.len() && (
    #[trigger] start[i]).0 != k implies end.contains(start[i]) by {
        let j = if fresh && i >= at {
            i + 1
        } else {
            i
        };
        assert(end[j] == start[i]);
    }
    assert forall|j: int| 0 <= j < end.len() && (#[trigger] end[j]).0 != k implies start.contains(
        end[j],
    ) by {
        let i = if fresh && j > at {
            j - 1
        } else {
            j
        };
        assert(start[i] == end[j]);
    }
    assert forall|s: Seq<char>| #[trigger] value_in(end, s) == if s == k {
        Some(value)
    } else {
        value_in(start, s)
    } by {
        lemma_put(start, end, k, value, s);
    }
}

/// The ordered map of a list of pairs; the last pair of a name counts.
pub fn ordered_map<V: Copy>(v: &Vec<(String, V)>) -> (r: Vec<(String, V)>)
    ensures
        is_map(r@),
        same_values(pairs(r@), pairs(v@)),
{
    let ghost all = pairs(v@);
    let mut r: Vec<(String, V)> = Vec::new();
    assert(pairs(r@) =~= all.take(0));
    for i in 0..v.len()
        invariant
            all == pairs(v@),
            is_map(r@),
            same_values(pairs(r@), all.take(i as int)),
    {
        assert(all.take(i + 1).drop_last() =~= all.take(i as int));
        assert(all[i as int] == (v@[i as int].0@, v@[i as int].1));
        put(&mut r, v[i].0.as_str(), v[i].1);
    }
    assert(all.take(all.len() as int) =~= all);
    r
}

/// The value of a name is that of its last pair; another name does not change it; and without
/// a pair there is none.
pub proof fn law_the_last_pair_of_a_name_counts<V>(
    v: Seq<(Seq<char>, V)>,
    name: Seq<char>,
    other: Seq<char>,
    value: V,
)
    requires
        other != name,
    ensures
        value_in(Seq::<(Seq<char>, V)>::empty(), name) is None,
        value_in(v.push((name, value)), name) == Some(value),
        value_in(v.push((other, value)), name) == value_in(v, name),
{
    assert(v.push((other, value)).drop_last() =~= v);
}

/// An ordered map that says the same as a list holds each name of the list once, in order and
/// with the value of its last pair, and no other name.
pub proof fn law_an_ordered_map_says_what_its_list_says<V>(
    r: Seq<(String, V)>,
    v: Seq<(Seq<char>, V)>,
    i: int,
    j: int,
)
    requires
        is_map(r),
        same_values(pairs(r), v),
    ensures
        0 <= i < j < r.len() ==> str_lt(r[i].0@, r[j].0@),
        0 <= i < r.len() ==> value_in(v, r[i].0@) == Some(r[i].1),
        0 <= i < v.len() ==> exists|k: int| 0 <= k < r.len() && (#[trigger] r[k]).0@ == v[i].0,
{
    let p = pairs(r);
    if 0 <= i < j < r.len() {
        assert(str_lt(names(p)[i], names(p)[j]));
    }
    if 0 <= i < r.len() {
        lemma_value_in(p, i);
        assert(p[i].0 == r[i].0@);
        assert(value_in(p, r[i].0@) == value_in(v, r[i].0@));
    }
    if 0 <= i < v.len() {
        let name = v[i].0;
        if forall|k: int| 0 <= k < r.len() ==> (#[trigger] r[k]).0@ != name {
            assert forall|k: int| 0 <= k < p.len() implies (#[trigger] p[k]).0 != name by {
                assert(p[k].0 == r[k].0@);
            }
            lemma_no_value(p, name);
            lemma_some_value(v, i);
            assert(value_in(p, name) == value_in(v, name));
        }
    }
}

proof fn lemma_some_value<V>(v: Seq<(Seq<char>, V)>, i: int)
    requires
        0 <= i < v.len(),
    ensures
        value_in(v, v[i].0) is Some,
    decreases v.len(),
{
    if v.last().0 != v[i].0 {
        assert(v.drop_last()[i] == v[i]);
        lemma_some_value(v.drop_last(), i);
    }
}

} // verus!

//! Handing back the vocabulary that a query lacks: the words that the wider surroundings
//! of the query share, drawn from the broadened query and never from its own hits.
use vstd::hash_map::StringHashMap;
use vstd::prelude::*;

use super::fts5::fts5_or_broadened;
use crate::ranking::{
    arranged, is_ranking, lemma_arranging_keeps_the_items, rank_by, ranking, strict_order,
};
use crate::text::{
    ascii_alnum, ascii_lower, drop_empty, from_chars, has_text, lemma_str_lt_total,
    lemma_str_lt_trans, less, nonempty, split_chars, split_on, str_eq, str_lt, strs, texts,
    to_chars,
};

verus! {

// ---- Character classes and lower case ------------------------------------------------------

/// What `char::is_alphanumeric` answers beyond ASCII.
pub uninterp spec fn unicode_alphanumeric(c: char) -> bool;

/// What `char::is_numeric` answers beyond ASCII.
pub uninterp spec fn unicode_numeric(c: char) -> bool;

/// What `str::to_lowercase` answers of a text that is not all ASCII.
pub uninterp spec fn unicode_lowercase(s: Seq<char>) -> Seq<char>;

pub open spec fn ascii(c: char) -> bool {
    c <= '\u{7f}'
}

pub open spec fn all_ascii(s: Seq<char>) -> bool {
    forall|i: int| 0 <= i < s.len() ==> ascii(#[trigger] s[i])
}

/// A letter or a digit of any script.
pub open spec fn alphanumeric(c: char) -> bool {
    if ascii(c) {
        ascii_alnum(c)
    } else {
        unicode_alphanumeric(c)
    }
}

/// A digit or another numeric character of any script.
pub open spec fn numeric(c: char) -> bool {
    if ascii(c) {
        '0' <= c <= '9'
    } else {
        unicode_numeric(c)
    }
}

/// A text in lower case.
pub open spec fn lowercase(s: Seq<char>) -> Seq<char> {
    if all_ascii(s) {
        ascii_lower(s)
    } else {
        unicode_lowercase(s)
    }
}

/// `char::is_alphanumeric`: a function of the character alone; among the ASCII characters
/// the letters and digits.
pub assume_specification[ char::is_alphanumeric ](c: char) -> (b: bool)
    ensures
        b == if ascii(c) {
            ascii_alnum(c)
        } else {
            unicode_alphanumeric(c)
        },
;

/// `char::is_numeric`: a function of the character alone; among the ASCII characters the
/// digits.
pub assume_specification[ char::is_numeric ](c: char) -> (b: bool)
    ensures
        b == if ascii(c) {
            '0' <= c <= '9'
        } else {
            unicode_numeric(c)
        },
;

/// `str::to_lowercase`: a function of the text alone; on an ASCII text it puts the ASCII
/// letters in lower case.
pub assume_specification[ str::to_lowercase ](s: &str) -> (r: String)
    ensures
        r@ == if all_ascii(s@) {
            ascii_lower(s@)
        } else {
            unicode_lowercase(s@)
        },
;

// ---- Terms ---------------------------------------------------------------------------------

/// The characters that separate terms.
pub open spec fn term_break() -> spec_fn(char) -> bool {
    |c: char| !alphanumeric(c)
}

/// The terms of a text: its runs of letters and digits, in lower case.
pub open spec fn terms(body: Seq<char>) -> Seq<Seq<char>> {
    let runs = nonempty(split_on(body, term_break()));
    Seq::new(runs.len(), |i: int| lowercase(runs[i]))
}

fn is_break(c: char) -> (b: bool)
    ensures
        b == !alphanumeric(c),
{
    !c.is_alphanumeric()
}

/// Splits a text into terms.
pub fn tokenize(body: &str) -> (r: Vec<String>)
    ensures
        strs(r@) == terms(body@),
{
    let v = to_chars(body);
    let runs = drop_empty(split_chars(&v, is_break, Ghost(term_break())));
    let ghost all = texts(runs@);
    let mut out: Vec<String> = Vec::new();
    for i in 0..runs.len()
        invariant
            all == texts(runs@),
            out@.len() == i,
            forall|j: int| 0 <= j < i ==> (#[trigger] out@[j])@ == lowercase(all[j]),
    {
        assert(all[i as int] == runs@[i as int]@);
        let s = from_chars(runs[i].as_slice());
        out.push(s.as_str().to_lowercase());
    }
    assert(strs(out@) =~= terms(body@));
    out
}

/// The fewest characters of a term that is handed back.
pub const MIN_TERM_CHARS: usize = 3;

/// A word that only holds sentences together.
pub open spec fn stopword(t: Seq<char>) -> bool {
    ||| t == "the"@
    ||| t == "and"@
    ||| t == "for"@
    ||| t == "that"@
    ||| t == "this"@
    ||| t == "with"@
    ||| t == "from"@
    ||| t == "was"@
    ||| t == "were"@
    ||| t == "are"@
    ||| t == "but"@
    ||| t == "not"@
    ||| t == "all"@
    ||| t == "any"@
    ||| t == "can"@
    ||| t == "has"@
    ||| t == "had"@
    ||| t == "have"@
    ||| t == "its"@
    ||| t == "our"@
    ||| t == "out"@
    ||| t == "than"@
    ||| t == "then"@
    ||| t == "they"@
    ||| t == "them"@
    ||| t == "there"@
    ||| t == "these"@
    ||| t == "those"@
    ||| t == "what"@
    ||| t == "when"@
    ||| t == "which"@
    ||| t == "will"@
    ||| t == "would"@
    ||| t == "you"@
    ||| t == "your"@
    ||| t == "into"@
    ||| t == "over"@
    ||| t == "only"@
    ||| t == "one"@
    ||| t == "two"@
    ||| t == "how"@
    ||| t == "why"@
    ||| t == "who"@
    ||| t == "his"@
    ||| t == "her"@
    ||| t == "their"@
    ||| t == "been"@
    ||| t == "because"@
    ||| t == "should"@
    ||| t == "could"@
    ||| t == "does"@
    ||| t == "did"@
    ||| t == "each"@
    ||| t == "more"@
    ||| t == "most"@
    ||| t == "some"@
    ||| t == "such"@
    ||| t == "very"@
}

fn is_stopword(t: &str) -> (b: bool)
    ensures
        b == stopword(t@),
{
    str_eq(t, "the") || str_eq(t, "and") || str_eq(t, "for")
        || str_eq(t, "that") || str_eq(t, "this") || str_eq(t, "with")
        || str_eq(t, "from") || str_eq(t, "was") || str_eq(t, "were")
        || str_eq(t, "are") || str_eq(t, "but") || str_eq(t, "not")
        || str_eq(t, "all") || str_eq(t, "any") || str_eq(t, "can")
        || str_eq(t, "has") || str_eq(t, "had") || str_eq(t, "have")
        || str_eq(t, "its") || str_eq(t, "our") || str_eq(t, "out")
        || str_eq(t, "than") || str_eq(t, "then") || str_eq(t, "they")
        || str_eq(t, "them") || str_eq(t, "there") || str_eq(t, "these")
        || str_eq(t, "those") || str_eq(t, "what") || str_eq(t, "when")
        || str_eq(t, "which") || str_eq(t, "will") || str_eq(t, "would")
        || str_eq(t, "you") || str_eq(t, "your") || str_eq(t, "into")
        || str_eq(t, "over") || str_eq(t, "only") || str_eq(t, "one")
        || str_eq(t, "two") || str_eq(t, "how") || str_eq(t, "why")
        || str_eq(t, "who") || str_eq(t, "his") || str_eq(t, "her")
        || str_eq(t, "their") || str_eq(t, "been") || str_eq(t, "because")
        || str_eq(t, "should") || str_eq(t, "could") || str_eq(t, "does")
        || str_eq(t, "did") || str_eq(t, "each") || str_eq(t, "more")
        || str_eq(t, "most") || str_eq(t, "some") || str_eq(t, "such")
        || str_eq(t, "very")
}

/// A term that says something: long enough, not a bare number, and no stop word.
pub open spec fn candidate(t: Seq<char>) -> bool {
    &&& t.len() >= MIN_TERM_CHARS
    &&& exists|i: int| 0 <= i < t.len() && !numeric(#[trigger] t[i])
    &&& !stopword(t)
}

/// Whether a term says something.
pub fn is_candidate(term: &str) -> (b: bool)
    ensures
        b == candidate(term@),
{
    let v = to_chars(term);
    if v.len() < MIN_TERM_CHARS {
        return false;
    }
    let mut all_numeric = true;
    for i in 0..v.len()
        invariant
            v@ == term@,
            all_numeric == forall|j: int| 0 <= j < i ==> numeric(#[trigger] v@[j]),
    {
        if !v[i].is_numeric() {
            all_numeric = false;
            assert(!numeric(v@[i as int]));
        }
    }
    !all_numeric && !is_stopword(term)
}

// ---- Local frequency -----------------------------------------------------------------------

/// A body uses a term that says something.
pub open spec fn mentions(body: Seq<char>, t: Seq<char>) -> bool {
    candidate(t) && terms(body).contains(t)
}

/// In how many bodies a term occurs, however often in each.
pub open spec fn doc_freq(bodies: Seq<Seq<char>>, t: Seq<char>) -> nat
    decreases bodies.len(),
{
    if bodies.len() == 0 {
        0
    } else {
        doc_freq(bodies.drop_last(), t) + if mentions(bodies.last(), t) {
            1nat
        } else {
            0
        }
    }
}

/// A list of terms with their frequencies.
pub open spec fn freq_view(v: Seq<(String, usize)>) -> Seq<(Seq<char>, usize)> {
    Seq::new(v.len(), |i: int| (v[i].0@, v[i].1))
}

/// The index finds every listed term, and nothing else.
spec fn indexed(index: Map<Seq<char>, usize>, out: Seq<(Seq<char>, usize)>) -> bool {
    &&& forall|i: int|
        0 <= i < out.len() ==> index.contains_key((#[trigger] out[i]).0) && index[out[i].0] == i
    &&& forall|t: Seq<char>|
        #[trigger] index.contains_key(t) ==> 0 <= index[t] < out.len() && out[index[t] as int].0
            == t
}

/// A listed term `e`, last seen in body `seen - 1`, is counted right after the first `b`
/// bodies and the first `k` terms of the next.
spec fn entry_ok(
    bodies: Seq<Seq<char>>,
    b: int,
    toks: Seq<Seq<char>>,
    k: int,
    e: (Seq<char>, usize),
    seen: usize,
) -> bool {
    &&& candidate(e.0)
    &&& seen <= b + 1
    &&& seen == b + 1 <==> toks.take(k).contains(e.0)
    &&& e.1 == doc_freq(bodies.take(b), e.0) + if seen == b + 1 {
        1nat
    } else {
        0
    }
}

/// A term that has occurred so far and counts.
spec fn occurred(
    bodies: Seq<Seq<char>>,
    b: int,
    toks: Seq<Seq<char>>,
    k: int,
    t: Seq<char>,
) -> bool {
    candidate(t) && (doc_freq(bodies.take(b), t) > 0 || toks.take(k).contains(t))
}

/// The counts after the first `b` bodies and the first `k` terms of the next.
spec fn counting(
    bodies: Seq<Seq<char>>,
    b: int,
    toks: Seq<Seq<char>>,
    k: int,
    index: Map<Seq<char>, usize>,
    out: Seq<(Seq<char>, usize)>,
    last: Seq<usize>,
) -> bool {
    &&& indexed(index, out)
    &&& last.len() == out.len()
    &&& forall|i: int|
        0 <= i < out.len() ==> entry_ok(bodies, b, toks, k, #[trigger] out[i], last[i])
    &&& forall|t: Seq<char>|
        occurred(bodies, b, toks, k, t) ==> #[trigger] index.contains_key(t)
}

proof fn lemma_take_contains(toks: Seq<Seq<char>>, k: int, t: Seq<char>)
    requires
        0 <= k < toks.len(),
    ensures
        toks.take(k + 1).contains(t) == (toks.take(k).contains(t) || t == toks[k]),
{
    let a = toks.take(k);
    let b = toks.take(k + 1);
    if a.contains(t) {
        let i = choose|i: int| 0 <= i < a.len() && a[i] == t;
        assert(b[i] == t);
    }
    if t == toks[k] {
        assert(b[k] == t);
    }
    if b.contains(t) {
        let i = choose|i: int| 0 <= i < b.len() && b[i] == t;
        if i < k {
            assert(a[i] == t);
        }
    }
}

proof fn lemma_doc_freq_bound(bodies: Seq<Seq<char>>, t: Seq<char>)
    ensures
        doc_freq(bodies, t) <= bodies.len(),
        doc_freq(bodies, t) > 0 ==> candidate(t),
    decreases bodies.len(),
{
    if bodies.len() > 0 {
        lemma_doc_freq_bound(bodies.drop_last(), t);
    }
}

/// Before the first term it does not matter which terms follow.
proof fn lemma_no_terms_yet(
    all: Seq<Seq<char>>,
    b: int,
    ts: Seq<Seq<char>>,
    m: Map<Seq<char>, usize>,
    o: Seq<(Seq<char>, usize)>,
    l: Seq<usize>,
)
    requires
        counting(all, b, Seq::empty(), 0, m, o, l),
    ensures
        counting(all, b, ts, 0, m, o, l),
{
    let none = Seq::<Seq<char>>::empty();
    assert(none.take(0) =~= ts.take(0));
    assert forall|i: int| 0 <= i < o.len() implies entry_ok(
        all,
        b,
        ts,
        0,
        #[trigger] o[i],
        l[i],
    ) by {
        assert(entry_ok(all, b, none, 0, o[i], l[i]));
    }
    assert forall|t: Seq<char>| occurred(all, b, ts, 0, t) implies #[trigger] m.contains_key(t) by {
        assert(occurred(all, b, none, 0, t));
    }
}

/// A term that does not count changes nothing.
proof fn lemma_skip(
    all: Seq<Seq<char>>,
    b: int,
    ts: Seq<Seq<char>>,
    k: int,
    m: Map<Seq<char>, usize>,
    o: Seq<(Seq<char>, usize)>,
    l: Seq<usize>,
)
    requires
        counting(all, b, ts, k, m, o, l),
        0 <= k < ts.len(),
        !candidate(ts[k]),
    ensures
        counting(all, b, ts, k + 1, m, o, l),
{
    let t0 = ts.take(k);
    let t1 = ts.take(k + 1);
    assert forall|t: Seq<char>| candidate(t) implies t1.contains(t) == t0.contains(t) by {
        lemma_take_contains(ts, k, t);
    }
    assert forall|i: int| 0 <= i < o.len() implies entry_ok(
        all,
        b,
        ts,
        k + 1,
        #[trigger] o[i],
        l[i],
    ) by {
        assert(entry_ok(all, b, ts, k, o[i], l[i]));
    }
    assert forall|t: Seq<char>| occurred(all, b, ts, k + 1, t) implies #[trigger] m.contains_key(
        t,
    ) by {
        assert(occurred(all, b, ts, k, t));
    }
}

/// A listed term is counted once per body.
proof fn lemma_again(
    all: Seq<Seq<char>>,
    b: int,
    ts: Seq<Seq<char>>,
    k: int,
    m: Map<Seq<char>, usize>,
    o: Seq<(Seq<char>, usize)>,
    l: Seq<usize>,
    o1: Seq<(Seq<char>, usize)>,
    l1: Seq<usize>,
    at: int,
)
    requires
        counting(all, b, ts, k, m, o, l),
        0 <= k < ts.len(),
        0 <= at < o.len(),
        o[at].0 == ts[k],
        o1 == o.update(at, o1[at]),
        l1 == l.update(at, l1[at]),
        o1[at].0 == ts[k],
        l1[at] == b + 1,
        o1[at].1 == doc_freq(all.take(b), ts[k]) + 1,
    ensures
        counting(all, b, ts, k + 1, m, o1, l1),
{
    let t0 = ts.take(k);
    let t1 = ts.take(k + 1);
    assert forall|i: int| 0 <= i < o1.len() implies m.contains_key((#[trigger] o1[i]).0)
        && m[o1[i].0] == i by {
        assert(o1[i].0 == o[i].0);
    }
    assert forall|t: Seq<char>| #[trigger] m.contains_key(t) implies 0 <= m[t] < o1.len()
        && o1[m[t] as int].0 == t by {
        assert(o1[m[t] as int].0 == o[m[t] as int].0);
    }
    assert forall|i: int| 0 <= i < o1.len() implies entry_ok(
        all,
        b,
        ts,
        k + 1,
        #[trigger] o1[i],
        l1[i],
    ) by {
        assert(entry_ok(all, b, ts, k, o[i], l[i]));
        assert(o1[i].0 == o[i].0);
        lemma_take_contains(ts, k, o1[i].0);
        if i != at && o[i].0 == ts[k] {
            assert(m[o[i].0] == i);
            assert(m[o[at].0] == at);
        }
    }
    assert forall|t: Seq<char>| occurred(all, b, ts, k + 1, t) implies #[trigger] m.contains_key(
        t,
    ) by {
        lemma_take_contains(ts, k, t);
        assert(m.contains_key(o[at].0));
        if t != ts[k] {
            assert(occurred(all, b, ts, k, t));
        }
    }
}

/// A term that is not listed yet is listed with one occurrence.
proof fn lemma_first(
    all: Seq<Seq<char>>,
    b: int,
    ts: Seq<Seq<char>>,
    k: int,
    m: Map<Seq<char>, usize>,
    o: Seq<(Seq<char>, usize)>,
    l: Seq<usize>,
    n: usize,
    stamp: usize,
)
    requires
        counting(all, b, ts, k, m, o, l),
        0 <= k < ts.len(),
        candidate(ts[k]),
        !m.contains_key(ts[k]),
        n == o.len(),
        stamp == b + 1,
    ensures
        counting(
            all,
            b,
            ts,
            k + 1,
            m.insert(ts[k], n),
            o.push((ts[k], 1usize)),
            l.push(stamp),
        ),
{
    let t1 = ts.take(k + 1);
    let m1 = m.insert(ts[k], n);
    let o1 = o.push((ts[k], 1usize));
    let l1 = l.push(stamp);
    assert(!occurred(all, b, ts, k, ts[k]));
    assert forall|i: int| 0 <= i < o1.len() implies m1.contains_key((#[trigger] o1[i]).0)
        && m1[o1[i].0] == i by {
        if i < o.len() {
            assert(o1[i] == o[i]);
            assert(m.contains_key(o[i].0));
        }
    }
    assert forall|t: Seq<char>| #[trigger] m1.contains_key(t) implies 0 <= m1[t] < o1.len()
        && o1[m1[t] as int].0 == t by {
        if t != ts[k] {
            assert(m.contains_key(t));
            assert(o1[m[t] as int] == o[m[t] as int]);
        }
    }
    assert forall|i: int| 0 <= i < o1.len() implies entry_ok(
        all,
        b,
        ts,
        k + 1,
        #[trigger] o1[i],
        l1[i],
    ) by {
        lemma_take_contains(ts, k, o1[i].0);
        if i < o.len() {
            assert(o1[i] == o[i]);
            assert(l1[i] == l[i]);
            assert(entry_ok(all, b, ts, k, o[i], l[i]));
            assert(m.contains_key(o[i].0));
        }
    }
    assert forall|t: Seq<char>| occurred(all, b, ts, k + 1, t) implies #[trigger] m1.contains_key(
        t,
    ) by {
        lemma_take_contains(ts, k, t);
        if t != ts[k] {
            assert(occurred(all, b, ts, k, t));
            assert(m.contains_key(t));
        }
    }
}

/// Counts one term of body `b`.
fn count_term(
    index: &mut StringHashMap<usize>,
    out: &mut Vec<(String, usize)>,
    last: &mut Vec<usize>,
    tok: &str,
    b: usize,
    Ghost(all): Ghost<Seq<Seq<char>>>,
    Ghost(ts): Ghost<Seq<Seq<char>>>,
    Ghost(k): Ghost<int>,
)
    requires
        counting(all, b as int, ts, k, old(index)@, freq_view(old(out)@), old(last)@),
        0 <= b < all.len() < usize::MAX,
        0 <= k < ts.len(),
        ts[k] == tok@,
        forall|i: int| 0 <= i < old(out)@.len() ==> (#[trigger] old(out)@[i]).1 > 0,
    ensures
        counting(all, b as int, ts, k + 1, final(index)@, freq_view(final(out)@), final(last)@),
        forall|i: int| 0 <= i < final(out)@.len() ==> (#[trigger] final(out)@[i]).1 > 0,
{
    let ghost o = freq_view(out@);
    let ghost l = last@;
    let ghost m = index@;
    if !is_candidate(tok) {
        proof {
            lemma_skip(all, b as int, ts, k, m, o, l);
        }
        return;
    }
    let found: Option<usize> = match index.get(tok) {
        Some(i) => Some(*i),
        None => None,
    };
    match found {
        Some(i) => {
            assert(o[i as int].0 == tok@);
            assert(entry_ok(all, b as int, ts, k, o[i as int], l[i as int]));
            if last[i] != b + 1 {
                proof {
                    lemma_doc_freq_bound(all.take(b as int), tok@);
                }
                let n: usize = out[i].1;
                assert(n == o[i as int].1);
                out.set(i, (tok.to_owned(), n + 1));
                last.set(i, b + 1);
            }
            proof {
                let o1 = freq_view(out@);
                assert(o1 =~= o.update(i as int, o1[i as int]));
                assert(last@ =~= l.update(i as int, last@[i as int]));
                lemma_again(all, b as int, ts, k, m, o, l, o1, last@, i as int);
            }
        },
        None => {
            let at: usize = out.len();
            out.push((tok.to_owned(), 1));
            last.push(b + 1);
            index.insert(tok.to_owned(), at);
            proof {
                assert(freq_view(out@) =~= o.push((tok@, 1usize)));
                lemma_first(all, b as int, ts, k, m, o, l, at, (b + 1) as usize);
            }
        },
    }
}

/// After the last term of a body, the counts are those of one body more.
proof fn lemma_next_body(
    all: Seq<Seq<char>>,
    b: int,
    ts: Seq<Seq<char>>,
    index: Map<Seq<char>, usize>,
    o: Seq<(Seq<char>, usize)>,
    last: Seq<usize>,
)
    requires
        0 <= b < all.len(),
        ts == terms(all[b]),
        counting(all, b, ts, ts.len() as int, index, o, last),
    ensures
        counting(all, b + 1, Seq::empty(), 0, index, o, last),
{
    let none = Seq::<Seq<char>>::empty();
    assert(none.take(0) =~= none);
    assert(ts.take(ts.len() as int) =~= ts);
    assert(all.take(b + 1).drop_last() =~= all.take(b));
    assert(all.take(b + 1).last() == all[b]);
    assert forall|i: int| 0 <= i < o.len() implies entry_ok(
        all,
        b + 1,
        none,
        0,
        #[trigger] o[i],
        last[i],
    ) by {
        assert(entry_ok(all, b, ts, ts.len() as int, o[i], last[i]));
        assert(!none.contains(o[i].0));
    }
    assert forall|t: Seq<char>| occurred(all, b + 1, none, 0, t) implies #[trigger] index.contains_key(
        t,
    ) by {
        assert(!none.contains(t));
        assert(occurred(all, b, ts, ts.len() as int, t));
    }
}

/// What each distinct term of the bodies that says something occurs in.
pub fn local_frequencies(bodies: &Vec<String>) -> (r: Vec<(String, usize)>)
    requires
        bodies@.len() < usize::MAX,
    ensures
        forall|i: int|
            0 <= i < r@.len() ==> (#[trigger] r@[i]).1 == doc_freq(strs(bodies@), r@[i].0@)
                && r@[i].1 > 0,
        forall|i: int, j: int|
            0 <= i < j < r@.len() ==> (#[trigger] r@[i]).0@ != (#[trigger] r@[j]).0@,
        forall|t: Seq<char>|
            doc_freq(strs(bodies@), t) > 0 ==> exists|i: int|
                0 <= i < r@.len() && (#[trigger] r@[i]).0@ == t,
{
    let ghost all = strs(bodies@);
    let mut out: Vec<(String, usize)> = Vec::new();
    let mut last: Vec<usize> = Vec::new();
    let mut index: StringHashMap<usize> = StringHashMap::new();
    assert(all.take(0) =~= Seq::empty());
    assert(counting(all, 0, Seq::empty(), 0, index@, freq_view(out@), last@)) by {
        assert(Seq::<Seq<char>>::empty().take(0) =~= Seq::empty());
    }
    for b in 0..bodies.len()
        invariant
            all == strs(bodies@),
            bodies@.len() < usize::MAX,
            counting(all, b as int, Seq::empty(), 0, index@, freq_view(out@), last@),
            forall|i: int| 0 <= i < last@.len() ==> (#[trigger] last@[i]) <= b,
            forall|i: int| 0 <= i < out@.len() ==> (#[trigger] out@[i]).1 > 0,
    {
        let toks = tokenize(bodies[b].as_str());
        let ghost ts = strs(toks@);
        assert(ts == terms(all[b as int]));
        assert(ts.take(0) =~= Seq::empty());
        assert(Seq::<Seq<char>>::empty().take(0) =~= Seq::empty());
        proof {
            lemma_no_terms_yet(all, b as int, ts, index@, freq_view(out@), last@);
        }
        for k in 0..toks.len()
            invariant
                all == strs(bodies@),
                b < bodies@.len() < usize::MAX,
                ts == strs(toks@),
                counting(all, b as int, ts, k as int, index@, freq_view(out@), last@),
                forall|i: int| 0 <= i < out@.len() ==> (#[trigger] out@[i]).1 > 0,
        {
            let tok = toks[k].as_str();
            assert(ts[k as int] == tok@);
            count_term(
                &mut index,
                &mut out,
                &mut last,
                tok,
                b,
                Ghost(all),
                Ghost(ts),
                Ghost(k as int),
            );
        }
        let ghost o = freq_view(out@);
        proof {
            lemma_next_body(all, b as int, ts, index@, o, last@);
        }
        assert forall|i: int| 0 <= i < last@.len() implies (#[trigger] last@[i]) <= b + 1 by {
            assert(entry_ok(all, b as int, ts, ts.len() as int, o[i], last@[i]));
        }
    }
    assert(all.take(all.len() as int) =~= all);
    let ghost o = freq_view(out@);
    proof {
        assert forall|i: int| 0 <= i < out@.len() implies (#[trigger] out@[i]).1 == doc_freq(
            all,
            out@[i].0@,
        ) && out@[i].1 > 0 by {
            assert(o[i] == (out@[i].0@, out@[i].1));
            assert(entry_ok(all, all.len() as int, Seq::empty(), 0, o[i], last@[i]));
            assert(last@[i] <= all.len());
        }
        assert forall|i: int, j: int| 0 <= i < j < out@.len() implies (#[trigger] out@[i]).0@ != (
        #[trigger] out@[j]).0@ by {
            assert(o[i].0 == out@[i].0@ && o[j].0 == out@[j].0@);
            assert(index@[o[i].0] == i && index@[o[j].0] == j);
        }
        assert forall|t: Seq<char>| doc_freq(all, t) > 0 implies exists|i: int|
            0 <= i < out@.len() && (#[trigger] out@[i]).0@ == t by {
            lemma_doc_freq_bound(all, t);
            assert(occurred(all, all.len() as int, Seq::empty(), 0, t));
            assert(index@.contains_key(t));
            let i = index@[t] as int;
            assert(o[i].0 == t);
            assert(out@[i].0@ == t);
        }
    }
    out
}

// ---- Selection -----------------------------------------------------------------------------

/// How many of the best bodies are read.
pub const NEIGHBOURHOOD_SAMPLE: i64 = 24;

/// How many terms are handed back.
pub const MAX_TERMS: usize = 8;

/// The fewest bodies that a term must occur in.
pub const MIN_LOCAL_DOCS: usize = 2;

/// The most bodies, of `n`, that a term may occur in: three fifths, rounded up. What
/// nearly every body says is the form of the corpus and not its vocabulary.
pub open spec fn local_ceiling(n: int) -> int {
    (3 * n + 4) / 5
}

/// A term that the bodies share, that is not said everywhere, and that the query does
/// not use.
pub open spec fn eligible(bodies: Seq<Seq<char>>, raw: Seq<char>, t: Seq<char>) -> bool {
    &&& doc_freq(bodies, t) >= MIN_LOCAL_DOCS
    &&& doc_freq(bodies, t) <= local_ceiling(bodies.len() as int)
    &&& !terms(raw).contains(t)
}

/// The eligible terms with the number of bodies they occur in, each once.
pub fn eligible_terms(bodies: &Vec<String>, raw: &str) -> (r: Vec<(String, usize)>)
    requires
        bodies@.len() < usize::MAX,
    ensures
        forall|i: int|
            0 <= i < r@.len() ==> eligible(strs(bodies@), raw@, (#[trigger] r@[i]).0@) && r@[i].1
                == doc_freq(strs(bodies@), r@[i].0@),
        forall|i: int, j: int|
            0 <= i < j < r@.len() ==> (#[trigger] r@[i]).0@ != (#[trigger] r@[j]).0@,
        forall|t: Seq<char>|
            eligible(strs(bodies@), raw@, t) ==> exists|i: int|
                0 <= i < r@.len() && (#[trigger] r@[i]).0@ == t,
{
    let ghost all = strs(bodies@);
    let local = local_frequencies(bodies);
    let query_terms = tokenize(raw);
    let n: u128 = bodies.len() as u128;
    assert(n <= 0xffff_ffff_ffff_ffff);
    let ceiling: u128 = (3 * n + 4) / 5;
    let mut out: Vec<(String, usize)> = Vec::new();
    let ghost mut from: Seq<int> = Seq::empty();
    for i in 0..local.len()
        invariant
            all == strs(bodies@),
            strs(query_terms@) == terms(raw@),
            ceiling == local_ceiling(all.len() as int),
            forall|j: int|
                0 <= j < local@.len() ==> (#[trigger] local@[j]).1 == doc_freq(all, local@[j].0@),
            forall|j: int, k: int|
                0 <= j < k < local@.len() ==> (#[trigger] local@[j]).0@ != (
                #[trigger] local@[k]).0@,
            from.len() == out@.len(),
            forall|j: int|
                0 <= j < out@.len() ==> 0 <= (#[trigger] from[j]) < i && out@[j].0@
                    == local@[from[j]].0@ && out@[j].1 == local@[from[j]].1 && eligible(
                    all,
                    raw@,
                    out@[j].0@,
                ),
            forall|j: int, k: int| 0 <= j < k < from.len() ==> from[j] < from[k],
            forall|j: int|
                0 <= j < i && eligible(all, raw@, (#[trigger] local@[j]).0@) ==> from.contains(j),
    {
        let ghost before = from;
        let freq: usize = local[i].1;
        if freq >= MIN_LOCAL_DOCS && (freq as u128) <= ceiling && !has_text(
            &query_terms,
            local[i].0.as_str(),
        ) {
            assert(eligible(all, raw@, local@[i as int].0@));
            let ghost prev = out@;
            out.push((local[i].0.clone(), freq));
            proof {
                from = from.push(i as int);
                assert forall|j: int| 0 <= j < out@.len() implies 0 <= (#[trigger] from[j]) < i + 1
                    && out@[j].0@ == local@[from[j]].0@ && out@[j].1 == local@[from[j]].1
                    && eligible(all, raw@, out@[j].0@) by {
                    if j < prev.len() {
                        assert(from[j] == before[j]);
                        assert(out@[j] == prev[j]);
                    }
                }
                assert forall|j: int|
                    0 <= j < i + 1 && eligible(
                        all,
                        raw@,
                        (#[trigger] local@[j]).0@,
                    ) implies from.contains(j) by {
                    if j < i {
                        let q = choose|q: int| 0 <= q < before.len() && before[q] == j;
                        assert(from[q] == j);
                    } else {
                        assert(from[before.len() as int] == j);
                    }
                }
            }
        } else {
            assert(!eligible(all, raw@, local@[i as int].0@));
        }
    }
    proof {
        assert forall|i: int| 0 <= i < out@.len() implies eligible(
            all,
            raw@,
            (#[trigger] out@[i]).0@,
        ) && out@[i].1 == doc_freq(all, out@[i].0@) by {
            let j = from[i];
            assert(local@[j].0@ == out@[i].0@);
        }
        assert forall|i: int, j: int| 0 <= i < j < out@.len() implies (#[trigger] out@[i]).0@ != (
        #[trigger] out@[j]).0@ by {
            let (a, b) = (from[i], from[j]);
            assert(a < b);
            assert(local@[a].0@ != local@[b].0@);
        }
        assert forall|t: Seq<char>| eligible(all, raw@, t) implies exists|i: int|
            0 <= i < out@.len() && (#[trigger] out@[i]).0@ == t by {
            let j = choose|j: int| 0 <= j < local@.len() && (#[trigger] local@[j]).0@ == t;
            assert(from.contains(j));
            let q = choose|q: int| 0 <= q < from.len() && from[q] == j;
            assert(out@[q].0@ == t);
        }
    }
    out
}

/// A scored term: the score comes as the bits of a double-precision value that is not
/// negative, so that the bits are ordered as the scores are.
pub open spec fn scored_view(v: Seq<(u64, String)>) -> Seq<(u64, Seq<char>)> {
    Seq::new(v.len(), |i: int| (v[i].0, v[i].1@))
}

/// A higher score comes first, then the smaller term, so that equal scores never change
/// places between runs.
pub open spec fn better(v: Seq<(u64, Seq<char>)>) -> spec_fn(int, int) -> bool {
    |i: int, j: int|
        v[i].0 > v[j].0 || (v[i].0 == v[j].0 && (str_lt(v[i].1, v[j].1) || (v[i].1 == v[j].1 && i
            < j)))
}

/// The terms that score anything.
pub open spec fn scoring(v: Seq<(u64, Seq<char>)>) -> Seq<(u64, Seq<char>)>
    decreases v.len(),
{
    if v.len() == 0 {
        Seq::empty()
    } else if v.last().0 > 0 {
        scoring(v.drop_last()).push(v.last())
    } else {
        scoring(v.drop_last())
    }
}

/// The best terms: those that score anything, in order, and at most eight.
pub open spec fn best(v: Seq<(u64, Seq<char>)>) -> Seq<Seq<char>> {
    let kept = scoring(v);
    let order = ranking(kept.len() as int, better(kept));
    let n = if kept.len() < MAX_TERMS {
        kept.len() as nat
    } else {
        MAX_TERMS as nat
    };
    Seq::new(n, |k: int| kept[order[k]].1)
}

proof fn lemma_better_is_strict(v: Seq<(u64, Seq<char>)>)
    ensures
        strict_order(v.len() as int, better(v)),
{
    let n = v.len() as int;
    let before = better(v);
    assert forall|i: int| 0 <= i < n implies !#[trigger] before(i, i) by {
        lemma_str_lt_total(v[i].1, v[i].1);
    }
    assert forall|i: int, j: int| 0 <= i < n && 0 <= j < n && i != j implies #[trigger] before(i, j)
        || before(j, i) by {
        lemma_str_lt_total(v[i].1, v[j].1);
    }
    assert forall|i: int, j: int, k: int|
        0 <= i < n && 0 <= j < n && 0 <= k < n && #[trigger] before(i, j) && #[trigger] before(
            j,
            k,
        ) implies before(i, k) by {
        if v[i].0 == v[j].0 && v[j].0 == v[k].0 {
            if str_lt(v[i].1, v[j].1) && str_lt(v[j].1, v[k].1) {
                lemma_str_lt_trans(v[i].1, v[j].1, v[k].1);
            }
        }
    }
}

fn is_better(v: &Vec<(u64, String)>, i: usize, j: usize) -> (b: bool)
    requires
        i < v@.len(),
        j < v@.len(),
    ensures
        b == better(scored_view(v@))(i as int, j as int),
{
    if v[i].0 != v[j].0 {
        v[i].0 > v[j].0
    } else if str_eq(v[i].1.as_str(), v[j].1.as_str()) {
        proof {
            lemma_str_lt_total(v@[i as int].1@, v@[j as int].1@);
        }
        i < j
    } else {
        less(v[i].1.as_str(), v[j].1.as_str())
    }
}

/// Ranks scored terms.
pub fn best_terms(scored: &Vec<(u64, String)>) -> (r: Vec<String>)
    ensures
        strs(r@) == best(scored_view(scored@)),
{
    let ghost all = scored_view(scored@);
    let mut kept: Vec<(u64, String)> = Vec::new();
    assert(scored_view(kept@) =~= Seq::empty());
    assert(all.take(0) =~= Seq::empty());
    for i in 0..scored.len()
        invariant
            all == scored_view(scored@),
            scored_view(kept@) == scoring(all.take(i as int)),
    {
        assert(all.take(i + 1).drop_last() =~= all.take(i as int));
        assert(all[i as int] == (scored@[i as int].0, scored@[i as int].1@));
        if scored[i].0 > 0 {
            let ghost before = scored_view(kept@);
            kept.push((scored[i].0, scored[i].1.clone()));
            assert(scored_view(kept@) =~= before.push(all[i as int]));
        }
    }
    assert(all.take(all.len() as int) =~= all);
    let ghost v = scored_view(kept@);
    proof {
        lemma_better_is_strict(v);
    }
    let f = |i: usize, j: usize| -> (b: bool)
        requires
            i < kept@.len(),
            j < kept@.len(),
        ensures
            b == better(scored_view(kept@))(i as int, j as int),
        { is_better(&kept, i, j) };
    let order = rank_by(kept.len(), f, Ghost(better(v)));
    let ghost ord = order@.map_values(|i: usize| i as int);
    let n: usize = if kept.len() < MAX_TERMS {
        kept.len()
    } else {
        MAX_TERMS
    };
    let mut out: Vec<String> = Vec::new();
    for k in 0..n
        invariant
            v == scored_view(kept@),
            ord == order@.map_values(|i: usize| i as int),
            is_ranking(ord, v.len() as int, better(v)),
            ord == ranking(v.len() as int, better(v)),
            n <= kept@.len(),
            out@.len() == k,
            forall|j: int| 0 <= j < k ==> (#[trigger] out@[j])@ == v[ord[j]].1,
    {
        assert(ord[k as int] == order@[k as int] as int);
        assert(0 <= ord[k as int] < v.len());
        out.push(kept[order[k]].1.clone());
    }
    assert(strs(out@) =~= best(all));
    out
}

/// The query that reaches the neighbourhood: the broadened form, where there is one.
pub fn neighbourhood_query(raw: &str, sanitized: &str) -> (r: Option<String>)
    ensures
        crate::text::opt_str(r) == super::fts5::broadened(raw@, sanitized@),
{
    fts5_or_broadened(raw, sanitized)
}

/// What is handed back, with the size of the neighbourhood.
#[derive(Debug)]
pub struct Neighbourhood {
    pub terms: Vec<String>,
    pub matched: i64,
}

/// Whether the neighbourhood has anything to say: it must be strictly wider than what the
/// query matched already.
pub fn is_wider(neighbourhood_total: i64, already_matched: i64) -> (b: bool)
    ensures
        b == (neighbourhood_total > already_matched),
{
    neighbourhood_total > already_matched
}

/// What is handed back. `neighbourhood_total` is the size of the neighbourhood, where the
/// query has one, and `scored` are the eligible terms with their scores. Terms are handed
/// back only where the neighbourhood is wider than what the query matched.
pub fn neighbourhood_terms(
    already_matched: i64,
    neighbourhood_total: Option<i64>,
    scored: &Vec<(u64, String)>,
) -> (r: Neighbourhood)
    ensures
        match neighbourhood_total {
            None => r.terms@.len() == 0 && r.matched == already_matched,
            Some(n) => r.matched == n && strs(r.terms@) == if n > already_matched {
                best(scored_view(scored@))
            } else {
                Seq::empty()
            },
        },
{
    match neighbourhood_total {
        None => Neighbourhood { terms: Vec::new(), matched: already_matched },
        Some(n) => {
            let terms = if is_wider(n, already_matched) {
                best_terms(scored)
            } else {
                let none: Vec<String> = Vec::new();
                assert(strs(none@) =~= Seq::empty());
                none
            };
            Neighbourhood { terms, matched: n }
        },
    }
}

/// One scored term may come before another.
pub(crate) open spec fn ahead() -> spec_fn((u64, Seq<char>), (u64, Seq<char>)) -> bool {
    |a: (u64, Seq<char>), b: (u64, Seq<char>)|
        a.0 > b.0 || (a.0 == b.0 && (a.1 == b.1 || str_lt(a.1, b.1)))
}

proof fn lemma_ahead_is_total()
    ensures
        vstd::relations::total_ordering(ahead()),
{
    let r = ahead();
    assert forall|a: (u64, Seq<char>), b: (u64, Seq<char>)| #[trigger] r(a, b) && #[trigger] r(
        b,
        a,
    ) implies a == b by {
        lemma_str_lt_total(a.1, b.1);
    }
    assert forall|a: (u64, Seq<char>), b: (u64, Seq<char>)| #[trigger] r(a, b) || #[trigger] r(
        b,
        a,
    ) by {
        lemma_str_lt_total(a.1, b.1);
    }
    assert forall|a: (u64, Seq<char>), b: (u64, Seq<char>), c: (u64, Seq<char>)| #[trigger]
        r(a, b) && #[trigger] r(b, c) implies r(a, c) by {
        if str_lt(a.1, b.1) && str_lt(b.1, c.1) {
            lemma_str_lt_trans(a.1, b.1, c.1);
        }
    }
}

/// Keeping the terms that score anything keeps how often each of them is listed.
pub(crate) proof fn lemma_scoring_counts(v: Seq<(u64, Seq<char>)>, x: (u64, Seq<char>))
    ensures
        scoring(v).to_multiset().count(x) == if x.0 > 0 {
            v.to_multiset().count(x)
        } else {
            0
        },
    decreases v.len(),
{
    broadcast use vstd::seq_lib::group_to_multiset_ensures;
    broadcast use vstd::multiset::group_multiset_axioms;

    if v.len() > 0 {
        let init = v.drop_last();
        lemma_scoring_counts(init, x);
        assert(v =~= init.push(v.last()));
        assert(v.to_multiset() == init.to_multiset().insert(v.last()));
        if v.last().0 > 0 {
            assert(scoring(v).to_multiset() == scoring(init).to_multiset().insert(v.last()));
        }
    } else {
        assert(scoring(v) =~= v);
        assert(!v.contains(x));
        assert(v.to_multiset().count(x) == 0);
    }
}

/// The terms that score anything, best first.
pub(crate) open spec fn sorted_terms(v: Seq<(u64, Seq<char>)>) -> Seq<(u64, Seq<char>)> {
    arranged(scoring(v), ranking(scoring(v).len() as int, better(scoring(v))))
}

pub(crate) proof fn lemma_sorted_terms(v: Seq<(u64, Seq<char>)>)
    ensures
        vstd::relations::sorted_by(sorted_terms(v), ahead()),
        sorted_terms(v).to_multiset() == scoring(v).to_multiset(),
        sorted_terms(v).len() == scoring(v).len(),
        forall|k: int|
            0 <= k < best(v).len() ==> k < sorted_terms(v).len() && #[trigger] best(v)[k]
                == sorted_terms(v)[k].1,
{
    let kept = scoring(v);
    let n = kept.len() as int;
    lemma_better_is_strict(kept);
    lemma_arranging_keeps_the_items(kept, better(kept));
    let order = ranking(n, better(kept));
    let out = sorted_terms(v);
    assert forall|a: int, b: int| 0 <= a < b < out.len() implies #[trigger] ahead()(
        out[a],
        out[b],
    ) by {
        assert(better(kept)(order[a], order[b]));
    }
}

/// What is handed back does not depend on the order in which the terms were scored, so
/// that the same search never answers in two ways.
pub proof fn law_scoring_order_does_not_matter(
    v: Seq<(u64, Seq<char>)>,
    w: Seq<(u64, Seq<char>)>,
)
    requires
        v.to_multiset() == w.to_multiset(),
    ensures
        best(v) == best(w),
{
    lemma_sorted_terms(v);
    lemma_sorted_terms(w);
    assert forall|x: (u64, Seq<char>)| #[trigger]
        scoring(v).to_multiset().count(x) == scoring(w).to_multiset().count(x) by {
        lemma_scoring_counts(v, x);
        lemma_scoring_counts(w, x);
    }
    assert(scoring(v).to_multiset() =~= scoring(w).to_multiset());
    lemma_ahead_is_total();
    vstd::seq_lib::lemma_sorted_unique(sorted_terms(v), sorted_terms(w), ahead());
    assert(best(v) =~= best(w));
}

proof fn lemma_best_are_scored(v: Seq<(u64, Seq<char>)>, k: int)
    requires
        0 <= k < best(v).len(),
    ensures
        exists|i: int| 0 <= i < v.len() && v[i].0 > 0 && (#[trigger] v[i]).1 == best(v)[k],
{
    broadcast use vstd::seq_lib::group_to_multiset_ensures;

    lemma_sorted_terms(v);
    let x = sorted_terms(v)[k];
    assert(sorted_terms(v).contains(x));
    assert(scoring(v).to_multiset().count(x) > 0);
    lemma_scoring_counts(v, x);
    assert(v.contains(x));
    let i = choose|i: int| 0 <= i < v.len() && v[i] == x;
    assert(v[i].1 == best(v)[k]);
}

/// Where the eligible terms were scored, no word of the query is handed back: every word
/// that is handed back says something, is none of the query's, and stands in two of the
/// bodies at least.
pub proof fn law_query_words_are_not_handed_back(
    bodies: Seq<Seq<char>>,
    raw: Seq<char>,
    scored: Seq<(u64, Seq<char>)>,
)
    requires
        forall|i: int| 0 <= i < scored.len() ==> eligible(bodies, raw, (#[trigger] scored[i]).1),
    ensures
        best(scored).len() <= MAX_TERMS,
        forall|k: int| #![trigger best(scored)[k]]
            0 <= k < best(scored).len() ==> {
                let t = best(scored)[k];
                &&& !terms(raw).contains(t)
                &&& candidate(t)
                &&& exists|i: int, j: int|
                    0 <= i < j < bodies.len() && mentions(#[trigger] bodies[i], t) && mentions(
                        #[trigger] bodies[j],
                        t,
                    )
            },
{
    assert forall|k: int| #![trigger best(scored)[k]] 0 <= k < best(scored).len() implies {
        let t = best(scored)[k];
        &&& !terms(raw).contains(t)
        &&& candidate(t)
        &&& exists|i: int, j: int|
            0 <= i < j < bodies.len() && mentions(#[trigger] bodies[i], t) && mentions(
                #[trigger] bodies[j],
                t,
            )
    } by {
        let t = best(scored)[k];
        lemma_best_are_scored(scored, k);
        lemma_doc_freq_bound(bodies, t);
        lemma_two_mentions(bodies, t);
    }
}

proof fn lemma_one_mention(bodies: Seq<Seq<char>>, t: Seq<char>)
    requires
        doc_freq(bodies, t) >= 1,
    ensures
        exists|i: int| 0 <= i < bodies.len() && mentions(#[trigger] bodies[i], t),
    decreases bodies.len(),
{
    let init = bodies.drop_last();
    if mentions(bodies.last(), t) {
        assert(mentions(bodies[bodies.len() - 1], t));
    } else {
        lemma_one_mention(init, t);
        let i = choose|i: int| 0 <= i < init.len() && mentions(#[trigger] init[i], t);
        assert(mentions(bodies[i], t));
    }
}

proof fn lemma_two_mentions(bodies: Seq<Seq<char>>, t: Seq<char>)
    requires
        doc_freq(bodies, t) >= 2,
    ensures
        exists|i: int, j: int|
            0 <= i < j < bodies.len() && mentions(#[trigger] bodies[i], t) && mentions(
                #[trigger] bodies[j],
                t,
            ),
    decreases bodies.len(),
{
    let init = bodies.drop_last();
    if mentions(bodies.last(), t) {
        lemma_one_mention(init, t);
        let i = choose|i: int| 0 <= i < init.len() && mentions(#[trigger] init[i], t);
        assert(mentions(bodies[i], t));
        assert(mentions(bodies[bodies.len() - 1], t));
    } else {
        lemma_two_mentions(init, t);
        let (i, j) = choose|i: int, j: int|
            0 <= i < j < init.len() && mentions(#[trigger] init[i], t) && mentions(
                #[trigger] init[j],
                t,
            );
        assert(mentions(bodies[i], t));
        assert(mentions(bodies[j], t));
    }
}

} // verus!

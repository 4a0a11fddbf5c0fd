//! What holds of the vocabulary that is handed back, stated of texts and scores themselves.
use vstd::prelude::*;

use super::neighbourhood::{
    alphanumeric, ascii, best, candidate, doc_freq, eligible, local_ceiling, lowercase, mentions,
    numeric, scoring, stopword, term_break, terms, NEIGHBOURHOOD_SAMPLE,
};
use crate::text::{ascii_lower, lemma_split_single, nonempty, split_on, str_lt};
use crate::text_laws::{law_a_separator_parts_a_text, lemma_nonempty_concat};

verus! {

// ---- Terms ---------------------------------------------------------------------------------

/// Among the ASCII characters the letters and digits make up terms, and the digits alone are
/// numeric; an ASCII text is put in lower case letter by letter.
pub proof fn law_ascii_terms(c: char, s: Seq<char>)
    ensures
        c <= '\u{7f}' ==> (alphanumeric(c) <==> ('a' <= c && c <= 'z') || ('A' <= c && c <= 'Z') || (
        '0' <= c && c <= '9')),
        c <= '\u{7f}' ==> (numeric(c) <==> '0' <= c && c <= '9'),
        (forall|i: int| 0 <= i < s.len() ==> #[trigger] s[i] <= '\u{7f}') ==> lowercase(s)
            == ascii_lower(s),
{
    if forall|i: int| 0 <= i < s.len() ==> #[trigger] s[i] <= '\u{7f}' {
        assert forall|i: int| 0 <= i < s.len() implies ascii(#[trigger] s[i]) by {}
    }
}

/// The terms of a text: what is neither a letter nor a digit parts them, and nothing else
/// does; a text of letters and digits is one term, in lower case, or none where it is empty.
pub proof fn law_terms_are_runs_of_letters_and_digits(a: Seq<char>, sep: char, b: Seq<char>)
    requires
        !alphanumeric(sep),
    ensures
        terms(a.push(sep) + b) == terms(a) + terms(b),
        (forall|i: int| 0 <= i < a.len() ==> alphanumeric(#[trigger] a[i])) ==> terms(a)
            == if a.len() == 0 {
            Seq::<Seq<char>>::empty()
        } else {
            seq![lowercase(a)]
        },
{
    let p = term_break();
    law_a_separator_parts_a_text(a, sep, b, p);
    lemma_nonempty_concat(split_on(a, p), split_on(b, p));
    assert(terms(a.push(sep) + b) =~= terms(a) + terms(b));
    if forall|i: int| 0 <= i < a.len() ==> alphanumeric(#[trigger] a[i]) {
        assert forall|i: int| 0 <= i < a.len() implies !p(#[trigger] a[i]) by {}
        lemma_split_single(a, p);
        assert(seq![a].drop_last() =~= Seq::<Seq<char>>::empty());
        assert(nonempty(Seq::<Seq<char>>::empty()) =~= Seq::empty());
        assert(terms(a) =~= if a.len() == 0 {
            Seq::<Seq<char>>::empty()
        } else {
            seq![lowercase(a)]
        });
    }
}

/// A term says something exactly where it has three characters or more, not all of them
/// numeric, and is no stop word.
pub proof fn law_what_says_something(t: Seq<char>)
    ensures
        t.len() < 3 ==> !candidate(t),
        (forall|i: int| 0 <= i < t.len() ==> numeric(#[trigger] t[i])) ==> !candidate(t),
        stopword(t) ==> !candidate(t),
        t.len() >= 3 && !stopword(t) && (exists|i: int|
            0 <= i < t.len() && !numeric(#[trigger] t[i])) ==> candidate(t),
{
}

/// The stop words are these, and no others.
pub proof fn law_stop_words(t: Seq<char>)
    ensures
        stopword(t) <==>
            t == "the"@ || t == "and"@ || t == "for"@ || t == "that"@ || t == "this"@ ||
            t == "with"@ || t == "from"@ || t == "was"@ || t == "were"@ || t == "are"@ ||
            t == "but"@ || t == "not"@ || t == "all"@ || t == "any"@ || t == "can"@ ||
            t == "has"@ || t == "had"@ || t == "have"@ || t == "its"@ || t == "our"@ ||
            t == "out"@ || t == "than"@ || t == "then"@ || t == "they"@ || t == "them"@ ||
            t == "there"@ || t == "these"@ || t == "those"@ || t == "what"@ || t == "when"@ ||
            t == "which"@ || t == "will"@ || t == "would"@ || t == "you"@ || t == "your"@ ||
            t == "into"@ || t == "over"@ || t == "only"@ || t == "one"@ || t == "two"@ ||
            t == "how"@ || t == "why"@ || t == "who"@ || t == "his"@ || t == "her"@ ||
            t == "their"@ || t == "been"@ || t == "because"@ || t == "should"@ ||
            t == "could"@ || t == "does"@ || t == "did"@ || t == "each"@ || t == "more"@ ||
            t == "most"@ || t == "some"@ || t == "such"@ || t == "very"@,
{
}

// ---- Selection -----------------------------------------------------------------------------

/// A term is counted once for each body that mentions it, however often it does.
pub proof fn law_terms_are_counted_by_body(
    bodies: Seq<Seq<char>>,
    body: Seq<char>,
    t: Seq<char>,
)
    ensures
        doc_freq(Seq::<Seq<char>>::empty(), t) == 0,
        candidate(t) && terms(body).contains(t) ==> doc_freq(bodies.push(body), t) == doc_freq(
            bodies,
            t,
        ) + 1,
        !candidate(t) || !terms(body).contains(t) ==> doc_freq(bodies.push(body), t) == doc_freq(
            bodies,
            t,
        ),
        mentions(body, t) <==> candidate(t) && terms(body).contains(t),
{
    assert(bodies.push(body).drop_last() =~= bodies);
}

/// The most bodies that a term may stand in are three fifths of them, rounded up.
pub proof fn law_the_ceiling_is_three_fifths(n: int)
    requires
        n >= 0,
    ensures
        5 * local_ceiling(n) >= 3 * n,
        5 * (local_ceiling(n) - 1) < 3 * n,
        NEIGHBOURHOOD_SAMPLE == 24,
{
}

/// A term is eligible exactly where two bodies or more mention it, not more than the ceiling
/// allows, and the query does not use it.
pub proof fn law_what_is_eligible(bodies: Seq<Seq<char>>, raw: Seq<char>, t: Seq<char>)
    ensures
        eligible(bodies, raw, t) <==> doc_freq(bodies, t) >= 2 && doc_freq(bodies, t)
            <= local_ceiling(bodies.len() as int) && !terms(raw).contains(t),
{
}

/// A list is in the order in which terms are handed back: higher scores first, and of equal
/// scores the smaller term.
pub open spec fn in_order_of_worth(s: Seq<(u64, Seq<char>)>) -> bool {
    forall|a: int, b: int|
        0 <= a < b < s.len() ==> {
            let (x, y) = (#[trigger] s[a], #[trigger] s[b]);
            x.0 > y.0 || (x.0 == y.0 && (x.1 == y.1 || str_lt(x.1, y.1)))
        }
}

/// The terms with a score above nothing, and only those, each as often as it was scored.
pub open spec fn those_that_score(
    s: Seq<(u64, Seq<char>)>,
    scored: Seq<(u64, Seq<char>)>,
) -> bool {
    forall|x: (u64, Seq<char>)| #[trigger]
        s.to_multiset().count(x) == if x.0 > 0 {
            scored.to_multiset().count(x)
        } else {
            0
        }
}

/// What is handed back is the first eight, or all where there are fewer, of the terms with a
/// score above nothing, the worthier first.
pub proof fn law_the_worthiest_terms_are_handed_back(scored: Seq<(u64, Seq<char>)>)
    ensures
        exists|s: Seq<(u64, Seq<char>)>| #[trigger]
            in_order_of_worth(s) && those_that_score(s, scored) && best(scored).len() == (if s.len()
                < 8 {
                s.len()
            } else {
                8
            }) && forall|k: int| 0 <= k < best(scored).len() ==> best(scored)[k] == (#[trigger] s[k]).1,
{
    let s = super::neighbourhood::sorted_terms(scored);
    super::neighbourhood::lemma_sorted_terms(scored);
    assert(in_order_of_worth(s)) by {
        assert forall|a: int, b: int| 0 <= a < b < s.len() implies ({
            let (x, y) = (#[trigger] s[a], #[trigger] s[b]);
            x.0 > y.0 || (x.0 == y.0 && (x.1 == y.1 || str_lt(x.1, y.1)))
        }) by {
            assert(super::neighbourhood::ahead()(s[a], s[b]));
        }
    }
    assert forall|x: (u64, Seq<char>)| #[trigger] s.to_multiset().count(x) == if x.0 > 0 {
        scored.to_multiset().count(x)
    } else {
        0
    } by {
        super::neighbourhood::lemma_scoring_counts(scored, x);
    }
    assert(those_that_score(s, scored));
    assert(s.len() == scoring(scored).len());
}

} // verus!

//! What holds of the query language, stated of the queries themselves.
use vstd::prelude::*;

use super::fts5::{
    broadened, explicit_syntax, fallback_outcome, next_query, phrase_open, sanitized, sanitized_tokens, syntax_complaint,
    law_sanitizing_keeps_the_tokens, token_safe,
};
use crate::text::{
    ascii_lower, has_sub, joined, lemma_words_joined, lemma_words_plain, white_space, words,
};

verus! {

// ---- Broadening ------------------------------------------------------------------------

/// The terms with `OR` between neighbours.
spec fn alternated(v: Seq<Seq<char>>) -> Seq<Seq<char>> {
    Seq::new(
        (2 * v.len() - 1) as nat,
        |i: int|
            if i % 2 == 0 {
                v[i / 2]
            } else {
                "OR"@
            },
    )
}

proof fn lemma_joined_alternated(v: Seq<Seq<char>>)
    requires
        v.len() > 0,
    ensures
        joined(v, " OR "@) == joined(alternated(v), " "@),
    decreases v.len(),
{
    let a = alternated(v);
    if v.len() == 1 {
        assert(a.len() == 1);
        assert(a[0] == v[0]);
    } else {
        let init = v.drop_last();
        lemma_joined_alternated(init);
        let b = alternated(init);
        let n = v.len() as int;
        assert(a.len() == 2 * n - 1);
        assert(a.drop_last().drop_last() =~= b) by {
            assert forall|i: int| 0 <= i < b.len() implies a[i] == b[i] by {
                if i % 2 == 0 {
                    assert(0 <= i / 2 < init.len());
                }
            }
        }
        assert((2 * n - 3) % 2 == 1);
        assert(a.drop_last().last() == "OR"@);
        assert((2 * n - 2) / 2 == n - 1);
        assert(a.last() == v.last());
        reveal_strlit(" OR ");
        reveal_strlit(" ");
        reveal_strlit("OR");
        let head = joined(b, " "@);
        assert(b.len() > 0);
        assert(joined(a.drop_last(), " "@) == head + " "@ + "OR"@);
        assert(joined(a, " "@) == head + " "@ + "OR"@ + " "@ + v.last());
        assert(" "@ + "OR"@ + " "@ =~= " OR "@);
        assert(head + " "@ + "OR"@ + " "@ + v.last() =~= head + " OR "@ + v.last());
    }
}

/// Plain prose: none of the characters and none of the words that only deliberate syntax
/// has.
pub open spec fn plain_prose(raw: Seq<char>) -> bool {
    &&& forall|i: int|
        0 <= i < raw.len() ==> #[trigger] raw[i] != '"' && raw[i] != '(' && raw[i] != ')' && raw[i]
            != ':'
    &&& forall|i: int|
        0 <= i < words(raw).len() ==> #[trigger] words(raw)[i] != "OR"@ && words(raw)[i] != "AND"@
            && words(raw)[i] != "NOT"@ && words(raw)[i] != "NEAR"@ && words(raw)[i][0] != '+'
            && words(raw)[i][0] != '-'
}

/// Plain prose of two terms or more, however many, is broadened, and the broadened query,
/// read back, is every term in order with `OR` between neighbours.
pub proof fn law_broadening_joins_every_term(raw: Seq<char>, clean: Seq<char>)
    requires
        plain_prose(raw),
        words(clean).len() >= 2,
    ensures
        ({
            let terms = words(clean);
            let q = broadened(raw, clean);
            &&& q is Some
            &&& words(q->0).len() == 2 * terms.len() - 1
            &&& forall|k: int|
                0 <= k < 2 * terms.len() - 1 && k % 2 == 0 ==> #[trigger] words(q->0)[k]
                    == terms[k / 2]
            &&& forall|k: int|
                0 <= k < 2 * terms.len() - 1 && k % 2 == 1 ==> #[trigger] words(q->0)[k] == "OR"@
        }),
{
    let terms = words(clean);
    let a = alternated(terms);
    lemma_words_plain(clean);
    lemma_words_plain(raw);
    assert(!explicit_syntax(raw));
    lemma_joined_alternated(terms);
    reveal_strlit("OR");
    assert forall|i: int| 0 <= i < a.len() implies (#[trigger] a[i]).len() > 0 by {
        if i % 2 == 0 {
            assert(terms[i / 2].len() > 0);
        }
    }
    assert forall|i: int, j: int| 0 <= i < a.len() && 0 <= j < a[i].len() implies !white_space(
        #[trigger] a[i][j],
    ) by {
        if i % 2 == 0 {
            assert(!white_space(terms[i / 2][j]));
        }
    }
    lemma_words_joined(a);
}

/// What is not plain prose, and what has fewer than two terms, is never broadened.
pub proof fn law_only_prose_is_broadened(raw: Seq<char>, clean: Seq<char>)
    ensures
        !plain_prose(raw) ==> broadened(raw, clean) is None,
        words(clean).len() < 2 ==> broadened(raw, clean) is None,
{
    lemma_words_plain(raw);
    if !plain_prose(raw) {
        assert(explicit_syntax(raw)) by {
            if exists|i: int|
                0 <= i < raw.len() && (#[trigger] raw[i] == '"' || raw[i] == '(' || raw[i] == ')'
                    || raw[i] == ':') {
                let i = choose|i: int|
                    0 <= i < raw.len() && (#[trigger] raw[i] == '"' || raw[i] == '(' || raw[i]
                        == ')' || raw[i] == ':');
                assert(super::fts5::syntax_char(raw[i]));
            } else {
                let i = choose|i: int|
                    0 <= i < words(raw).len() && !(#[trigger] words(raw)[i] != "OR"@ && words(
                        raw,
                    )[i] != "AND"@ && words(raw)[i] != "NOT"@ && words(raw)[i] != "NEAR"@ && words(
                        raw,
                    )[i][0] != '+' && words(raw)[i][0] != '-');
                assert(words(raw)[i].len() > 0);
                assert(super::fts5::syntax_token(words(raw)[i]));
            }
        }
    }
}

// ---- Sanitizing ------------------------------------------------------------------------

/// A character that the parser takes in a bare word or an operator.
pub open spec fn harmless(c: char) -> bool {
    ('a' <= c && c <= 'z') || ('A' <= c && c <= 'Z') || ('0' <= c && c <= '9') || c == '_' || c
        == '*' || c == '^' || c == '(' || c == ')' || c == ','
}

/// Outside the caller's phrases a token is sent as it is where it holds a quote or is made
/// of harmless characters alone, and between two quotes otherwise.
pub proof fn law_hostile_tokens_are_quoted(raw: Seq<char>, i: int)
    requires
        0 <= i < words(raw).len(),
        !phrase_open(words(raw).take(i)),
    ensures
        ({
            let token = words(raw)[i];
            let sent = words(sanitized(raw))[i];
            let as_it_is = (exists|k: int| 0 <= k < token.len() && #[trigger] token[k] == '"')
                || forall|k: int| 0 <= k < token.len() ==> harmless(#[trigger] token[k]);
            &&& as_it_is ==> sent == token
            &&& !as_it_is ==> sent == seq!['"'] + token + seq!['"']
        }),
        words(sanitized(raw)).len() == words(raw).len(),
{
    law_sanitizing_keeps_the_tokens(raw);
    let token = words(raw)[i];
    assert(words(sanitized(raw))[i] == sanitized_tokens(words(raw))[i]);
    if exists|k: int| 0 <= k < token.len() && #[trigger] token[k] == '"' {
        let k = choose|k: int| 0 <= k < token.len() && #[trigger] token[k] == '"';
        assert(token.contains('"'));
    } else {
        assert(!token.contains('"'));
        if forall|k: int| 0 <= k < token.len() ==> harmless(#[trigger] token[k]) {
            assert forall|k: int| 0 <= k < token.len() implies super::fts5::bareword_char(
                #[trigger] token[k],
            ) by {
                assert(harmless(token[k]));
            }
            assert(token_safe(token));
        } else {
            let k = choose|k: int| 0 <= k < token.len() && !harmless(#[trigger] token[k]);
            assert(!super::fts5::bareword_char(token[k]));
            assert(!token_safe(token));
        }
    }
}

/// A phrase begins with a token that holds an odd number of quotes and ends with the next
/// such token: a token without a quote leaves it open or closed, a single quote turns it.
pub proof fn law_quotes_open_and_close_phrases(
    tokens: Seq<Seq<char>>,
    plain: Seq<char>,
    a: Seq<char>,
    b: Seq<char>,
)
    requires
        forall|k: int| 0 <= k < plain.len() ==> #[trigger] plain[k] != '"',
        forall|k: int| 0 <= k < a.len() ==> #[trigger] a[k] != '"',
        forall|k: int| 0 <= k < b.len() ==> #[trigger] b[k] != '"',
    ensures
        !phrase_open(Seq::<Seq<char>>::empty()),
        phrase_open(tokens.push(plain)) == phrase_open(tokens),
        phrase_open(tokens.push(a + seq!['"'] + b)) == !phrase_open(tokens),
        phrase_open(tokens.push(seq!['"'] + a + seq!['"'])) == phrase_open(tokens),
{
    lemma_odd(plain);
    lemma_odd(a);
    lemma_odd_concat(a, seq!['"'] + b);
    lemma_odd_concat(seq!['"'], b);
    lemma_odd(b);
    lemma_one_quote();
    assert(a + seq!['"'] + b =~= a + (seq!['"'] + b));
    lemma_odd_concat(seq!['"'] + a, seq!['"']);
    lemma_odd_concat(seq!['"'], a);
    assert(tokens.push(plain).drop_last() =~= tokens);
    assert(tokens.push(a + seq!['"'] + b).drop_last() =~= tokens);
    assert(tokens.push(seq!['"'] + a + seq!['"']).drop_last() =~= tokens);
}

proof fn lemma_one_quote()
    ensures
        super::fts5::odd_quotes(seq!['"']),
{
    assert(seq!['"'].drop_last() =~= Seq::<char>::empty());
    assert(!super::fts5::odd_quotes(Seq::<char>::empty()));
}

proof fn lemma_odd(s: Seq<char>)
    requires
        forall|k: int| 0 <= k < s.len() ==> #[trigger] s[k] != '"',
    ensures
        !super::fts5::odd_quotes(s),
    decreases s.len(),
{
    if s.len() > 0 {
        assert(s[s.len() - 1] != '"');
        assert forall|k: int| 0 <= k < s.drop_last().len() implies #[trigger] s.drop_last()[k]
            != '"' by {
            assert(s[k] != '"');
        }
        lemma_odd(s.drop_last());
    }
}

proof fn lemma_odd_concat(a: Seq<char>, b: Seq<char>)
    ensures
        super::fts5::odd_quotes(a + b) == (super::fts5::odd_quotes(a)
            != super::fts5::odd_quotes(b)),
    decreases b.len(),
{
    if b.len() == 0 {
        assert(a + b =~= a);
    } else {
        lemma_odd_concat(a, b.drop_last());
        assert((a + b).drop_last() =~= a + b.drop_last());
        assert((a + b).last() == b.last());
    }
}

// ---- Explaining ------------------------------------------------------------------------

/// A message is a complaint about the query exactly where one of four phrases stands in it,
/// in whatever case.
pub proof fn law_syntax_complaints(msg: Seq<char>)
    ensures
        syntax_complaint(msg) <==> has_sub(ascii_lower(msg), "fts5: syntax error"@) || has_sub(
            ascii_lower(msg),
            "fts5: phrase"@,
        ) || has_sub(ascii_lower(msg), "unterminated string"@) || has_sub(
            ascii_lower(msg),
            "no such column"@,
        ),
{
}

// ---- Retrying --------------------------------------------------------------------------

/// A search is made again exactly where it matched nothing and can be broadened; and where the
/// broadened search matches something, its matches are reported, as those of a broadened search.
pub proof fn law_a_search_without_matches_is_broadened(
    raw: Seq<char>,
    clean: Seq<char>,
    total: i64,
    query: Seq<char>,
    n: i64,
)
    ensures
        next_query(raw, clean, total) is Some <==> total == 0 && broadened(raw, clean) is Some,
        next_query(raw, clean, 0) == broadened(raw, clean),
        n > 0 ==> ({
            let out = fallback_outcome(clean, total, Some((query, n)));
            out.query == query && out.total == n && out.broadened
        }),
        n <= 0 ==> ({
            let out = fallback_outcome(clean, total, Some((query, n)));
            out.query == clean && out.total == total && !out.broadened
        }),
        ({
            let out = fallback_outcome(clean, total, None);
            out.query == clean && out.total == total && !out.broadened
        }),
{
}

} // verus!

//! The query language of the index: quoting what its parser would reject, broadening a
//! query that matched nothing, and escaping text for `LIKE`.
use vstd::prelude::*;

use crate::text::{
    append_chars, ascii_alnum, ascii_lower, contains_chars, from_chars, has_char, has_sub,
    is_ascii_alnum, join, joined, lemma_words_joined, lemma_words_plain, lower_char, occurs_at,
    split_words, str_eq, texts, to_ascii_lower, to_chars, white_space, words,
};

verus! {

// ---- LIKE ------------------------------------------------------------------------------

/// One character of a `LIKE` pattern that stands for itself.
pub open spec fn like_char(c: char) -> Seq<char> {
    if c == '\\' || c == '%' || c == '_' {
        seq!['\\', c]
    } else {
        seq![c]
    }
}

/// A `LIKE` pattern that stands for the text `s`, with `\` as the escape character.
pub open spec fn like_escaped(s: Seq<char>) -> Seq<char>
    decreases s.len(),
{
    if s.len() == 0 {
        Seq::empty()
    } else {
        like_char(s[0]) + like_escaped(s.drop_first())
    }
}

/// Escapes the wildcards of `LIKE`.
pub fn like_escape(s: &str) -> (r: Vec<char>)
    ensures
        r@ == like_escaped(s@),
{
    let v = to_chars(s);
    let mut r: Vec<char> = Vec::new();
    assert(v@.skip(0) =~= v@);
    for i in 0..v.len()
        invariant
            r@ + like_escaped(v@.skip(i as int)) =~= like_escaped(v@),
    {
        let ghost before = r@;
        let c: char = v[i];
        assert(v@.skip(i as int)[0] == c);
        assert(v@.skip(i as int).drop_first() =~= v@.skip(i + 1));
        if c == '\\' || c == '%' || c == '_' {
            r.push('\\');
        }
        r.push(c);
        assert(r@ =~= before + like_char(c));
    }
    assert(v@.skip(v@.len() as int) =~= Seq::empty());
    r
}

/// The pattern that matches every text that holds `needle`, in whatever case.
pub open spec fn substring_pattern(needle: Seq<char>) -> Seq<char> {
    seq!['%'] + like_escaped(needle) + seq!['%']
}

/// A `LIKE` pattern for the texts that hold `needle`.
pub fn like_substring(needle: &str) -> (r: String)
    ensures
        r@ == substring_pattern(needle@),
{
    let mut out: Vec<char> = Vec::new();
    out.push('%');
    append_chars(&mut out, &like_escape(needle));
    out.push('%');
    assert(out@ =~= substring_pattern(needle@));
    from_chars(&out)
}

/// `LIKE` takes two characters for the same: it does not mind the case of ASCII letters.
pub open spec fn like_same(a: char, b: char) -> bool {
    lower_char(a) == lower_char(b)
}

/// What `LIKE` with `\` as the escape character means: `%` matches any stretch, `_` any
/// character, and `\` makes the next character stand for itself. The case of ASCII letters
/// does not matter.
pub open spec fn like_matches(pattern: Seq<char>, text: Seq<char>) -> bool
    decreases pattern.len() + text.len(),
{
    if pattern.len() == 0 {
        text.len() == 0
    } else if pattern[0] == '%' {
        like_matches(pattern.drop_first(), text) || (text.len() > 0 && like_matches(
            pattern,
            text.drop_first(),
        ))
    } else if pattern[0] == '\\' && pattern.len() > 1 {
        text.len() > 0 && like_same(text[0], pattern[1]) && like_matches(
            pattern.drop_first().drop_first(),
            text.drop_first(),
        )
    } else {
        text.len() > 0 && (pattern[0] == '_' || like_same(text[0], pattern[0])) && like_matches(
            pattern.drop_first(),
            text.drop_first(),
        )
    }
}

proof fn lemma_percent_matches_all(text: Seq<char>)
    ensures
        like_matches(seq!['%'], text),
    decreases text.len(),
{
    let p = seq!['%'];
    assert(p.drop_first() =~= Seq::<char>::empty());
    if text.len() == 0 {
        assert(like_matches(p.drop_first(), text));
    } else {
        lemma_percent_matches_all(text.drop_first());
    }
}

proof fn lemma_escaped_prefix(needle: Seq<char>, text: Seq<char>)
    ensures
        like_matches(like_escaped(needle) + seq!['%'], text) == ascii_lower(needle).is_prefix_of(
            ascii_lower(text),
        ),
    decreases needle.len(),
{
    let p = like_escaped(needle) + seq!['%'];
    let n = ascii_lower(needle);
    let s = ascii_lower(text);
    if needle.len() == 0 {
        assert(p =~= seq!['%']);
        lemma_percent_matches_all(text);
        assert(n =~= s.subrange(0, 0));
    } else {
        let c = needle[0];
        let tail = like_escaped(needle.drop_first()) + seq!['%'];
        assert(ascii_lower(needle.drop_first()) =~= n.drop_first());
        if text.len() > 0 {
            lemma_escaped_prefix(needle.drop_first(), text.drop_first());
            assert(ascii_lower(text.drop_first()) =~= s.drop_first());
        }
        if c == '\\' || c == '%' || c == '_' {
            assert(p[0] == '\\' && p[1] == c);
            assert(p.drop_first().drop_first() =~= tail);
        } else {
            assert(p[0] == c);
            assert(p.drop_first() =~= tail);
        }
        assert(n.is_prefix_of(s) == (s.len() > 0 && s[0] == n[0] && n.drop_first().is_prefix_of(
            s.drop_first(),
        ))) by {
            if n.is_prefix_of(s) {
                assert(s[0] == s.subrange(0, n.len() as int)[0]);
                assert(n.drop_first() =~= s.drop_first().subrange(0, n.len() - 1));
            }
            if s.len() > 0 && s[0] == n[0] && n.drop_first().is_prefix_of(s.drop_first()) {
                let t = s.drop_first().subrange(0, n.len() - 1);
                assert forall|k: int| 0 <= k < n.len() implies n[k] == s[k] by {
                    if k > 0 {
                        assert(n.drop_first()[k - 1] == t[k - 1]);
                    }
                }
                assert(n =~= s.subrange(0, n.len() as int));
            }
        }
    }
}

proof fn lemma_percent_escaped(needle: Seq<char>, text: Seq<char>)
    ensures
        like_matches(substring_pattern(needle), text) == has_sub(
            ascii_lower(text),
            ascii_lower(needle),
        ),
    decreases text.len(),
{
    let p = substring_pattern(needle);
    let rest = like_escaped(needle) + seq!['%'];
    let n = ascii_lower(needle);
    let s = ascii_lower(text);
    assert(p.drop_first() =~= rest);
    lemma_escaped_prefix(needle, text);
    assert(n.is_prefix_of(s) == occurs_at(s, n, 0));
    if text.len() > 0 {
        let t = s.drop_first();
        lemma_percent_escaped(needle, text.drop_first());
        assert(ascii_lower(text.drop_first()) =~= t);
        if has_sub(t, n) {
            let i = choose|i: int| occurs_at(t, n, i);
            assert(s.subrange(i + 1, i + 1 + n.len()) =~= t.subrange(i, i + n.len()));
            assert(occurs_at(s, n, i + 1));
        }
        if has_sub(s, n) {
            let i = choose|i: int| occurs_at(s, n, i);
            if i > 0 {
                assert(t.subrange(i - 1, i - 1 + n.len()) =~= s.subrange(i, i + n.len()));
                assert(occurs_at(t, n, i - 1));
            }
        }
    } else {
        if has_sub(s, n) {
            let i = choose|i: int| occurs_at(s, n, i);
            assert(i == 0);
        }
    }
}

/// Wildcards in a needle stay literal: the pattern matches exactly the texts that hold
/// the needle, whatever the case of their ASCII letters.
pub proof fn law_like_pattern_is_substring_search(needle: Seq<char>, text: Seq<char>)
    ensures
        like_matches(substring_pattern(needle), text) <==> has_sub(
            ascii_lower(text),
            ascii_lower(needle),
        ),
{
    lemma_percent_escaped(needle, text);
}

// ---- Sanitizing ------------------------------------------------------------------------

/// A character of a bare word, or of an operator or a group.
pub open spec fn bareword_char(c: char) -> bool {
    ascii_alnum(c) || c == '_' || c == '*' || c == '^' || c == '(' || c == ')' || c == ','
}

/// A token that goes through as it is: one with a quote in it, or one made of bare-word
/// characters.
pub open spec fn token_safe(t: Seq<char>) -> bool {
    t.contains('"') || forall|i: int| 0 <= i < t.len() ==> bareword_char(#[trigger] t[i])
}

/// A token as it is sent to the index: a hostile one stands in double quotes.
pub open spec fn sanitized_token(t: Seq<char>) -> Seq<char> {
    if token_safe(t) {
        t
    } else {
        seq!['"'] + t + seq!['"']
    }
}

/// An odd number of double quotes stands in a text.
pub open spec fn odd_quotes(t: Seq<char>) -> bool
    decreases t.len(),
{
    if t.len() == 0 {
        false
    } else {
        odd_quotes(t.drop_last()) != (t.last() == '"')
    }
}

/// A quoted phrase is open behind the tokens: it was begun and not closed.
pub open spec fn phrase_open(tokens: Seq<Seq<char>>) -> bool
    decreases tokens.len(),
{
    if tokens.len() == 0 {
        false
    } else {
        phrase_open(tokens.drop_last()) != odd_quotes(tokens.last())
    }
}

/// Each token as it is sent to the index: inside a quoted phrase as it is.
pub open spec fn sanitized_tokens(tokens: Seq<Seq<char>>) -> Seq<Seq<char>> {
    Seq::new(
        tokens.len(),
        |i: int|
            if phrase_open(tokens.take(i)) {
                tokens[i]
            } else {
                sanitized_token(tokens[i])
            },
    )
}

/// The query with its hostile tokens quoted and single spaces between tokens.
pub open spec fn sanitized(raw: Seq<char>) -> Seq<char> {
    joined(sanitized_tokens(words(raw)), " "@)
}

fn has_odd_quotes(t: &[char]) -> (b: bool)
    ensures
        b == odd_quotes(t@),
{
    let mut odd = false;
    for i in 0..t.len()
        invariant
            odd == odd_quotes(t@.take(i as int)),
    {
        assert(t@.take(i + 1).drop_last() =~= t@.take(i as int));
        if t[i] == '"' {
            odd = !odd;
        }
    }
    assert(t@.take(t@.len() as int) =~= t@);
    odd
}

fn is_token_safe(t: &[char]) -> (b: bool)
    ensures
        b == token_safe(t@),
{
    if has_char(t, '"') {
        return true;
    }
    for i in 0..t.len()
        invariant
            forall|j: int| 0 <= j < i ==> bareword_char(#[trigger] t@[j]),
            !t@.contains('"'),
    {
        let c: char = t[i];
        if !(is_ascii_alnum(c) || c == '_' || c == '*' || c == '^' || c == '(' || c == ')' || c
            == ',') {
            assert(!bareword_char(t@[i as int]));
            return false;
        }
    }
    true
}

/// Makes a query robust against the bare-word grammar: each token that the parser would
/// reject is wrapped in a quoted phrase, and deliberate syntax, the caller's own phrases
/// among it, goes through untouched.
pub fn sanitize_fts5_query(raw: &str) -> (r: String)
    ensures
        r@ == sanitized(raw@),
{
    let tokens = split_words(raw);
    let ghost all = words(raw@);
    let ghost wanted = sanitized_tokens(all);
    let mut out: Vec<Vec<char>> = Vec::new();
    let mut open = false;
    assert(all.take(0) =~= Seq::empty());
    for i in 0..tokens.len()
        invariant
            texts(tokens@) == all,
            wanted == sanitized_tokens(all),
            out@.len() == i,
            open == phrase_open(all.take(i as int)),
            forall|j: int| 0 <= j < i ==> (#[trigger] out@[j])@ == wanted[j],
    {
        assert(all[i as int] == tokens@[i as int]@);
        assert(all.take(i + 1).drop_last() =~= all.take(i as int));
        let tok = tokens[i].as_slice();
        let mut w: Vec<char> = Vec::new();
        if open || is_token_safe(tok) {
            append_chars(&mut w, tok);
            assert(w@ =~= tok@);
        } else {
            w.push('"');
            append_chars(&mut w, tok);
            w.push('"');
            assert(w@ =~= seq!['"'] + tok@ + seq!['"']);
        }
        out.push(w);
        if has_odd_quotes(tok) {
            open = !open;
        }
    }
    assert(texts(out@) =~= wanted);
    from_chars(&join(&out, " "))
}

proof fn lemma_no_quotes(t: Seq<char>)
    requires
        !t.contains('"'),
    ensures
        !odd_quotes(t),
    decreases t.len(),
{
    if t.len() > 0 {
        let u = t.drop_last();
        assert(t[t.len() - 1] == t.last());
        assert(!u.contains('"')) by {
            if u.contains('"') {
                let k = choose|k: int| 0 <= k < u.len() && u[k] == '"';
                assert(t[k] == '"');
            }
        }
        lemma_no_quotes(u);
    }
}

/// Quotes in front do not mix with those behind.
proof fn lemma_quote_in_front(t: Seq<char>)
    ensures
        odd_quotes(seq!['"'] + t) == !odd_quotes(t),
    decreases t.len(),
{
    let q = seq!['"'] + t;
    if t.len() == 0 {
        assert(q.drop_last() =~= Seq::<char>::empty());
        assert(!odd_quotes(q.drop_last()));
        assert(q.last() == '"');
    } else {
        lemma_quote_in_front(t.drop_last());
        assert(q.drop_last() =~= seq!['"'] + t.drop_last());
        assert(q.last() == t.last());
    }
}

/// A token as it is sent opens or closes a phrase where the token does, and, seen as a
/// token again, goes through as it is.
proof fn lemma_sanitized_token(t: Seq<char>)
    requires
        t.len() > 0,
        forall|i: int| 0 <= i < t.len() ==> !white_space(#[trigger] t[i]),
    ensures
        token_safe(sanitized_token(t)),
        odd_quotes(sanitized_token(t)) == odd_quotes(t),
        sanitized_token(t).len() > 0,
        forall|i: int|
            0 <= i < sanitized_token(t).len() ==> !white_space(#[trigger] sanitized_token(t)[i]),
{
    if !token_safe(t) {
        let q = seq!['"'] + t + seq!['"'];
        assert(q[0] == '"');
        assert(token_safe(q));
        lemma_no_quotes(t);
        lemma_quote_in_front(t);
        assert(q.drop_last() =~= seq!['"'] + t);
        assert(q.last() == '"');
        assert forall|i: int| 0 <= i < q.len() implies !white_space(#[trigger] q[i]) by {
            if 0 < i < q.len() - 1 {
                assert(q[i] == t[i - 1]);
            }
        }
    }
}

proof fn lemma_same_phrases(tokens: Seq<Seq<char>>, k: int)
    requires
        0 <= k <= tokens.len(),
        forall|i: int| 0 <= i < tokens.len() ==> (#[trigger] tokens[i]).len() > 0,
        forall|i: int, j: int|
            0 <= i < tokens.len() && 0 <= j < tokens[i].len() ==> !white_space(
                #[trigger] tokens[i][j],
            ),
    ensures
        phrase_open(sanitized_tokens(tokens).take(k)) == phrase_open(tokens.take(k)),
    decreases k,
{
    if k > 0 {
        let v = sanitized_tokens(tokens);
        lemma_same_phrases(tokens, k - 1);
        lemma_sanitized_token(tokens[k - 1]);
        assert(v.take(k).drop_last() =~= v.take(k - 1));
        assert(tokens.take(k).drop_last() =~= tokens.take(k - 1));
    } else {
        assert(sanitized_tokens(tokens).take(0) =~= tokens.take(0));
    }
}

/// The tokens of a sanitized query are the sanitized tokens of the query, in order.
pub proof fn law_sanitizing_keeps_the_tokens(raw: Seq<char>)
    ensures
        words(sanitized(raw)) == sanitized_tokens(words(raw)),
{
    lemma_words_plain(raw);
    let v = sanitized_tokens(words(raw));
    assert forall|i: int| 0 <= i < v.len() implies (#[trigger] v[i]).len() > 0 by {
        lemma_sanitized_token(words(raw)[i]);
    }
    assert forall|i: int, j: int| 0 <= i < v.len() && 0 <= j < v[i].len() implies !white_space(
        #[trigger] v[i][j],
    ) by {
        lemma_sanitized_token(words(raw)[i]);
    }
    lemma_words_joined(v);
}

/// Sanitizing a sanitized query changes nothing.
pub proof fn law_sanitizing_twice_changes_nothing(raw: Seq<char>)
    ensures
        sanitized(sanitized(raw)) == sanitized(raw),
{
    law_sanitizing_keeps_the_tokens(raw);
    lemma_words_plain(raw);
    let v = sanitized_tokens(words(raw));
    assert forall|i: int| 0 <= i < v.len() implies sanitized_tokens(v)[i] == #[trigger] v[i] by {
        lemma_sanitized_token(words(raw)[i]);
        lemma_same_phrases(words(raw), i);
    }
    assert(sanitized_tokens(v) =~= v);
}

/// Every token of a sanitized query is one that the parser takes, or stands in a phrase of
/// the caller's.
pub proof fn law_sanitized_tokens_are_safe(raw: Seq<char>)
    ensures
        forall|i: int|
            0 <= i < words(sanitized(raw)).len() ==> token_safe(#[trigger] words(sanitized(raw))[i])
                || phrase_open(words(raw).take(i)),
{
    law_sanitizing_keeps_the_tokens(raw);
    lemma_words_plain(raw);
    assert forall|i: int| 0 <= i < words(sanitized(raw)).len() implies token_safe(
        #[trigger] words(sanitized(raw))[i],
    ) || phrase_open(words(raw).take(i)) by {
        lemma_sanitized_token(words(raw)[i]);
    }
}

/// What the caller has quoted goes through untouched, phrases of several words and an
/// unclosed one among it, and so does every token that the parser takes as it is.
pub proof fn law_deliberate_syntax_goes_through(raw: Seq<char>)
    ensures
        forall|i: int|
            0 <= i < words(raw).len() && (phrase_open(words(raw).take(i)) || token_safe(
                words(raw)[i],
            )) ==> #[trigger] words(sanitized(raw))[i] == words(raw)[i],
{
    law_sanitizing_keeps_the_tokens(raw);
}

// ---- Broadening ------------------------------------------------------------------------

/// A character that only deliberate syntax has.
pub open spec fn syntax_char(c: char) -> bool {
    c == '"' || c == '(' || c == ')' || c == ':'
}

/// A token that only deliberate syntax has: a boolean or proximity keyword, or a `+` or
/// `-` in front.
pub open spec fn syntax_token(t: Seq<char>) -> bool {
    ||| t == "OR"@
    ||| t == "AND"@
    ||| t == "NOT"@
    ||| t == "NEAR"@
    ||| (t.len() > 0 && (t[0] == '+' || t[0] == '-'))
}

/// The caller wrote syntax on purpose.
pub open spec fn explicit_syntax(raw: Seq<char>) -> bool {
    ||| exists|i: int| 0 <= i < raw.len() && syntax_char(#[trigger] raw[i])
    ||| exists|i: int| 0 <= i < words(raw).len() && syntax_token(#[trigger] words(raw)[i])
}

/// The query to retry with: the sanitized tokens joined by `OR`, where the query is plain
/// prose of two or more terms.
pub open spec fn broadened(raw: Seq<char>, clean: Seq<char>) -> Option<Seq<char>> {
    if explicit_syntax(raw) || words(clean).len() < 2 {
        None
    } else {
        Some(joined(words(clean), " OR "@))
    }
}

fn has_syntax_char(v: &[char]) -> (b: bool)
    ensures
        b == exists|i: int| 0 <= i < v@.len() && syntax_char(#[trigger] v@[i]),
{
    for i in 0..v.len()
        invariant
            forall|j: int| 0 <= j < i ==> !syntax_char(#[trigger] v@[j]),
    {
        let c: char = v[i];
        if c == '"' || c == '(' || c == ')' || c == ':' {
            assert(syntax_char(v@[i as int]));
            return true;
        }
    }
    false
}

fn is_syntax_token(t: &[char]) -> (b: bool)
    ensures
        b == syntax_token(t@),
{
    let s = from_chars(t);
    str_eq(s.as_str(), "OR") || str_eq(s.as_str(), "AND") || str_eq(s.as_str(), "NOT") || str_eq(
        s.as_str(),
        "NEAR",
    ) || (t.len() > 0 && (t[0] == '+' || t[0] == '-'))
}

/// The OR-joined form of a query that is plain prose of two or more terms. A query with
/// explicit syntax is never rewritten.
pub fn fts5_or_broadened(raw: &str, sanitized: &str) -> (r: Option<String>)
    ensures
        crate::text::opt_str(r) == broadened(raw@, sanitized@),
{
    let v = to_chars(raw);
    if has_syntax_char(&v) {
        return None;
    }
    let tokens = split_words(raw);
    for i in 0..tokens.len()
        invariant
            texts(tokens@) == words(raw@),
            forall|j: int| 0 <= j < i ==> !syntax_token(#[trigger] words(raw@)[j]),
    {
        assert(words(raw@)[i as int] == tokens@[i as int]@);
        if is_syntax_token(tokens[i].as_slice()) {
            assert(syntax_token(words(raw@)[i as int]));
            return None;
        }
    }
    let clean = split_words(sanitized);
    if clean.len() < 2 {
        return None;
    }
    Some(from_chars(&join(&clean, " OR ")))
}

/// The outcome of a search: the query that produced the count, the count, and whether it
/// is the broadened one.
pub struct MatchCount {
    pub query: String,
    pub total: i64,
    pub broadened: bool,
}

pub struct MatchCountV {
    pub query: Seq<char>,
    pub total: i64,
    pub broadened: bool,
}

impl View for MatchCount {
    type V = MatchCountV;

    open spec fn view(&self) -> MatchCountV {
        MatchCountV { query: self.query@, total: self.total, broadened: self.broadened }
    }
}

/// The search to make after `clean` matched `total` entries: the broadened one where
/// there was no match and there is a broadened form.
pub open spec fn next_query(raw: Seq<char>, clean: Seq<char>, total: i64) -> Option<Seq<char>> {
    if total == 0 {
        broadened(raw, clean)
    } else {
        None
    }
}

/// The outcome where `clean` matched `total` entries and the retry, if one was made,
/// matched as many as it says. A retry counts only where it matched something.
pub open spec fn fallback_outcome(
    clean: Seq<char>,
    total: i64,
    retry: Option<(Seq<char>, i64)>,
) -> MatchCountV {
    match retry {
        Some((query, n)) => if n > 0 {
            MatchCountV { query, total: n, broadened: true }
        } else {
            MatchCountV { query: clean, total, broadened: false }
        },
        None => MatchCountV { query: clean, total, broadened: false },
    }
}

/// The query to retry with after `sanitized` matched `total` entries.
pub fn retry_query(raw: &str, sanitized: &str, total: i64) -> (r: Option<String>)
    ensures
        crate::text::opt_str(r) == next_query(raw@, sanitized@, total),
{
    if total == 0 {
        fts5_or_broadened(raw, sanitized)
    } else {
        None
    }
}

/// The outcome of a search and its retry.
pub fn match_count_with_or_fallback(
    sanitized: &str,
    total: i64,
    retry: Option<(String, i64)>,
) -> (r: MatchCount)
    ensures
        r@ == fallback_outcome(
            sanitized@,
            total,
            match retry {
                Some((q, n)) => Some((q@, n)),
                None => None,
            },
        ),
{
    if let Some((query, n)) = retry {
        if n > 0 {
            return MatchCount { query, total: n, broadened: true };
        }
    }
    MatchCount { query: sanitized.to_owned(), total, broadened: false }
}

/// Whatever the index counts, the outcome carries the count of the query that it names,
/// and that query is the broadened one only where the strict one matched nothing and the
/// broadened one matched something.
pub proof fn law_fallback_reports_the_query_it_counted(
    raw: Seq<char>,
    clean: Seq<char>,
    count: spec_fn(Seq<char>) -> i64,
)
    ensures
        ({
            let retry = match next_query(raw, clean, count(clean)) {
                Some(q) => Some((q, count(q))),
                None => None,
            };
            let out = fallback_outcome(clean, count(clean), retry);
            &&& out.total == count(out.query)
            &&& out.broadened ==> count(clean) == 0 && out.total > 0 && broadened(raw, clean)
                == Some(out.query)
            &&& !out.broadened ==> out.query == clean
            &&& explicit_syntax(raw) ==> !out.broadened
        }),
{
}

// ---- Explaining ------------------------------------------------------------------------

/// A database message that complains about the syntax of the query.
pub open spec fn syntax_complaint(msg: Seq<char>) -> bool {
    let lower = ascii_lower(msg);
    ||| has_sub(lower, "fts5: syntax error"@)
    ||| has_sub(lower, "fts5: phrase"@)
    ||| has_sub(lower, "unterminated string"@)
    ||| has_sub(lower, "no such column"@)
}

/// What a caller is told about a query that the index cannot parse.
pub const QUERY_HELP: &'static str =
    "the query is not valid FTS5 MATCH syntax. nibdex takes FTS5 expressions, not \
     natural language, and ( ) \" * ^ : are operators there — so a bare code \
     fragment like parse_config( is read as syntax rather than as text. To search \
     for it literally, wrap it in double quotes: \"parse_config(\". An unbalanced \
     double quote fails the same way. This is a malformed query, NOT an empty or \
     broken index.";

/// Turns a database error into something that the caller can act on; an error that is no
/// complaint about the query goes through unchanged.
pub fn explain_query_error(msg: &str) -> (r: String)
    ensures
        r@ == if syntax_complaint(msg@) {
            QUERY_HELP@
        } else {
            msg@
        },
{
    let lower = to_ascii_lower(&to_chars(msg));
    if contains_chars(&lower, &to_chars("fts5: syntax error")) || contains_chars(
        &lower,
        &to_chars("fts5: phrase"),
    ) || contains_chars(&lower, &to_chars("unterminated string")) || contains_chars(
        &lower,
        &to_chars("no such column"),
    ) {
        QUERY_HELP.to_owned()
    } else {
        msg.to_owned()
    }
}

} // verus!

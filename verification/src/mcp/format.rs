//! Shaping results: rows into results, results into envelopes.
use vstd::prelude::*;

use super::types::{CommitResult, SessionEdgeResult, ToolEnvelope};
use crate::json::{json_document, Json, JsonV};
use crate::text::{
    char_count, from_chars, is_white_space, opt_ref, opt_str, slice_chars, to_chars, white_space,
};
use crate::time::{iso_or_count, rfc3339_text, unix_to_iso};

verus! {

// ---- Excerpts ----------------------------------------------------------------------------

/// The position of the last white space.
pub open spec fn last_space(s: Seq<char>) -> Option<int>
    decreases s.len(),
{
    if s.len() == 0 {
        None
    } else if white_space(s.last()) {
        Some(s.len() - 1)
    } else {
        last_space(s.drop_last())
    }
}

/// `body` where it has at most `max` characters; otherwise its first `max` characters,
/// cut at the last white space past the middle where there is one, and an ellipsis.
pub open spec fn summary(body: Seq<char>, max: int) -> Seq<char> {
    if body.len() <= max {
        body
    } else {
        let head = body.take(max);
        match last_space(head) {
            Some(i) => if i > max / 2 {
                head.take(i).push('…')
            } else {
                head.push('…')
            },
            None => head.push('…'),
        }
    }
}

proof fn lemma_last_space(s: Seq<char>)
    ensures
        last_space(s) matches Some(i) ==> 0 <= i < s.len() && white_space(s[i]),
    decreases s.len(),
{
    if s.len() > 0 {
        lemma_last_space(s.drop_last());
    }
}

fn find_last_space(s: &[char]) -> (r: Option<usize>)
    ensures
        match r {
            Some(i) => last_space(s@) == Some(i as int),
            None => last_space(s@) is None,
        },
{
    let mut i: usize = s.len();
    assert(s@.take(s@.len() as int) =~= s@);
    while i > 0
        invariant
            i <= s@.len(),
            last_space(s@) == last_space(s@.take(i as int)),
        decreases i,
    {
        assert(s@.take(i as int).drop_last() =~= s@.take(i - 1));
        if is_white_space(s[i - 1]) {
            return Some(i - 1);
        }
        i = i - 1;
    }
    None
}

/// Truncates `body` to at most `max_chars` characters, on a word boundary where there is
/// one past the middle.
pub fn summarize(body: &str, max_chars: usize) -> (r: String)
    ensures
        r@ == summary(body@, max_chars as int),
{
    let v = to_chars(body);
    if v.len() <= max_chars {
        return body.to_owned();
    }
    let head = slice_chars(&v, 0, max_chars);
    assert(head@ =~= body@.take(max_chars as int));
    let mut end: usize = head.len();
    if let Some(i) = find_last_space(&head) {
        if i > max_chars / 2 {
            proof {
                lemma_last_space(head@);
            }
            end = i;
        }
    }
    let mut out = slice_chars(&head, 0, end);
    assert(out@ =~= head@.take(end as int));
    assert(head@.take(head@.len() as int) =~= head@);
    out.push('…');
    from_chars(&out)
}

/// A summary has at most one character more than asked for, is the body itself where that
/// fits, and otherwise a beginning of the body, of more than half the length, with an
/// ellipsis.
pub proof fn law_summary_is_a_bounded_beginning(body: Seq<char>, max: int)
    requires
        max >= 0,
    ensures
        summary(body, max).len() <= max + 1,
        body.len() <= max ==> summary(body, max) == body,
        body.len() > max ==> {
            let s = summary(body, max);
            &&& s.len() > 0
            &&& s.last() == '…'
            &&& s.drop_last().is_prefix_of(body)
            &&& s.len() - 1 == max || (max / 2 < s.len() - 1 < max && white_space(
                body[s.len() - 1],
            ))
        },
{
    if body.len() > max {
        let head = body.take(max);
        lemma_last_space(head);
        let s = summary(body, max);
        assert(s.drop_last() =~= body.subrange(0, s.len() - 1));
    }
}

/// The first seven characters of a hash.
pub open spec fn short_hash(full: Seq<char>) -> Seq<char> {
    if full.len() <= 7 {
        full
    } else {
        full.take(7)
    }
}

/// The first seven characters of a hash.
pub fn shorten_hash(full: &str) -> (r: String)
    ensures
        r@ == short_hash(full@),
{
    let v = to_chars(full);
    if v.len() <= 7 {
        full.to_owned()
    } else {
        let head = slice_chars(&v, 0, 7);
        assert(head@ =~= full@.take(7));
        from_chars(&head)
    }
}

// ---- Columns -----------------------------------------------------------------------------

/// What a column that should hold a JSON array is read as, given the document in it: null
/// where the column is missing or empty, the document where there is one, and the text
/// itself otherwise.
pub open spec fn column_value(raw: Option<Seq<char>>, doc: Option<JsonV>) -> JsonV {
    match raw {
        None => JsonV::Null,
        Some(s) => if s.len() == 0 {
            JsonV::Null
        } else {
            match doc {
                Some(d) => d,
                None => JsonV::Str(s),
            }
        },
    }
}

/// The value of a column, given the document in it.
pub fn column_json(raw: Option<&str>, doc: Option<Json>) -> (r: Json)
    ensures
        r@ == column_value(opt_ref(raw), crate::json::opt_owned(doc)),
{
    match raw {
        None => Json::Null,
        Some(s) => {
            if char_count(s) == 0 {
                Json::Null
            } else {
                match doc {
                    Some(d) => d,
                    None => Json::Str(s.to_owned()),
                }
            }
        },
    }
}

/// The document in a column.
pub open spec fn column_document(raw: Option<Seq<char>>) -> Option<JsonV> {
    match raw {
        Some(s) => json_document(s),
        None => None,
    }
}

/// Decodes a column that should hold a JSON array.
pub fn parse_json_array(raw: Option<&str>) -> (r: Json)
    ensures
        r@ == column_value(opt_ref(raw), column_document(opt_ref(raw))),
{
    let doc = match raw {
        Some(s) => Json::parse(s),
        None => None,
    };
    column_json(raw, doc)
}

// ---- Percentiles -------------------------------------------------------------------------

/// The position of a percentile among `n` values: the nearest rank, halves rounded up.
pub open spec fn percentile_rank(n: int, percent: int) -> int {
    ((n - 1) * percent + 50) / 100
}

/// The nearest-rank percentile of a sorted list; 0 of an empty one.
pub open spec fn percentile_of(sorted: Seq<i64>, percent: int) -> i64 {
    if sorted.len() == 0 {
        0
    } else {
        sorted[percentile_rank(
            sorted.len() as int,
            if percent > 100 {
                100
            } else {
                percent
            },
        )]
    }
}

/// The nearest-rank percentile of a sorted list.
pub fn percentile(sorted: &[i64], percent: u32) -> (r: i64)
    ensures
        r == percentile_of(sorted@, percent as int),
{
    if sorted.len() == 0 {
        return 0;
    }
    let p: u128 = if percent > 100 {
        100
    } else {
        percent as u128
    };
    let last: u128 = (sorted.len() - 1) as u128;
    assert(last <= 0xffff_ffff_ffff_ffff);
    assert(last * p <= 0xffff_ffff_ffff_ffff * 100) by (nonlinear_arith)
        requires
            last <= 0xffff_ffff_ffff_ffff,
            p <= 100,
    ;
    assert((last * p + 50) / 100 <= last) by (nonlinear_arith)
        requires
            p <= 100,
    ;
    let at: u128 = (last * p + 50) / 100;
    sorted[at as usize]
}

/// A percentile of a sorted list is one of its values, and a higher percentile is never
/// the smaller one.
pub proof fn law_percentiles_are_ordered(sorted: Seq<i64>, p: int, q: int)
    requires
        sorted.len() > 0,
        forall|a: int, b: int| 0 <= a < b < sorted.len() ==> sorted[a] <= sorted[b],
        0 <= p <= q,
    ensures
        sorted.contains(percentile_of(sorted, p)),
        percentile_of(sorted, p) <= percentile_of(sorted, q),
{
    let n = sorted.len() as int;
    let a = if p > 100 {
        100
    } else {
        p
    };
    let b = if q > 100 {
        100
    } else {
        q
    };
    assert(0 <= percentile_rank(n, a) <= percentile_rank(n, b) <= n - 1) by (nonlinear_arith)
        requires
            n >= 1,
            0 <= a <= b <= 100,
    ;
    assert(sorted[percentile_rank(n, a)] == percentile_of(sorted, p));
}

// ---- Session edges -----------------------------------------------------------------------

/// A row of a session edge with the commit that captured it.
#[derive(Debug)]
pub struct SessionEdgeRow {
    pub session_id: String,
    pub tool: String,
    pub file_path: String,
    pub repo_path: Option<String>,
    pub git_branch: Option<String>,
    pub edited_at: i64,
    pub rationale: String,
    pub commit_hash_full: Option<String>,
    pub commit_summary: Option<String>,
}

/// How a time is shown.
pub open spec fn shown_time(unix: i64) -> Seq<char> {
    iso_or_count(rfc3339_text(unix), unix)
}

/// A result says what its row says, with the time and the short hash written out.
pub open spec fn edge_result_of(r: SessionEdgeResult, row: SessionEdgeRow, rank: Option<u64>) -> bool {
    &&& r.session_id@ == row.session_id@
    &&& r.tool@ == row.tool@
    &&& r.file_path@ == row.file_path@
    &&& opt_str(r.repo_path) == opt_str(row.repo_path)
    &&& opt_str(r.git_branch) == opt_str(row.git_branch)
    &&& r.edited_at_iso@ == shown_time(row.edited_at)
    &&& r.edited_at_unix == row.edited_at
    &&& r.rationale@ == row.rationale@
    &&& opt_str(r.commit_hash) == match opt_str(row.commit_hash_full) {
        Some(h) => Some(short_hash(h)),
        None => None,
    }
    &&& opt_str(r.commit_hash_full) == opt_str(row.commit_hash_full)
    &&& opt_str(r.commit_summary) == opt_str(row.commit_summary)
    &&& r.rank == rank
}

/// Builds the result of a row.
pub fn build_session_edge_result(row: SessionEdgeRow, rank: Option<u64>) -> (r: SessionEdgeResult)
    ensures
        edge_result_of(r, row, rank),
{
    let commit_hash = match &row.commit_hash_full {
        Some(h) => Some(shorten_hash(h.as_str())),
        None => None,
    };
    SessionEdgeResult {
        session_id: row.session_id,
        tool: row.tool,
        file_path: row.file_path,
        repo_path: row.repo_path,
        git_branch: row.git_branch,
        edited_at_iso: unix_to_iso(row.edited_at),
        edited_at_unix: row.edited_at,
        rationale: row.rationale,
        commit_hash,
        commit_hash_full: row.commit_hash_full,
        commit_summary: row.commit_summary,
        rank,
    }
}

/// The characters of all rationales.
pub open spec fn rationale_chars(v: Seq<SessionEdgeResult>) -> nat
    decreases v.len(),
{
    if v.len() == 0 {
        0
    } else {
        rationale_chars(v.drop_last()) + v.last().rationale@.len()
    }
}

proof fn lemma_rationale_chars_take(v: Seq<SessionEdgeResult>, i: int)
    requires
        0 <= i < v.len(),
    ensures
        rationale_chars(v.take(i + 1)) == rationale_chars(v.take(i)) + v[i].rationale@.len(),
        rationale_chars(v.take(i + 1)) <= rationale_chars(v),
    decreases v.len() - i,
{
    assert(v.take(i + 1).drop_last() =~= v.take(i));
    if i + 1 < v.len() {
        lemma_rationale_chars_take(v, i + 1);
    } else {
        assert(v.take(i + 1) =~= v);
    }
}

/// An envelope around `results` that has nothing more to say.
pub open spec fn plain_envelope<T>(
    e: ToolEnvelope<T>,
    results: Seq<T>,
    total: i64,
    tool: Seq<char>,
    broadened: bool,
    full_tokens: int,
) -> bool {
    &&& e.results@ == results
    &&& e.total_matched == total
    &&& e.returned == results.len()
    &&& e.tool@ == tool
    &&& e.query_broadened == broadened
    &&& e.corpus_empty is None
    &&& e.corpus_indexed_through is None
    &&& e.returned_full_tokens == full_tokens
    &&& e.neighbourhood_terms@.len() == 0
    &&& e.retrieval_shape is None
    &&& e.also_matched@.len() == 0
}

/// An envelope around `results`.
pub fn envelope<T>(
    results: Vec<T>,
    total: i64,
    tool: &str,
    query_broadened: bool,
    returned_full_tokens: u64,
) -> (r: ToolEnvelope<T>)
    requires
        results@.len() <= i64::MAX,
    ensures
        plain_envelope(
            r,
            results@,
            total,
            tool@,
            query_broadened,
            returned_full_tokens as int,
        ),
{
    let returned: i64 = results.len() as i64;
    ToolEnvelope {
        results,
        total_matched: total,
        returned,
        tool: tool.to_owned(),
        query_broadened,
        corpus_empty: None,
        corpus_indexed_through: None,
        returned_full_tokens,
        neighbourhood_terms: Vec::new(),
        retrieval_shape: None,
        also_matched: Vec::new(),
    }
}

/// The envelope of session edges. Reading them by hand would mean reading their
/// rationales, four characters to a token.
pub fn finish_session_edge_envelope(
    results: Vec<SessionEdgeResult>,
    total: i64,
    tool: &str,
    query_broadened: bool,
) -> (r: ToolEnvelope<SessionEdgeResult>)
    requires
        results@.len() <= i64::MAX,
        rationale_chars(results@) <= u64::MAX,
    ensures
        plain_envelope(
            r,
            results@,
            total,
            tool@,
            query_broadened,
            rationale_chars(results@) as int / 4,
        ),
{
    let mut chars: u64 = 0;
    let ghost all = results@;
    for i in 0..results.len()
        invariant
            all == results@,
            chars == rationale_chars(all.take(i as int)),
            rationale_chars(all) <= u64::MAX,
    {
        proof {
            lemma_rationale_chars_take(all, i as int);
        }
        chars = chars + char_count(results[i].rationale.as_str()) as u64;
    }
    assert(all.take(all.len() as int) =~= all);
    envelope(results, total, tool, query_broadened, chars / 4)
}

// ---- Commits -----------------------------------------------------------------------------

/// A row of a commit with what is known of its repository.
#[derive(Debug)]
pub struct CommitRow {
    pub commit_hash_full: String,
    pub repo_path: String,
    pub parent_hashes_json: Option<String>,
    pub author_email: Option<String>,
    pub author_name: Option<String>,
    pub authored_at: i64,
    pub committed_at: i64,
    pub message_summary: String,
    pub message_body: Option<String>,
    pub files_changed_json: Option<String>,
    pub is_shallow: Option<i64>,
}

/// A result says what its row says, with the time and the short hash written out and the
/// JSON columns decoded. A repository of which nothing is known counts as complete.
pub open spec fn commit_result_of(r: CommitResult, row: CommitRow, rank: Option<u64>) -> bool {
    &&& r.commit_hash@ == short_hash(row.commit_hash_full@)
    &&& r.commit_hash_full@ == row.commit_hash_full@
    &&& r.repo_path@ == row.repo_path@
    &&& r.authored_at_iso@ == shown_time(row.authored_at)
    &&& r.authored_at_unix == row.authored_at
    &&& opt_str(r.author_email) == opt_str(row.author_email)
    &&& opt_str(r.author_name) == opt_str(row.author_name)
    &&& r.message_summary@ == row.message_summary@
    &&& opt_str(r.message_body) == opt_str(row.message_body)
    &&& r.files_changed@ == column_value(
        opt_str(row.files_changed_json),
        column_document(opt_str(row.files_changed_json)),
    )
    &&& r.parent_hashes@ == column_value(
        opt_str(row.parent_hashes_json),
        column_document(opt_str(row.parent_hashes_json)),
    )
    &&& r.is_shallow == (row.is_shallow is Some && row.is_shallow->0 != 0)
    &&& r.rank == rank
}

fn decode_column(raw: &Option<String>) -> (r: Json)
    ensures
        r@ == column_value(opt_str(*raw), column_document(opt_str(*raw))),
{
    match raw {
        Some(s) => parse_json_array(Some(s.as_str())),
        None => parse_json_array(None),
    }
}

/// Builds the result of a row.
pub fn build_commit_result(row: CommitRow, rank: Option<u64>) -> (r: CommitResult)
    ensures
        commit_result_of(r, row, rank),
{
    let files_changed = decode_column(&row.files_changed_json);
    let parent_hashes = decode_column(&row.parent_hashes_json);
    let is_shallow = match row.is_shallow {
        Some(n) => n != 0,
        None => false,
    };
    CommitResult {
        commit_hash: shorten_hash(row.commit_hash_full.as_str()),
        commit_hash_full: row.commit_hash_full,
        repo_path: row.repo_path,
        authored_at_iso: unix_to_iso(row.authored_at),
        authored_at_unix: row.authored_at,
        author_email: row.author_email,
        author_name: row.author_name,
        message_summary: row.message_summary,
        message_body: row.message_body,
        files_changed,
        parent_hashes,
        is_shallow,
        rank,
    }
}

/// The length of an optional text, nothing counting as empty.
pub open spec fn opt_len(o: Option<String>) -> nat {
    match o {
        Some(s) => s@.len(),
        None => 0,
    }
}

/// The characters of all messages, summaries and bodies.
pub open spec fn message_chars(v: Seq<CommitResult>) -> nat
    decreases v.len(),
{
    if v.len() == 0 {
        0
    } else {
        message_chars(v.drop_last()) + v.last().message_summary@.len() + opt_len(
            v.last().message_body,
        )
    }
}

proof fn lemma_message_chars_take(v: Seq<CommitResult>, i: int)
    requires
        0 <= i < v.len(),
    ensures
        message_chars(v.take(i + 1)) == message_chars(v.take(i)) + v[i].message_summary@.len()
            + opt_len(v[i].message_body),
        message_chars(v.take(i + 1)) <= message_chars(v),
    decreases v.len() - i,
{
    assert(v.take(i + 1).drop_last() =~= v.take(i));
    if i + 1 < v.len() {
        lemma_message_chars_take(v, i + 1);
    } else {
        assert(v.take(i + 1) =~= v);
    }
}

/// The envelope of commits. Reading them by hand would mean reading their full messages.
pub fn finish_commit_envelope(
    results: Vec<CommitResult>,
    total: i64,
    tool: &str,
    query_broadened: bool,
) -> (r: ToolEnvelope<CommitResult>)
    requires
        results@.len() <= i64::MAX,
        message_chars(results@) <= u64::MAX,
    ensures
        plain_envelope(
            r,
            results@,
            total,
            tool@,
            query_broadened,
            message_chars(results@) as int / 4,
        ),
{
    let mut chars: u64 = 0;
    let ghost all = results@;
    for i in 0..results.len()
        invariant
            all == results@,
            chars == message_chars(all.take(i as int)),
            message_chars(all) <= u64::MAX,
    {
        proof {
            lemma_message_chars_take(all, i as int);
        }
        let body: usize = match &results[i].message_body {
            Some(b) => char_count(b.as_str()),
            None => 0,
        };
        chars = chars + char_count(results[i].message_summary.as_str()) as u64;
        chars = chars + body as u64;
    }
    assert(all.take(all.len() as int) =~= all);
    envelope(results, total, tool, query_broadened, chars / 4)
}

// ---- Empty responses ---------------------------------------------------------------------

/// Says of a response without results whether its corpus is empty, and how current it is
/// where it is not. A response with results says nothing of the kind. `count` is the size
/// of the corpus and `newest` the time of its newest item, where they could be had.
pub fn annotate_empty_result<T>(e: &mut ToolEnvelope<T>, count: Option<i64>, newest: Option<i64>)
    ensures
        ({
            let silent = old(e).results@.len() > 0 || count is None;
            &&& final(e).results == old(e).results
            &&& final(e).total_matched == old(e).total_matched
            &&& final(e).returned == old(e).returned
            &&& final(e).tool == old(e).tool
            &&& final(e).query_broadened == old(e).query_broadened
            &&& final(e).returned_full_tokens == old(e).returned_full_tokens
            &&& final(e).neighbourhood_terms == old(e).neighbourhood_terms
            &&& final(e).retrieval_shape == old(e).retrieval_shape
            &&& final(e).also_matched == old(e).also_matched
            &&& silent ==> final(e).corpus_empty == old(e).corpus_empty
                && final(e).corpus_indexed_through == old(e).corpus_indexed_through
            &&& !silent ==> final(e).corpus_empty == Some(count->0 == 0)
            &&& !silent ==> opt_str(final(e).corpus_indexed_through) == if count->0 != 0
                && newest is Some {
                Some(shown_time(newest->0))
            } else {
                None
            }
        }),
{
    if e.results.len() == 0 {
        if let Some(n) = count {
            e.corpus_empty = Some(n == 0);
            e.corpus_indexed_through = match newest {
                Some(t) => if n != 0 {
                    Some(unix_to_iso(t))
                } else {
                    None
                },
                None => None,
            };
        }
    }
}

} // verus!

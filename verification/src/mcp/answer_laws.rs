//! What holds of the answers of the tools, stated of the rows and numbers themselves.
use vstd::prelude::*;

use super::check::{
    ascending, durations_of, gone, missing_count, orphan_table, percentile_table, refusals,
    same_counts, share_tenths, smaller, OrphanChild,
};
use super::format::{
    column_value, commit_result_of, edge_result_of, last_space, message_chars, percentile_of,
    percentile_rank, plain_envelope, rationale_chars, short_hash, shown_time, summary, CommitRow,
    SessionEdgeRow,
};
use super::fts5::MatchCount;
use super::query::{
    body_for, code_full, code_paths, code_pointers, code_result_of, code_snippets, day_window,
    design_full, design_paths, design_pointers, design_result_of, design_snippets, excerpt_for,
    memory_chars, openable, recent_filter, row_limit, shown, spent_on, CodePointer, CodeRow,
    DesignDocRow,
};
use super::telemetry::{candidates, common_event, json_i64, recent_params, search_params};
use super::types::{
    corpus_clock, corpus_table, json_u64, AlsoMatched, CheckResult, CodeResult, CommitResult,
    Corpus, DesignDocResult, IndexerCounts, MemoryResult, SessionEdgeResult, Stages, ToolEnvelope, DEEP_SCAN_DEPTH,
    DESIGN_DOC_BODY_CHAR_LIMIT, DESIGN_DOC_TOTAL_BODY_BUDGET, PERF_WINDOW_SECS,
    SOURCE_BODY_CHAR_LIMIT, SOURCE_TOTAL_BODY_BUDGET, SUMMARY_CHAR_LIMIT,
};
use crate::json::{field, JsonNumber, JsonV};
use crate::keys::{increasing, is_map, names, pairs, same_values};
use crate::metrics_sink::MetricsEvent;
use crate::ranking::{arranged, lemma_arranging_keeps_the_items, ranking, strict_order};
use crate::session_index::transcript::slash;
use crate::text::{dec_int, opt_str, trim_end_by, white_space};
use crate::text_laws::law_trimming_leaves_the_core;
use crate::time::rfc3339_text;

verus! {

// ---- Requests ------------------------------------------------------------------------------

/// A request gets ten rows where it does not say, what it asks for from one to fifty, and the
/// nearer of these where it asks for less or more.
pub proof fn law_limits(n: i64)
    ensures
        row_limit(None) == 10,
        1 <= n <= 50 ==> row_limit(Some(n)) == n,
        n < 1 ==> row_limit(Some(n)) == 1,
        n > 50 ==> row_limit(Some(n)) == 50,
{
}

/// A window is thirty days where the request does not say, else what it asks for, and one day
/// at least.
pub proof fn law_windows(n: i64)
    ensures
        day_window(None) == 30,
        n >= 1 ==> day_window(Some(n)) == n,
        n < 1 ==> day_window(Some(n)) == 1,
{
}

/// A filter is applied exactly where there is something in it but white space.
pub proof fn law_a_blank_filter_is_none(f: Seq<char>)
    ensures
        recent_filter(None) is None,
        (exists|k: int| 0 <= k < f.len() && !white_space(#[trigger] f[k])) <==> recent_filter(
            Some(f),
        ) is Some,
        recent_filter(Some(f)) matches Some(s) ==> s == super::fts5::sanitized(f),
{
    law_trimming_leaves_the_core(f);
    if exists|k: int| 0 <= k < f.len() && !white_space(#[trigger] f[k]) {
        let k = choose|k: int| 0 <= k < f.len() && !white_space(#[trigger] f[k]);
        assert(!white_space(f[k]));
    }
}

/// What the figures of the answers are.
pub proof fn law_figures_of_the_answers()
    ensures
        SUMMARY_CHAR_LIMIT == 200,
        DESIGN_DOC_BODY_CHAR_LIMIT == 1200,
        DESIGN_DOC_TOTAL_BODY_BUDGET == 16000,
        SOURCE_BODY_CHAR_LIMIT == 2000,
        SOURCE_TOTAL_BODY_BUDGET == 20000,
        PERF_WINDOW_SECS == 3600,
        DEEP_SCAN_DEPTH == 40,
{
}

// ---- Excerpts ------------------------------------------------------------------------------

proof fn lemma_last_space(s: Seq<char>)
    ensures
        match last_space(s) {
            Some(i) => 0 <= i < s.len() && white_space(s[i]) && forall|k: int|
                i < k < s.len() ==> !white_space(#[trigger] s[k]),
            None => forall|k: int| 0 <= k < s.len() ==> !white_space(#[trigger] s[k]),
        },
    decreases s.len(),
{
    if s.len() > 0 && !white_space(s.last()) {
        lemma_last_space(s.drop_last());
        assert forall|k: int| 0 <= k < s.len() - 1 implies s.drop_last()[k] == #[trigger] s[k] by {}
    }
}

/// A text that fits is its own summary. One that does not is cut to `max` characters, and
/// further back to the last white space among them where that lies past the middle; an
/// ellipsis marks the cut.
pub proof fn law_summaries(body: Seq<char>, max: int, n: int)
    requires
        max >= 0,
    ensures
        body.len() <= max ==> summary(body, max) == body,
        body.len() > max && max / 2 < n < max && white_space(body[n]) && (forall|k: int|
            n < k < max ==> !white_space(#[trigger] body[k])) ==> summary(body, max) == body.take(
            n,
        ).push('…'),
        body.len() > max && (forall|k: int|
            max / 2 < k < max ==> !white_space(#[trigger] body[k])) ==> summary(body, max)
            == body.take(max).push('…'),
{
    if body.len() > max {
        let head = body.take(max);
        lemma_last_space(head);
        assert forall|k: int| 0 <= k < max implies head[k] == #[trigger] body[k] by {}
        if max / 2 < n < max && white_space(body[n]) && (forall|k: int|
            n < k < max ==> !white_space(#[trigger] body[k])) {
            assert(white_space(head[n]));
            let i = last_space(head)->0;
            assert(i == n) by {
                if i > n {
                    assert(!white_space(body[i]));
                }
            }
            assert(head.take(n) =~= body.take(n));
        }
        if forall|k: int| max / 2 < k < max ==> !white_space(#[trigger] body[k]) {
            if let Some(i) = last_space(head) {
                assert(white_space(body[i]));
            }
        }
    }
}

/// A short hash is the first seven characters, or all of them where there are fewer.
pub proof fn law_short_hashes(full: Seq<char>)
    ensures
        short_hash(full).is_prefix_of(full),
        short_hash(full).len() == if full.len() < 7 {
            full.len()
        } else {
            7
        },
{
    assert(short_hash(full) =~= full.subrange(0, short_hash(full).len() as int));
}

/// A column that is missing or empty reads as null; one that holds a document reads as it; and
/// any other text reads as itself.
pub proof fn law_columns(s: Seq<char>, d: JsonV, doc: Option<JsonV>)
    ensures
        column_value(None, doc) == JsonV::Null,
        s.len() == 0 ==> column_value(Some(s), doc) == JsonV::Null,
        s.len() > 0 ==> column_value(Some(s), Some(d)) == d,
        s.len() > 0 ==> column_value(Some(s), None) == JsonV::Str(s),
{
}

/// The rank of a percentile is the whole number nearest to the percentage of the way through
/// the list, the upper one of two that are equally near; 0 is the smallest value, 100 the
/// largest, and what is above counts as 100. An empty list has the percentile 0.
pub proof fn law_percentiles_are_nearest_ranks(sorted: Seq<i64>, percent: int)
    requires
        0 <= percent,
    ensures
        sorted.len() == 0 ==> percentile_of(sorted, percent) == 0,
        sorted.len() > 0 && percent <= 100 ==> ({
            let k = percentile_rank(sorted.len() as int, percent);
            &&& 0 <= k < sorted.len()
            &&& percentile_of(sorted, percent) == sorted[k]
            &&& -50 <= 100 * k - (sorted.len() - 1) * percent
            &&& 100 * k - (sorted.len() - 1) * percent <= 50
            &&& 100 * k - (sorted.len() - 1) * percent != -50
        }),
        sorted.len() > 0 && percent == 0 ==> percentile_of(sorted, percent) == sorted[0],
        sorted.len() > 0 && percent >= 100 ==> percentile_of(sorted, percent) == sorted.last(),
{
    if sorted.len() > 0 {
        let n = sorted.len() as int;
        if percent <= 100 {
            assert(0 <= ((n - 1) * percent + 50) / 100 <= n - 1) by (nonlinear_arith)
                requires
                    n >= 1,
                    0 <= percent <= 100,
            ;
        }
        if percent == 0 {
            assert((n - 1) * percent == 0) by (nonlinear_arith)
                requires
                    percent == 0,
            ;
        }
        if percent >= 100 {
            assert(((n - 1) * 100 + 50) / 100 == n - 1);
        }
    }
}

// ---- Bodies --------------------------------------------------------------------------------

/// While the budget lasts a window that fits its bound is the body, and a longer one is cut;
/// once it is spent there is no body, and the beginning of the window is the excerpt.
pub proof fn law_bodies_and_excerpts(
    snippet: Seq<char>,
    body: Seq<char>,
    spent: int,
    cap: int,
    budget: int,
)
    requires
        cap >= 0,
    ensures
        spent >= budget ==> body_for(snippet, spent, cap, budget).len() == 0,
        spent < budget && snippet.len() <= cap ==> body_for(snippet, spent, cap, budget) == snippet,
        spent < budget && snippet.len() > cap ==> body_for(snippet, spent, cap, budget) == summary(
            snippet,
            cap,
        ),
        body.len() == 0 ==> excerpt_for(body, snippet) == summary(snippet, 200),
        body.len() > 0 ==> excerpt_for(body, snippet).len() == 0,
{
}

/// What is spent is the bodies that were given so far.
pub proof fn law_what_is_spent(
    snippets: Seq<Seq<char>>,
    next: Seq<char>,
    cap: int,
    budget: int,
)
    ensures
        spent_on(Seq::<Seq<char>>::empty(), cap, budget) == 0,
        spent_on(snippets.push(next), cap, budget) == spent_on(snippets, cap, budget) + body_for(
            next,
            spent_on(snippets, cap, budget),
            cap,
            budget,
        ).len(),
{
    assert(snippets.push(next).drop_last() =~= snippets);
}

/// As many rows are shown as there are, up to the limit.
pub proof fn law_as_many_rows_are_shown_as_the_limit_allows(n: nat, limit: i64)
    requires
        limit >= 0,
    ensures
        shown(n, limit) <= n,
        shown(n, limit) <= limit,
        shown(n, limit) == n || shown(n, limit) == limit,
{
}

/// The sizes of answers are those of what they are made of, one by one.
pub proof fn law_sizes_add_up(
    designs: Seq<DesignDocRow>,
    design: DesignDocRow,
    codes: Seq<CodeRow>,
    code: CodeRow,
    memories: Seq<MemoryResult>,
    memory: MemoryResult,
    edges: Seq<SessionEdgeResult>,
    edge: SessionEdgeResult,
    commits: Seq<CommitResult>,
    commit: CommitResult,
)
    ensures
        design_full(Seq::<DesignDocRow>::empty()) == 0,
        code_full(Seq::<CodeRow>::empty()) == 0,
        memory_chars(Seq::<MemoryResult>::empty()) == 0,
        rationale_chars(Seq::<SessionEdgeResult>::empty()) == 0,
        message_chars(Seq::<CommitResult>::empty()) == 0,
        design_full(designs.push(design)) == design_full(designs) + if design.full_chars > 0 {
            design.full_chars as int
        } else {
            0
        },
        code_full(codes.push(code)) == code_full(codes) + if code.full_chars > 0 {
            code.full_chars as int
        } else {
            0
        },
        memory_chars(memories.push(memory)) == memory_chars(memories) + memory.body@.len(),
        rationale_chars(edges.push(edge)) == rationale_chars(edges) + edge.rationale@.len(),
        commit.message_body is None ==> message_chars(commits.push(commit)) == message_chars(
            commits,
        ) + commit.message_summary@.len(),
        commit.message_body matches Some(b) ==> message_chars(commits.push(commit))
            == message_chars(commits) + commit.message_summary@.len() + b@.len(),
{
    assert(designs.push(design).drop_last() =~= designs);
    assert(codes.push(code).drop_last() =~= codes);
    assert(memories.push(memory).drop_last() =~= memories);
    assert(edges.push(edge).drop_last() =~= edges);
    assert(commits.push(commit).drop_last() =~= commits);
}

/// A result of a design document is its row, member by member.
pub proof fn law_design_results_are_their_rows(
    r: DesignDocResult,
    row: DesignDocRow,
    spent: int,
)
    requires
        design_result_of(r, row, spent),
    ensures
        r.doc_path@ == row.doc_path@,
        r.heading_path@ == row.heading_path@,
        r.line_start == row.line_start,
        r.line_end == row.line_end,
        r.match_line == row.match_line,
        r.rank == Some(row.rank),
        r.body@ == body_for(row.snippet@, spent, 1200, 16000),
        r.body@.len() > 0 ==> r.body_excerpt@.len() == 0,
        r.body@.len() == 0 ==> r.body_excerpt@ == summary(row.snippet@, 200),
        r.body_truncated <==> r.body@ != row.snippet@ || r.body@.len() < row.full_chars,
{
}

/// A result of source code is its row, at the place where the chunk stands now.
pub proof fn law_code_results_are_their_rows(r: CodeResult, row: CodeRow, spent: int)
    requires
        code_result_of(r, row, spent),
    ensures
        opt_str(r.repo_path) == opt_str(row.repo_path),
        r.path@ == row.path@,
        r.line_start == row.location.line_start,
        r.line_end == row.location.line_end,
        r.match_line == row.location.match_line,
        r.location@ == row.location.status@,
        r.line_shift == row.location.line_shift,
        opt_str(r.language) == opt_str(row.language),
        opt_str(r.commit_sha) == opt_str(row.commit_sha),
        opt_str(r.commit_summary) == opt_str(row.commit_summary),
        r.rank == Some(row.rank),
        r.body@ == body_for(row.snippet@, spent, 2000, 20000),
        r.body@.len() > 0 ==> r.body_excerpt@.len() == 0,
        r.body@.len() == 0 ==> r.body_excerpt@ == summary(row.snippet@, 200),
        r.body_truncated <==> r.body@ != row.snippet@ || r.body@.len() < row.full_chars,
{
}

/// A path that can be opened begins with its repository, without slashes at the end, goes on
/// with one slash and ends with the path; without a repository it is the path.
pub proof fn law_paths_that_can_be_opened(root: Seq<char>, path: Seq<char>)
    ensures
        openable(None, path) == path,
        openable(Some(root.push('/')), path) == openable(Some(root), path),
        root.len() == 0 || root.last() != '/' ==> openable(Some(root), path) == root.push('/')
            + path,
{
    assert(root.push('/').drop_last() =~= root);
    if root.len() > 0 && root.last() != '/' {
        assert(trim_end_by(root, slash()) == root);
        assert(root + seq!['/'] + path =~= root.push('/') + path);
    }
}

/// The pointers below the window are the paths and lines of its rows.
pub proof fn law_pointers_are_their_rows(
    designs: Seq<DesignDocRow>,
    codes: Seq<CodePointer>,
    i: int,
)
    ensures
        design_pointers(designs).len() == designs.len(),
        code_pointers(codes).len() == codes.len(),
        0 <= i < designs.len() ==> design_pointers(designs)[i] == (
            designs[i].doc_path@,
            designs[i].match_line,
        ),
        0 <= i < codes.len() ==> code_pointers(codes)[i] == (
            openable(opt_str(codes[i].repo_path), codes[i].path@),
            codes[i].match_line,
        ),
{
}

// ---- Sessions and commits --------------------------------------------------------------------

/// A result of a session edge is its row, member by member.
pub proof fn law_edge_results_are_their_rows(
    r: SessionEdgeResult,
    row: SessionEdgeRow,
    rank: Option<u64>,
)
    requires
        edge_result_of(r, row, rank),
    ensures
        r.session_id@ == row.session_id@,
        r.tool@ == row.tool@,
        r.file_path@ == row.file_path@,
        opt_str(r.repo_path) == opt_str(row.repo_path),
        opt_str(r.git_branch) == opt_str(row.git_branch),
        r.edited_at_unix == row.edited_at,
        r.edited_at_iso@ == crate::time::iso_or_count(
            crate::time::rfc3339_text(row.edited_at),
            row.edited_at,
        ),
        r.rationale@ == row.rationale@,
        opt_str(r.commit_hash_full) == opt_str(row.commit_hash_full),
        r.commit_hash is Some <==> row.commit_hash_full is Some,
        row.commit_hash_full matches Some(h) ==> r.commit_hash->0@ == short_hash(h@),
        opt_str(r.commit_summary) == opt_str(row.commit_summary),
        r.rank == rank,
{
}

/// A result of a commit is its row, member by member.
pub proof fn law_commit_results_are_their_rows(
    r: CommitResult,
    row: CommitRow,
    rank: Option<u64>,
)
    requires
        commit_result_of(r, row, rank),
    ensures
        r.commit_hash_full@ == row.commit_hash_full@,
        r.commit_hash@ == short_hash(row.commit_hash_full@),
        r.repo_path@ == row.repo_path@,
        r.authored_at_unix == row.authored_at,
        r.authored_at_iso@ == crate::time::iso_or_count(
            crate::time::rfc3339_text(row.authored_at),
            row.authored_at,
        ),
        opt_str(r.author_email) == opt_str(row.author_email),
        opt_str(r.author_name) == opt_str(row.author_name),
        r.message_summary@ == row.message_summary@,
        opt_str(r.message_body) == opt_str(row.message_body),
        r.is_shallow <==> row.is_shallow is Some && row.is_shallow->0 != 0,
        row.files_changed_json is None ==> r.files_changed@ == JsonV::Null,
        row.files_changed_json matches Some(s) ==> r.files_changed@ == column_value(
            Some(s@),
            crate::json::json_document(s@),
        ),
        row.parent_hashes_json is None ==> r.parent_hashes@ == JsonV::Null,
        row.parent_hashes_json matches Some(s) ==> r.parent_hashes@ == column_value(
            Some(s@),
            crate::json::json_document(s@),
        ),
        r.rank == rank,
{
}

/// A plain envelope is its results, with their number beside the number of all matches.
pub proof fn law_plain_envelopes<T>(
    e: ToolEnvelope<T>,
    results: Seq<T>,
    total: i64,
    tool: Seq<char>,
    broadened: bool,
    full_tokens: int,
)
    requires
        plain_envelope(e, results, total, tool, broadened, full_tokens),
    ensures
        e.results@ == results,
        e.returned == results.len(),
        e.total_matched == total,
        e.tool@ == tool,
        e.query_broadened == broadened,
        e.returned_full_tokens == full_tokens,
        e.corpus_empty is None,
        e.corpus_indexed_through is None,
        e.neighbourhood_terms@.len() == 0,
        e.retrieval_shape is None,
        e.also_matched@.len() == 0,
{
}

// ---- The health report -----------------------------------------------------------------------

/// A share in tenths of a percent is the whole number nearest to it, the upper one of two
/// that are equally near.
pub proof fn law_shares_are_rounded_to_the_nearest(part: int, total: int)
    requires
        0 <= part <= total,
    ensures
        total == 0 ==> share_tenths(part, total) == 0,
        total > 0 ==> -total < 2 * (share_tenths(part, total) * total - 1000 * part) <= total,
        total > 0 && part == total ==> share_tenths(part, total) == 1000,
        total > 0 && part == 0 ==> share_tenths(part, total) == 0,
{
    if total > 0 {
        let q = share_tenths(part, total);
        assert(-total < 2 * (q * total - 1000 * part) <= total) by (nonlinear_arith)
            requires
                q == (2000 * part + total) / (2 * total),
                total > 0,
        ;
        if part == total {
            assert((2000 * total + total) / (2 * total) == 1000) by (nonlinear_arith)
                requires
                    total > 0,
            ;
        }
        if part == 0 {
            assert(total / (2 * total) == 0) by (nonlinear_arith)
                requires
                    total > 0,
            ;
        }
    }
}

/// What has lost its source is counted one by one: a stored number that does not live, a
/// document whose file is gone, a directory that is not there.
pub proof fn law_losses_are_counted_one_by_one(
    stored: Seq<i64>,
    n: i64,
    live: Seq<i64>,
    docs: Seq<(i64, bool)>,
    id: i64,
    present: Seq<bool>,
)
    ensures
        missing_count(Seq::<i64>::empty(), live) == 0,
        live.contains(n) ==> missing_count(stored.push(n), live) == missing_count(stored, live),
        !live.contains(n) ==> missing_count(stored.push(n), live) == missing_count(stored, live)
            + 1,
        gone(Seq::<(i64, bool)>::empty()) == Seq::<i64>::empty(),
        gone(docs.push((id, true))) == gone(docs),
        gone(docs.push((id, false))) == gone(docs).push(id),
        refusals(Seq::<bool>::empty()) == 0,
        refusals(present.push(true)) == refusals(present),
        refusals(present.push(false)) == refusals(present) + 1,
{
    assert(stored.push(n).drop_last() =~= stored);
    assert(docs.push((id, true)).drop_last() =~= docs);
    assert(docs.push((id, false)).drop_last() =~= docs);
    assert(present.push(true).drop_last() =~= present);
    assert(present.push(false).drop_last() =~= present);
}

/// The durations of an operation are those of its rows, in order.
pub proof fn law_durations_go_with_their_operation(
    rows: Seq<(Seq<char>, i64)>,
    op: Seq<char>,
    other: Seq<char>,
    ms: i64,
)
    requires
        other != op,
    ensures
        durations_of(Seq::<(Seq<char>, i64)>::empty(), op) == Seq::<i64>::empty(),
        durations_of(rows.push((op, ms)), op) == durations_of(rows, op).push(ms),
        durations_of(rows.push((other, ms)), op) == durations_of(rows, op),
{
    assert(rows.push((op, ms)).drop_last() =~= rows);
    assert(rows.push((other, ms)).drop_last() =~= rows);
}

/// Sorting keeps the values, each as often as it occurs, and puts the smaller first.
pub proof fn law_sorting_keeps_the_values(v: Seq<i64>)
    ensures
        ascending(v).to_multiset() == v.to_multiset(),
        ascending(v).len() == v.len(),
        forall|a: int, b: int| 0 <= a < b < ascending(v).len() ==> ascending(v)[a] <= ascending(
            v,
        )[b],
{
    let n = v.len() as int;
    assert(strict_order(n, smaller(v)));
    lemma_arranging_keeps_the_items(v, smaller(v));
    let order = ranking(n, smaller(v));
    assert(ascending(v) =~= arranged(v, order));
    assert forall|a: int, b: int| 0 <= a < b < ascending(v).len() implies ascending(v)[a]
        <= ascending(v)[b] by {
        assert(smaller(v)(order[a], order[b]));
    }
}

/// A table of percentiles has one line for each operation that was measured, in the order of
/// their names, with the percentile of its own durations.
pub proof fn law_tables_of_percentiles(
    table: Seq<(Seq<char>, i64)>,
    rows: Seq<(Seq<char>, i64)>,
    percent: int,
    i: int,
    k: int,
)
    requires
        percentile_table(table, rows, percent),
    ensures
        increasing(names(table)),
        0 <= k < rows.len() ==> names(table).contains(rows[k].0),
        0 <= i < table.len() ==> names(rows).contains(table[i].0) && table[i].1 == percentile_of(
            ascending(durations_of(rows, table[i].0)),
            percent,
        ),
{
    if 0 <= k < rows.len() {
        assert(names(rows)[k] == rows[k].0);
        assert(names(rows).contains(rows[k].0));
    }
    if 0 <= i < table.len() {
        assert(names(table)[i] == table[i].0);
        assert(names(table).contains(table[i].0));
    }
}

/// The tables that the tools read and the counts of which they tell.
pub proof fn law_tables_by_name()
    ensures
        orphan_table(OrphanChild::Memory) == "memory_entries"@,
        orphan_table(OrphanChild::DesignSection) == "design_doc_sections"@,
        orphan_table(OrphanChild::SourceChunk) == "source_chunks"@,
        corpus_table(Corpus::SessionEdges) == "session_edges"@,
        corpus_table(Corpus::CommitEntries) == "commit_entries"@,
        corpus_table(Corpus::DesignDocSections) == "design_doc_sections"@,
        corpus_table(Corpus::MemoryEntries) == "memory_entries"@,
        corpus_table(Corpus::SourceChunks) == "source_chunks"@,
        corpus_clock(Corpus::SessionEdges) == "edited_at) FROM session_edges"@,
        corpus_clock(Corpus::CommitEntries) == "committed_at) FROM commit_entries"@,
        corpus_clock(Corpus::DesignDocSections)
            == "mtime) FROM documents WHERE kind = 'design_doc'"@,
        corpus_clock(Corpus::MemoryEntries) == "mtime) FROM documents WHERE kind = 'memory'"@,
        corpus_clock(Corpus::SourceChunks) == "mtime) FROM documents WHERE kind = 'source'"@,
{
}

// ---- What is recorded ------------------------------------------------------------------------

proof fn lemma_telemetry_names()
    ensures
        "filter_set"@.len() == 10,
        "repo_set"@.len() == 8,
        "days"@.len() == 4,
        "limit_requested"@.len() == 15,
        "query_len"@.len() == 9,
        "fts5"@ != "after_rank"@,
{
    reveal_strlit("filter_set");
    reveal_strlit("repo_set");
    reveal_strlit("days");
    reveal_strlit("limit_requested");
    reveal_strlit("query_len");
    reveal_strlit("fts5");
    reveal_strlit("after_rank");
    assert("fts5"@.len() == 4 && "after_rank"@.len() == 10);
}

/// The number of a document.
pub open spec fn number_json(n: i64) -> JsonV {
    if n >= 0 {
        JsonV::Num(JsonNumber::Unsigned(n as u64))
    } else {
        JsonV::Num(JsonNumber::Negative(n))
    }
}

/// The recorded parameters of a listing, read back: whether there were a filter and a
/// repository, the window, thirty days where none was asked for, and the limit as it was
/// asked for. Nothing is recorded of a repository for a tool that takes none.
pub proof fn law_recorded_listings_read_back(
    filter_set: bool,
    repo_set: Option<bool>,
    days: Option<i64>,
    limit: Option<i64>,
)
    ensures
        ({
            let p = recent_params(filter_set, repo_set, days, limit);
            &&& field(p, "filter_set"@) == Some(JsonV::Bool(filter_set))
            &&& repo_set is None ==> field(p, "repo_set"@) is None
            &&& repo_set matches Some(b) ==> field(p, "repo_set"@) == Some(JsonV::Bool(b))
            &&& days is None ==> field(p, "days"@) == Some(number_json(30))
            &&& days matches Some(n) ==> field(p, "days"@) == Some(number_json(n))
            &&& limit is None ==> field(p, "limit_requested"@) == Some(JsonV::Null)
            &&& limit matches Some(n) ==> field(p, "limit_requested"@) == Some(number_json(n))
        }),
{
    lemma_telemetry_names();
    let p = recent_params(filter_set, repo_set, days, limit);
    let o = p->Obj_0;
    reveal_with_fuel(crate::json::lookup, 6);
    assert(o[0].0 == "filter_set"@);
    match repo_set {
        Some(b) => {
            assert(o.len() == 4);
            assert(o[1] == ("repo_set"@, JsonV::Bool(b)));
            assert(o[2].0 == "days"@ && o[3].0 == "limit_requested"@);
            assert(o.drop_first()[0] == o[1]);
            assert(o.drop_first().drop_first()[0] == o[2]);
            assert(o.drop_first().drop_first().drop_first()[0] == o[3]);
        },
        None => {
            assert(o.len() == 3);
            assert(o[1].0 == "days"@ && o[2].0 == "limit_requested"@);
            assert(o.drop_first()[0] == o[1]);
            assert(o.drop_first().drop_first()[0] == o[2]);
            assert(o.drop_first().drop_first().drop_first().len() == 0);
        },
    }
}

/// The recorded parameters of a search, read back: the length of the query in bytes, whether
/// there was a repository, and the limit as it was asked for.
pub proof fn law_recorded_searches_read_back(
    query: Seq<char>,
    repo_set: Option<bool>,
    limit: Option<i64>,
)
    ensures
        ({
            let p = search_params(query, repo_set, limit);
            &&& field(p, "query_len"@) == Some(
                JsonV::Num(
                    JsonNumber::Unsigned(vstd::utf8::encode_utf8(query).len() as u64),
                ),
            )
            &&& repo_set is None ==> field(p, "repo_set"@) is None
            &&& repo_set matches Some(b) ==> field(p, "repo_set"@) == Some(JsonV::Bool(b))
            &&& limit is None ==> field(p, "limit_requested"@) == Some(JsonV::Null)
            &&& limit matches Some(n) ==> field(p, "limit_requested"@) == Some(number_json(n))
        }),
{
    lemma_telemetry_names();
    let p = search_params(query, repo_set, limit);
    let o = p->Obj_0;
    reveal_with_fuel(crate::json::lookup, 5);
    assert(o[0].0 == "query_len"@);
    match repo_set {
        Some(b) => {
            assert(o.len() == 3);
            assert(o[1] == ("repo_set"@, JsonV::Bool(b)));
            assert(o[2].0 == "limit_requested"@);
            assert(o.drop_first()[0] == o[1]);
            assert(o.drop_first().drop_first()[0] == o[2]);
        },
        None => {
            assert(o.len() == 2);
            assert(o[1].0 == "limit_requested"@);
            assert(o.drop_first()[0] == o[1]);
            assert(o.drop_first().drop_first().len() == 0);
        },
    }
}

/// The recorded candidates, read back: how many matched, and how many were returned.
pub proof fn law_recorded_candidates_read_back(matched: i64, returned: i64)
    ensures
        field(candidates(matched, returned), "fts5"@) == Some(number_json(matched)),
        field(candidates(matched, returned), "after_rank"@) == Some(number_json(returned)),
        json_i64(matched) == number_json(matched),
        json_u64(matched as u64) == JsonV::Num(JsonNumber::Unsigned(matched as u64)),
{
    lemma_telemetry_names();
    let o = candidates(matched, returned)->Obj_0;
    reveal_with_fuel(crate::json::lookup, 3);
    assert(o[0].0 == "fts5"@);
    assert(o.drop_first()[0] == ("after_rank"@, json_i64(returned)));
}

/// What every event says of its call.
pub proof fn law_events_say_what_was_called(
    e: MetricsEvent,
    ts: Seq<char>,
    tool: Seq<char>,
    query: Option<Seq<char>>,
    params: JsonV,
    stages: Stages,
    wall_ms: u64,
    uptime_s: u64,
)
    requires
        common_event(e, ts, tool, query, params, stages, wall_ms, uptime_s),
    ensures
        e.schema_version == 1,
        e.ts@ == ts,
        e.tool@ == tool,
        opt_str(e.query) == query,
        e.params@ == params,
        e.wall_ms == wall_ms,
        e.daemon_uptime_s == uptime_s,
        e.cache_hit is None,
        e.calibration_confidence@ == "estimated"@,
        e.stages_ms@ is Obj,
        e.stages_ms@->Obj_0 == seq![
            ("fts5_query"@, JsonV::Num(JsonNumber::Unsigned(stages.fts5_query_ms))),
            ("rank"@, JsonV::Num(JsonNumber::Unsigned(stages.rank_ms))),
            ("join"@, JsonV::Num(JsonNumber::Unsigned(stages.join_ms))),
            ("shape_response"@, JsonV::Num(JsonNumber::Unsigned(stages.shape_response_ms))),
        ],
{
}

// ---- Rows as they are ----------------------------------------------------------------------

/// The rows of an answer are listed in their order: of a section its excerpt and the path of
/// its document, of a chunk its excerpt and the path under which it can be opened.
pub proof fn law_rows_are_listed_in_order(d: Seq<DesignDocRow>, c: Seq<CodeRow>, i: int)
    ensures
        design_snippets(d).len() == d.len() && design_paths(d).len() == d.len(),
        0 <= i < d.len() ==> design_snippets(d)[i] == d[i].snippet@ && design_paths(d)[i]
            == d[i].doc_path@,
        code_snippets(c).len() == c.len() && code_paths(c).len() == c.len(),
        0 <= i < c.len() ==> code_snippets(c)[i] == c[i].snippet@,
        0 <= i < c.len() && c[i].repo_path is None ==> code_paths(c)[i] == openable(
            None,
            c[i].path@,
        ),
        0 <= i < c.len() && c[i].repo_path is Some ==> code_paths(c)[i] == openable(
            Some(c[i].repo_path->0@),
            c[i].path@,
        ),
{
}

/// What is found with or beside a search is seen as it is.
pub proof fn law_findings_are_seen_as_they_are(a: AlsoMatched, m: MatchCount)
    ensures
        a@.path == a.path@,
        a@.match_line == a.match_line,
        a@.matches == a.matches,
        m@.query == m.query@,
        m@.total == m.total,
        m@.broadened == m.broadened,
{
}

/// Counts that say the same agree in every figure and name by name in their documents.
pub proof fn law_counts_that_say_the_same(a: IndexerCounts, b: IndexerCounts)
    requires
        same_counts(a, b),
    ensures
        same_values(pairs(a.documents@), pairs(b.documents@)),
        a.session_entries == b.session_entries,
        a.session_edges == b.session_edges,
        a.memory_entries == b.memory_entries,
        a.design_doc_sections == b.design_doc_sections,
        a.source_chunks == b.source_chunks,
        a.commit_entries == b.commit_entries,
        a.indexed_repos == b.indexed_repos,
        a.search_index_total == b.search_index_total,
{
}

/// The tables of an ordered report are maps.
pub proof fn law_ordered_reports_are_maps(c: CheckResult)
    requires
        c.is_ordered(),
    ensures
        is_map(c.indexer.documents@),
        is_map(c.perf_p50_ms@),
        is_map(c.perf_p95_ms@),
        is_map(c.extractors_last_run_ms@),
        c.cost_savings matches Some(l) ==> l.is_ordered(),
{
}

/// A time is shown as RFC 3339 has it, and by its number behind `@` where it has no such text.
pub proof fn law_shown_times(unix: i64)
    ensures
        rfc3339_text(unix) is Some ==> shown_time(unix) == rfc3339_text(unix)->0,
        rfc3339_text(unix) is None ==> shown_time(unix) == seq!['@'] + dec_int(unix as int),
{
}

} // verus!

//! What holds of an export, stated of the lines of the stream and of the report itself.
use vstd::prelude::*;

use super::{
    bucket, bucketed, exported, first_bad_line, label_pairs, legend, legend_view, safe_entries,
    safe_key, scrubbed, snapshot_of, unsafe_names, uses_operators, window_of, ExportRow,
    ExportRows, ExportSnapshot, ExportV, ExportWindow, LegendEntry, EARLIEST_SECOND,
    FORMAT_VERSION,
};
use crate::cost_ledger::CostSavingsWindow;
use crate::json::{field, json_document, str_of, JsonV};
use crate::keys::pairs;
use crate::mcp::types::CheckResult;
use crate::text::{trimmed, words};
use crate::time::{rfc3339_moment, Moment};

verus! {

// ---- Buckets -------------------------------------------------------------------------------

/// A count is handed over by the bucket that it lies in: none or less, one, and then from
/// power of two to power of two, the buckets wider at the top.
pub proof fn law_counts_lie_in_their_buckets(n: int)
    ensures
        n <= 0 ==> bucket(n) == "0"@,
        n == 1 ==> bucket(n) == "1"@,
        2 <= n <= 3 ==> bucket(n) == "2-3"@,
        4 <= n <= 7 ==> bucket(n) == "4-7"@,
        8 <= n <= 15 ==> bucket(n) == "8-15"@,
        16 <= n <= 31 ==> bucket(n) == "16-31"@,
        32 <= n <= 63 ==> bucket(n) == "32-63"@,
        64 <= n <= 127 ==> bucket(n) == "64-127"@,
        128 <= n <= 255 ==> bucket(n) == "128-255"@,
        256 <= n <= 511 ==> bucket(n) == "256-511"@,
        512 <= n <= 1023 ==> bucket(n) == "512-1023"@,
        1024 <= n <= 4095 ==> bucket(n) == "1024-4095"@,
        4096 <= n <= 16383 ==> bucket(n) == "4096-16383"@,
        16384 <= n <= 65535 ==> bucket(n) == "16384-65535"@,
        65536 <= n ==> bucket(n) == "65536+"@,
{
}

/// A query uses operators exactly where one of seven characters stands in it, or one of the
/// words `OR`, `NOT`, `NEAR`, or a word that begins with `NEAR/`.
pub proof fn law_which_queries_use_operators(query: Seq<char>)
    ensures
        uses_operators(query) <==> (exists|i: int|
            0 <= i < query.len() && (#[trigger] query[i] == '"' || query[i] == '*' || query[i]
                == '+' || query[i] == '-' || query[i] == ':' || query[i] == '(' || query[i] == ')'))
            || (exists|i: int|
            0 <= i < words(query).len() && (#[trigger] words(query)[i] == "OR"@ || words(query)[i]
                == "NOT"@ || words(query)[i] == "NEAR"@ || "NEAR/"@.is_prefix_of(
                words(query)[i],
            ))),
{
    if uses_operators(query) {
        if exists|i: int| 0 <= i < query.len() && super::operator_char(#[trigger] query[i]) {
            let i = choose|i: int| 0 <= i < query.len() && super::operator_char(#[trigger] query[i]);
            assert(query[i] == '"' || query[i] == '*' || query[i] == '+' || query[i] == '-'
                || query[i] == ':' || query[i] == '(' || query[i] == ')');
        } else {
            let i = choose|i: int|
                0 <= i < words(query).len() && super::operator_word(#[trigger] words(query)[i]);
            assert(words(query)[i] == "OR"@ || words(query)[i] == "NOT"@ || words(query)[i]
                == "NEAR"@ || "NEAR/"@.is_prefix_of(words(query)[i]));
        }
    }
    if exists|i: int|
        0 <= i < query.len() && (#[trigger] query[i] == '"' || query[i] == '*' || query[i] == '+'
            || query[i] == '-' || query[i] == ':' || query[i] == '(' || query[i] == ')') {
        let i = choose|i: int|
            0 <= i < query.len() && (#[trigger] query[i] == '"' || query[i] == '*' || query[i]
                == '+' || query[i] == '-' || query[i] == ':' || query[i] == '(' || query[i] == ')');
        assert(super::operator_char(query[i]));
    }
    if exists|i: int|
        0 <= i < words(query).len() && (#[trigger] words(query)[i] == "OR"@ || words(query)[i]
            == "NOT"@ || words(query)[i] == "NEAR"@ || "NEAR/"@.is_prefix_of(words(query)[i])) {
        let i = choose|i: int|
            0 <= i < words(query).len() && (#[trigger] words(query)[i] == "OR"@ || words(query)[i]
                == "NOT"@ || words(query)[i] == "NEAR"@ || "NEAR/"@.is_prefix_of(
                words(query)[i],
            ));
        assert(super::operator_word(words(query)[i]));
    }
}

/// A name is safe exactly where it has from one to 64 characters, each a lower-case letter, a
/// digit, an underscore or a full stop.
pub proof fn law_which_names_are_safe(k: Seq<char>)
    ensures
        safe_key(k) <==> 1 <= k.len() <= 64 && forall|i: int|
            0 <= i < k.len() ==> ('a' <= #[trigger] k[i] && k[i] <= 'z') || ('0' <= k[i] && k[i]
                <= '9') || k[i] == '_' || k[i] == '.',
{
    if 1 <= k.len() <= 64 && forall|i: int|
        0 <= i < k.len() ==> ('a' <= #[trigger] k[i] && k[i] <= 'z') || ('0' <= k[i] && k[i] <= '9')
            || k[i] == '_' || k[i] == '.' {
        assert forall|i: int| 0 <= i < k.len() implies super::safe_char(#[trigger] k[i]) by {
            assert(('a' <= k[i] && k[i] <= 'z') || ('0' <= k[i] && k[i] <= '9') || k[i] == '_'
                || k[i] == '.');
        }
    }
    if safe_key(k) {
        assert forall|i: int| 0 <= i < k.len() implies ('a' <= #[trigger] k[i] && k[i] <= 'z') || (
        '0' <= k[i] && k[i] <= '9') || k[i] == '_' || k[i] == '.' by {
            assert(super::safe_char(k[i]));
        }
    }
}

/// The entries of a table are kept one by one, in order, by their names.
pub proof fn law_entries_are_kept_by_their_names(
    m: Seq<(Seq<char>, i64)>,
    name: Seq<char>,
    n: i64,
)
    ensures
        safe_entries(Seq::<(Seq<char>, i64)>::empty()) == Seq::<(Seq<char>, i64)>::empty(),
        safe_key(name) ==> safe_entries(m.push((name, n))) == safe_entries(m).push((name, n)),
        !safe_key(name) ==> safe_entries(m.push((name, n))) == safe_entries(m),
{
    assert(m.push((name, n)).drop_last() =~= m);
}

// ---- The stream ----------------------------------------------------------------------------

/// The time of a row, if it says one that can be read.
pub open spec fn time_of(doc: JsonV) -> Option<Moment> {
    match str_of(field(doc, "ts"@)) {
        Some(t) => rfc3339_moment(t),
        None => None,
    }
}

/// A row lies before the window.
pub open spec fn before_the_window(doc: JsonV, cutoff: Option<Moment>) -> bool {
    cutoff matches Some(c) && time_of(doc) matches Some(m) && (m.secs < c.secs || (m.secs == c.secs
        && m.nanos < c.nanos))
}

/// What one line more of the stream adds. A blank line adds nothing; a line without a document
/// spoils the stream, and a spoilt stream stays so; a row before the window is only counted;
/// and any other row is handed over scrubbed, counted, and counted again where there is a
/// window and it has no time, where it failed, and where it carries a loss.
pub proof fn law_what_one_line_of_the_stream_adds(
    lines: Seq<Seq<char>>,
    line: Seq<char>,
    cutoff: Option<Moment>,
)
    ensures
        ({
            let e = exported(lines, cutoff);
            let f = exported(lines.push(line), cutoff);
            let doc = json_document(trimmed(line));
            &&& e is None ==> f is None
            &&& e is Some && trimmed(line).len() == 0 ==> f == e
            &&& e is Some && trimmed(line).len() > 0 && doc is None ==> f is None
            &&& e is Some && trimmed(line).len() > 0 && doc is Some ==> {
                let row = scrubbed(doc->0);
                let failed = row.outcome == Some("error"@) || row.error_kind is Some;
                let loss = row.tokens_saved_p50 is Some && row.tokens_saved_p50->0 < 0;
                &&& f is Some
                &&& f->0.rows_total == e->0.rows_total + 1
                &&& before_the_window(doc->0, cutoff) ==> f->0 == (ExportV {
                    rows_total: e->0.rows_total + 1,
                    ..e->0
                })
                &&& !before_the_window(doc->0, cutoff) ==> {
                    &&& f->0.calls == e->0.calls.push(row)
                    &&& f->0.rows_unparseable_ts == e->0.rows_unparseable_ts + if cutoff is Some
                        && time_of(doc->0) is None {
                        1nat
                    } else {
                        0
                    }
                    &&& f->0.error_rows == e->0.error_rows + if failed {
                        1nat
                    } else {
                        0
                    }
                    &&& f->0.loss_rows == e->0.loss_rows + if loss {
                        1nat
                    } else {
                        0
                    }
                }
            }
        }),
{
    assert(lines.push(line).drop_last() =~= lines);
}

/// An empty stream is an export without rows.
pub proof fn law_an_empty_stream_is_an_empty_export(cutoff: Option<Moment>)
    ensures
        exported(Seq::<Seq<char>>::empty(), cutoff) matches Some(e) && e.calls.len() == 0
            && e.rows_total == 0 && e.rows_unparseable_ts == 0 && e.error_rows == 0 && e.loss_rows
            == 0,
        FORMAT_VERSION == 1,
        EARLIEST_SECOND == -8334601228800,
{
}

/// A scrubbed row says what it holds.
pub proof fn law_rows_are_seen_as_they_are(r: ExportRow)
    ensures
        r@.schema_version == r.schema_version,
        r@.tool == r.tool@,
        r@.query_shape is Some <==> r.query_shape is Some,
        r.query_shape matches Some(s) ==> r@.query_shape->0.term_count == s.term_count@
            && r@.query_shape->0.length_bucket == s.length_bucket@
            && r@.query_shape->0.had_fts5_operators == s.had_fts5_operators
            && r@.query_shape->0.and_matched_zero == s.and_matched_zero,
        r@.params == r.params,
        r@.wall_ms == r.wall_ms,
        r@.stages_ms == r.stages_ms,
        r@.candidate_count == r.candidate_count,
        r@.result_token_estimate == r.result_token_estimate,
        r@.cache_hit == r.cache_hit,
        r@.daemon_uptime_s == r.daemon_uptime_s,
        r@.calibration_confidence == r.calibration_confidence@,
        r@.counterfactual_tokens_p50 == r.counterfactual_tokens_p50,
        r@.counterfactual_tokens_p95 == r.counterfactual_tokens_p95,
        r@.tokens_saved_p50 == r.tokens_saved_p50,
        r@.dollars_saved_p50_usd == r.dollars_saved_p50_usd,
        r@.counterfactual_wall_ms_p50 == r.counterfactual_wall_ms_p50,
        r@.query_broadened == r.query_broadened,
        r@.returned_full_tokens == r.returned_full_tokens,
        r.calibration_model_version matches Some(v) ==> r@.calibration_model_version == Some(v@),
        r.outcome matches Some(v) ==> r@.outcome == Some(v@),
        r.error matches Some(v) ==> r@.error_kind == Some(v.kind@),
        r.error is None ==> r@.error_kind is None,
{
}

/// An export and its legend are seen as they are.
pub proof fn law_exports_are_seen_as_they_are(e: ExportRows, l: Seq<LegendEntry>, i: int)
    ensures
        e@.calls.len() == e.calls@.len(),
        0 <= i < e.calls@.len() ==> e@.calls[i] == e.calls@[i]@,
        e@.rows_total == e.rows_total,
        e@.rows_unparseable_ts == e.rows_unparseable_ts,
        e@.error_rows == e.error_rows,
        e@.loss_rows == e.loss_rows,
        legend_view(l).len() == l.len(),
        0 <= i < l.len() ==> legend_view(l)[i] == (
            l[i].key@,
            l[i].what@,
            l[i].units@,
            l[i].confidence@,
        ),
{
}

// ---- The report ----------------------------------------------------------------------------

/// A scrubbed report says what the report says: versions and durations as they are, counts by
/// their buckets, lists of paths by their lengths; and of the watcher only its counters.
pub proof fn law_reports_are_scrubbed_member_by_member(s: ExportSnapshot, c: CheckResult)
    requires
        snapshot_of(s, c),
    ensures
        s.schema_version == c.schema_version,
        s.daemon_uptime_s == c.daemon_uptime_s,
        s.indexer.session_entries@ == bucket(c.indexer.session_entries as int),
        s.indexer.memory_entries@ == bucket(c.indexer.memory_entries as int),
        s.indexer.design_doc_sections@ == bucket(c.indexer.design_doc_sections as int),
        s.indexer.source_chunks@ == bucket(c.indexer.source_chunks as int),
        s.indexer.commit_entries@ == bucket(c.indexer.commit_entries as int),
        s.indexer.indexed_repos@ == bucket(c.indexer.indexed_repos as int),
        s.indexer.search_index_total@ == bucket(c.indexer.search_index_total as int),
        s.orphans.session_entries@ == bucket(c.orphans.session_entries as int),
        s.orphans.memory_entries@ == bucket(c.orphans.memory_entries as int),
        s.orphans.design_doc_sections@ == bucket(c.orphans.design_doc_sections as int),
        s.orphans.indexed_repos@ == bucket(c.orphans.indexed_repos as int),
        s.shallow_repo_count == c.shallow_repos@.len(),
        pairs(s.perf_p50_ms@) == safe_entries(pairs(c.perf_p50_ms@)),
        pairs(s.perf_p95_ms@) == safe_entries(pairs(c.perf_p95_ms@)),
        pairs(s.extractors_last_run_ms@) == safe_entries(pairs(c.extractors_last_run_ms@)),
        s.indexer.documents@.len() == safe_entries(pairs(c.indexer.documents@)).len(),
        forall|i: int|
            0 <= i < s.indexer.documents@.len() ==> (#[trigger] s.indexer.documents@[i]).0@
                == safe_entries(pairs(c.indexer.documents@))[i].0 && s.indexer.documents@[i].1@
                == bucket(safe_entries(pairs(c.indexer.documents@))[i].1 as int),
        s.file_watcher is Some <==> c.file_watcher is Some,
        c.file_watcher matches Some(w) ==> s.file_watcher->0.events_total == w.events_total
            && s.file_watcher->0.events_coalesced_total == w.events_coalesced_total
            && s.file_watcher->0.subscription_count == w.subscriptions@.len() as usize,
        s.cost_savings is Some <==> c.cost_savings is Some,
        c.cost_savings matches Some(l) ==> s.cost_savings->0.calibration_model_version@
            == l.calibration_model_version@ && window_of(s.cost_savings->0.window_1d, l.window_1d)
            && window_of(s.cost_savings->0.window_7d, l.window_7d) && window_of(
            s.cost_savings->0.window_30d,
            l.window_30d,
        ),
{
    assert(label_pairs(s.indexer.documents@) == bucketed(
        safe_entries(pairs(c.indexer.documents@)),
    ));
    assert(label_pairs(s.indexer.documents@).len() == s.indexer.documents@.len());
    assert forall|i: int| 0 <= i < s.indexer.documents@.len() implies (
    #[trigger] s.indexer.documents@[i]).0@ == safe_entries(pairs(c.indexer.documents@))[i].0
        && s.indexer.documents@[i].1@ == bucket(
        safe_entries(pairs(c.indexer.documents@))[i].1 as int,
    ) by {
        assert(label_pairs(s.indexer.documents@)[i] == (
            s.indexer.documents@[i].0@,
            s.indexer.documents@[i].1@,
        ));
    }
}

/// The savings of a window are handed over as they are, tool by tool.
pub proof fn law_windows_are_handed_over_as_they_are(
    w: ExportWindow,
    c: CostSavingsWindow,
    i: int,
)
    requires
        window_of(w, c),
    ensures
        w.queries_served == c.queries_served,
        w.tokens_returned == c.tokens_returned,
        w.counterfactual_tokens_p50 == c.counterfactual_tokens_p50,
        w.tokens_saved_p50 == c.tokens_saved_p50,
        w.dollars_saved_p50_usd == c.dollars_saved_p50_usd,
        w.per_tool@.len() == c.per_tool@.len(),
        0 <= i < c.per_tool@.len() ==> w.per_tool@[i].0@ == c.per_tool@[i].0@
            && w.per_tool@[i].1.queries == c.per_tool@[i].1.queries
            && w.per_tool@[i].1.tokens_saved_p50 == c.per_tool@[i].1.tokens_saved_p50
            && w.per_tool@[i].1.dollars_saved_p50_usd == c.per_tool@[i].1.dollars_saved_p50_usd,
{
}

// ---- Bad lines -----------------------------------------------------------------------------

/// A line is blank or holds a document.
pub open spec fn readable(line: Seq<char>) -> bool {
    trimmed(line).len() == 0 || json_document(trimmed(line)) is Some
}

/// A stream is exported exactly where every line of it is blank or holds a document.
pub proof fn law_which_streams_are_exported(lines: Seq<Seq<char>>, cutoff: Option<Moment>)
    ensures
        exported(lines, cutoff) is Some <==> forall|i: int|
            0 <= i < lines.len() ==> readable(#[trigger] lines[i]),
    decreases lines.len(),
{
    if lines.len() > 0 {
        let init = lines.drop_last();
        law_which_streams_are_exported(init, cutoff);
        assert forall|i: int| 0 <= i < init.len() implies init[i] == #[trigger] lines[i] by {}
        if forall|i: int| 0 <= i < lines.len() ==> readable(#[trigger] lines[i]) {
            assert forall|i: int| 0 <= i < init.len() implies readable(#[trigger] init[i]) by {
                assert(readable(lines[i]));
            }
            assert(readable(lines[lines.len() - 1]));
        }
        if exported(lines, cutoff) is Some {
            assert forall|i: int| 0 <= i < lines.len() implies readable(#[trigger] lines[i]) by {
                if i < init.len() {
                    assert(readable(init[i]));
                }
            }
        }
    }
}

/// The bad line that is told is a line of the stream without the white space around it; it
/// cannot be read, and every line before it can.
pub proof fn law_the_first_bad_line_is_told(
    lines: Seq<Seq<char>>,
    cutoff: Option<Moment>,
    line: Seq<char>,
)
    requires
        first_bad_line(lines, cutoff, line),
    ensures
        exists|i: int|
            0 <= i < lines.len() && line == trimmed(#[trigger] lines[i]) && !readable(lines[i])
                && forall|j: int| 0 <= j < i ==> readable(#[trigger] lines[j]),
{
    let i = choose|i: int|
        0 <= i < lines.len() && line == trimmed(#[trigger] lines[i]) && exported(
            lines.take(i),
            cutoff,
        ) is Some;
    law_which_streams_are_exported(lines.take(i), cutoff);
    assert forall|j: int| 0 <= j < i implies readable(#[trigger] lines[j]) by {
        assert(lines.take(i)[j] == lines[j]);
    }
    assert(!readable(lines[i]));
}

/// The names that are left out are counted: with those that are kept they are all the names
/// of the four tables.
pub proof fn law_unsafe_names_are_counted(c: CheckResult)
    ensures
        unsafe_names(c) + safe_entries(pairs(c.indexer.documents@)).len() + safe_entries(
            pairs(c.perf_p50_ms@),
        ).len() + safe_entries(pairs(c.perf_p95_ms@)).len() + safe_entries(
            pairs(c.extractors_last_run_ms@),
        ).len() == c.indexer.documents@.len() + c.perf_p50_ms@.len() + c.perf_p95_ms@.len()
            + c.extractors_last_run_ms@.len(),
{
}

/// The legend explains, in this order, the figures of the report and those of the calls; each
/// is measured, derived or estimated, and what the model says is estimated.
pub proof fn law_the_legend(i: int)
    ensures
        legend().len() == 20,
        0 <= i < 20 ==> (legend()[i].3 == "measured"@ || legend()[i].3 == "derived"@
            || legend()[i].3 == "estimated"@),
        0 <= i < 20 ==> (legend()[i].3 == "estimated"@ <==> i == 15 || i == 16 || i == 17 || i
            == 19),
        legend()[0].0 == "snapshot.daemon_uptime_s"@ && legend()[0].2 == "s"@,
        legend()[1].0 == "snapshot.indexer.*"@ && legend()[1].2 == "bucket"@,
        legend()[2].0 == "snapshot.orphans.*"@ && legend()[2].2 == "bucket"@,
        legend()[3].0 == "snapshot.shallow_repo_count"@ && legend()[3].2 == "count"@,
        legend()[4].0 == "snapshot.file_watcher.subscription_count"@ && legend()[4].2 == "count"@,
        legend()[5].0 == "calls[].query_shape.term_count"@ && legend()[5].2 == "bucket"@,
        legend()[6].0 == "calls[].query_shape.length_bucket"@ && legend()[6].2 == "bucket"@,
        legend()[7].0 == "calls[].query_shape.had_fts5_operators"@ && legend()[7].2 == "bool"@,
        legend()[8].0 == "calls[].query_shape.and_matched_zero"@ && legend()[8].2 == "bool"@,
        legend()[9].0 == "calls[].query_broadened"@ && legend()[9].2 == "bool"@,
        legend()[10].0 == "calls[].wall_ms"@ && legend()[10].2 == "ms"@,
        legend()[11].0 == "calls[].stages_ms"@ && legend()[11].2 == "ms"@,
        legend()[12].0 == "calls[].candidate_count"@ && legend()[12].2 == "count"@,
        legend()[13].0 == "calls[].result_token_estimate"@ && legend()[13].2 == "tokens"@,
        legend()[14].0 == "calls[].returned_full_tokens"@ && legend()[14].2 == "tokens"@,
        legend()[15].0 == "calls[].counterfactual_tokens_p50"@ && legend()[15].2 == "tokens"@,
        legend()[16].0 == "calls[].tokens_saved_p50"@ && legend()[16].2 == "tokens"@,
        legend()[17].0 == "calls[].dollars_saved_p50_usd"@ && legend()[17].2 == "usd"@,
        legend()[18].0 == "calls[].error.kind"@ && legend()[18].2 == "enum"@,
        legend()[19].0 == "snapshot.cost_savings.*.tokens_saved_p50"@ && legend()[19].2
            == "tokens"@,
{
    reveal_strlit("measured");
    reveal_strlit("derived");
    reveal_strlit("estimated");
    assert("measured"@[0] == 'm' && "derived"@[0] == 'd' && "estimated"@[0] == 'e');
}

} // verus!

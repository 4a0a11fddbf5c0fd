//! The health report.
use vstd::prelude::*;

use super::format::{percentile, percentile_of};
use super::types::{
    Adoption, CheckResult, FileWatcherStats, IndexerCounts, OrphanCounts, RetiredCorpus,
    CHECK_SCHEMA_VERSION,
};
use crate::cost_ledger::CostSavingsLedger;
use crate::keys::{increasing, insert_key, names, ordered_map, pairs, same_values};
use crate::ranking::{is_ranking, rank_by, ranking, strict_order};
use crate::text::{append_str, from_chars, str_eq, strs, to_chars};

verus! {

// ---- Retired corpora -----------------------------------------------------------------------

/// Names the corpora that nothing reads any more, where rows of them survive.
pub fn retired_corpora(indexer: &IndexerCounts) -> (r: Option<Vec<RetiredCorpus>>)
    ensures
        r is Some <==> indexer.session_entries > 0,
        r matches Some(v) ==> v@.len() == 1 && v@[0].corpus@ == "session_entries"@ && v@[0].rows
            == indexer.session_entries && v@[0].superseded_by@ == "session_edges"@,
{
    if indexer.session_entries > 0 {
        let mut out: Vec<RetiredCorpus> = Vec::new();
        out.push(
            RetiredCorpus {
                corpus: "session_entries".to_owned(),
                rows: indexer.session_entries,
                superseded_by: "session_edges".to_owned(),
            },
        );
        Some(out)
    } else {
        None
    }
}

// ---- Adoption ------------------------------------------------------------------------------

/// A share in tenths of a percent, rounded to the nearest, halves up; none of nothing is
/// none.
pub open spec fn share_tenths(part: int, total: int) -> int {
    if total == 0 {
        0
    } else {
        (2000 * part + total) / (2 * total)
    }
}

/// The index's share of retrieval, from the number of sessions, of sessions that used it,
/// of calls that went elsewhere and of calls that came to it. Nothing where no session
/// was seen.
pub fn compute_adoption(
    sessions_seen: i64,
    sessions_using_nibdex: i64,
    retrieval_elsewhere: i64,
    nibdex_queries: i64,
) -> (r: Option<Adoption>)
    requires
        0 <= retrieval_elsewhere,
        0 <= nibdex_queries,
        retrieval_elsewhere + nibdex_queries <= i64::MAX,
    ensures
        r is None <==> sessions_seen == 0,
        r matches Some(a) ==> {
            &&& a.sessions_seen == sessions_seen
            &&& a.sessions_using_nibdex == sessions_using_nibdex
            &&& a.retrieval_elsewhere == retrieval_elsewhere
            &&& a.nibdex_queries == nibdex_queries
            &&& a.nibdex_share_tenths == share_tenths(
                nibdex_queries as int,
                retrieval_elsewhere + nibdex_queries,
            )
            &&& 0 <= a.nibdex_share_tenths <= 1000
        },
{
    if sessions_seen == 0 {
        return None;
    }
    let total: i128 = (retrieval_elsewhere + nibdex_queries) as i128;
    let part: i128 = nibdex_queries as i128;
    let tenths: i64 = if total == 0 {
        0
    } else {
        assert(0 <= (2000 * part + total) / (2 * total) <= 1000) by (nonlinear_arith)
            requires
                total > 0,
                0 <= part <= total,
        ;
        ((2000 * part + total) / (2 * total)) as i64
    };
    Some(
        Adoption {
            sessions_seen,
            sessions_using_nibdex,
            retrieval_elsewhere,
            nibdex_queries,
            nibdex_share_tenths: tenths,
        },
    )
}

// ---- Orphans -------------------------------------------------------------------------------

/// How many of the numbers are not among those that live.
pub open spec fn missing_count(numbers: Seq<i64>, live: Seq<i64>) -> nat
    decreases numbers.len(),
{
    if numbers.len() == 0 {
        0
    } else {
        missing_count(numbers.drop_last(), live) + if live.contains(numbers.last()) {
            0nat
        } else {
            1
        }
    }
}

/// What is known of the source of the session entries.
#[derive(Debug)]
pub enum SessionSource {
    /// There is no source document; so many entries are stored.
    NoDocument(i64),
    /// The source cannot be read; so many entries are stored of it.
    Unreadable(i64),
    /// The entries that the source has, and those that are stored of it.
    Readable { live: Vec<i64>, stored: Vec<i64> },
}

fn holds_number(v: &Vec<i64>, n: i64) -> (b: bool)
    ensures
        b == v@.contains(n),
{
    for i in 0..v.len()
        invariant
            forall|j: int| 0 <= j < i ==> v@[j] != n,
    {
        if v[i] == n {
            assert(v@[i as int] == n);
            return true;
        }
    }
    false
}

/// How many stored session entries have lost their source: all of them where the source
/// is gone, else those that it has no more.
pub fn compute_session_orphans(source: &SessionSource) -> (r: i64)
    requires
        source matches SessionSource::Readable { live, stored } ==> stored@.len() <= i64::MAX,
    ensures
        match *source {
            SessionSource::NoDocument(n) => r == n,
            SessionSource::Unreadable(n) => r == n,
            SessionSource::Readable { live, stored } => r == missing_count(stored@, live@),
        },
{
    match source {
        SessionSource::NoDocument(n) => *n,
        SessionSource::Unreadable(n) => *n,
        SessionSource::Readable { live, stored } => {
            let mut n: i64 = 0;
            for i in 0..stored.len()
                invariant
                    stored@.len() <= i64::MAX,
                    n == missing_count(stored@.take(i as int), live@),
                    n <= i,
            {
                assert(stored@.take(i + 1).drop_last() =~= stored@.take(i as int));
                if !holds_number(live, stored[i]) {
                    n = n + 1;
                }
            }
            assert(stored@.take(stored@.len() as int) =~= stored@);
            n
        },
    }
}

/// The table whose rows go with a document.
#[derive(Clone, Copy, Debug, PartialEq, Eq, Structural)]
pub enum OrphanChild {
    Memory,
    DesignSection,
    SourceChunk,
}

/// The table whose rows go with the documents.
pub open spec fn orphan_table(c: OrphanChild) -> Seq<char> {
    match c {
        OrphanChild::Memory => "memory_entries"@,
        OrphanChild::DesignSection => "design_doc_sections"@,
        OrphanChild::SourceChunk => "source_chunks"@,
    }
}

impl OrphanChild {
    pub fn table(self) -> (r: &'static str)
        ensures
            r@ == orphan_table(self),
    {
        match self {
            OrphanChild::Memory => "memory_entries",
            OrphanChild::DesignSection => "design_doc_sections",
            OrphanChild::SourceChunk => "source_chunks",
        }
    }

    /// The kind of the documents that the rows go with.
    pub fn document_kind(self) -> (r: &'static str)
        ensures
            r@ == match self {
                OrphanChild::Memory => "memory"@,
                OrphanChild::DesignSection => "design_doc"@,
                OrphanChild::SourceChunk => "source"@,
            },
    {
        match self {
            OrphanChild::Memory => "memory",
            OrphanChild::DesignSection => "design_doc",
            OrphanChild::SourceChunk => "source",
        }
    }

    /// The statement that counts the rows of documents, up to the list of documents.
    pub fn count_sql(self) -> (r: String)
        ensures
            r@ == "SELECT COUNT(*) FROM "@ + orphan_table(self) + " WHERE document_id IN ("@,
    {
        let mut out = to_chars("SELECT COUNT(*) FROM ");
        append_str(&mut out, self.table());
        append_str(&mut out, " WHERE document_id IN (");
        from_chars(&out)
    }
}

/// The documents whose file is gone, in order.
pub open spec fn gone(docs: Seq<(i64, bool)>) -> Seq<i64>
    decreases docs.len(),
{
    if docs.len() == 0 {
        Seq::empty()
    } else if docs.last().1 {
        gone(docs.drop_last())
    } else {
        gone(docs.drop_last()).push(docs.last().0)
    }
}

/// The documents whose file is gone; `docs` says of each document whether its file exists.
pub fn missing_documents(docs: &Vec<(i64, bool)>) -> (r: Vec<i64>)
    ensures
        r@ == gone(docs@),
{
    let mut r: Vec<i64> = Vec::new();
    for i in 0..docs.len()
        invariant
            r@ == gone(docs@.take(i as int)),
    {
        assert(docs@.take(i + 1).drop_last() =~= docs@.take(i as int));
        if !docs[i].1 {
            r.push(docs[i].0);
        }
    }
    assert(docs@.take(docs@.len() as int) =~= docs@);
    r
}

/// How many of the answers are no.
pub open spec fn refusals(v: Seq<bool>) -> nat
    decreases v.len(),
{
    if v.len() == 0 {
        0
    } else {
        refusals(v.drop_last()) + if v.last() {
            0nat
        } else {
            1
        }
    }
}

/// How many repositories are gone; `present` says of each whether its directory exists.
pub fn compute_repo_orphans(present: &Vec<bool>) -> (r: i64)
    requires
        present@.len() <= i64::MAX,
    ensures
        r == refusals(present@),
{
    let mut n: i64 = 0;
    for i in 0..present.len()
        invariant
            present@.len() <= i64::MAX,
            n == refusals(present@.take(i as int)),
            n <= i,
    {
        assert(present@.take(i + 1).drop_last() =~= present@.take(i as int));
        if !present[i] {
            n = n + 1;
        }
    }
    assert(present@.take(present@.len() as int) =~= present@);
    n
}

// ---- Latency -------------------------------------------------------------------------------

/// The durations of one operation, in the order of the rows.
pub open spec fn durations_of(rows: Seq<(Seq<char>, i64)>, op: Seq<char>) -> Seq<i64>
    decreases rows.len(),
{
    if rows.len() == 0 {
        Seq::empty()
    } else if rows.last().0 == op {
        durations_of(rows.drop_last(), op).push(rows.last().1)
    } else {
        durations_of(rows.drop_last(), op)
    }
}

/// The smaller value first, and the earlier of equals.
pub open spec fn smaller(v: Seq<i64>) -> spec_fn(int, int) -> bool {
    |i: int, j: int| v[i] < v[j] || (v[i] == v[j] && i < j)
}

/// The values in ascending order.
pub open spec fn ascending(v: Seq<i64>) -> Seq<i64> {
    let order = ranking(v.len() as int, smaller(v));
    Seq::new(v.len(), |k: int| v[order[k]])
}

/// The values in ascending order.
pub fn sort_values(v: &Vec<i64>) -> (r: Vec<i64>)
    ensures
        r@ == ascending(v@),
        forall|a: int, b: int| 0 <= a < b < r@.len() ==> r@[a] <= r@[b],
{
    let n: usize = v.len();
    assert(strict_order(n as int, smaller(v@)));
    let f = |i: usize, j: usize| -> (b: bool)
        requires
            i < v@.len(),
            j < v@.len(),
        ensures
            b == smaller(v@)(i as int, j as int),
        { v[i] < v[j] || (v[i] == v[j] && i < j) };
    let order = rank_by(n, f, Ghost(smaller(v@)));
    let ghost ord = order@.map_values(|i: usize| i as int);
    let mut r: Vec<i64> = Vec::new();
    for k in 0..n
        invariant
            n == v@.len(),
            ord == order@.map_values(|i: usize| i as int),
            is_ranking(ord, n as int, smaller(v@)),
            r@.len() == k,
            forall|j: int| 0 <= j < k ==> r@[j] == v@[#[trigger] ord[j]],
    {
        assert(ord[k as int] == order@[k as int] as int);
        r.push(v[order[k]]);
    }
    assert(r@ =~= ascending(v@));
    assert forall|a: int, b: int| 0 <= a < b < r@.len() implies r@[a] <= r@[b] by {
        assert(smaller(v@)(ord[a], ord[b]));
    }
    r
}

/// A table of one percentile per operation, in the order of their names.
pub open spec fn percentile_table(
    table: Seq<(Seq<char>, i64)>,
    rows: Seq<(Seq<char>, i64)>,
    percent: int,
) -> bool {
    &&& increasing(names(table))
    &&& forall|s: Seq<char>| names(table).contains(s) <==> names(rows).contains(s)
    &&& forall|i: int|
        0 <= i < table.len() ==> (#[trigger] table[i]).1 == percentile_of(
            ascending(durations_of(rows, table[i].0)),
            percent,
        )
}

fn collect_durations(rows: &Vec<(String, i64)>, op: &str) -> (r: Vec<i64>)
    ensures
        r@ == durations_of(pairs(rows@), op@),
{
    let ghost all = pairs(rows@);
    let mut r: Vec<i64> = Vec::new();
    for i in 0..rows.len()
        invariant
            all == pairs(rows@),
            r@ == durations_of(all.take(i as int), op@),
    {
        assert(all.take(i + 1).drop_last() =~= all.take(i as int));
        assert(all[i as int] == (rows@[i as int].0@, rows@[i as int].1));
        if str_eq(rows[i].0.as_str(), op) {
            r.push(rows[i].1);
        }
    }
    assert(all.take(all.len() as int) =~= all);
    r
}

/// The median and the 95th percentile of the durations of each operation.
pub fn compute_tool_percentiles(rows: &Vec<(String, i64)>) -> (r: (
    Vec<(String, i64)>,
    Vec<(String, i64)>,
))
    ensures
        percentile_table(pairs(r.0@), pairs(rows@), 50),
        percentile_table(pairs(r.1@), pairs(rows@), 95),
{
    let ghost all = pairs(rows@);
    let mut ops: Vec<String> = Vec::new();
    for i in 0..rows.len()
        invariant
            all == pairs(rows@),
            increasing(strs(ops@)),
            forall|s: Seq<char>|
                #[trigger] strs(ops@).contains(s) <==> names(all).take(i as int).contains(s),
    {
        let ghost before = strs(ops@);
        insert_key(&mut ops, rows[i].0.as_str());
        assert forall|s: Seq<char>| #[trigger] strs(ops@).contains(s) <==> names(all).take(
            i + 1,
        ).contains(s) by {
            let a = names(all).take(i as int);
            let b = names(all).take(i + 1);
            assert(b =~= a.push(rows@[i as int].0@));
            if b.contains(s) {
                let q = choose|q: int| 0 <= q < b.len() && b[q] == s;
                if q < i {
                    assert(a[q] == s);
                    assert(before.contains(s));
                }
            }
            if before.contains(s) {
                let q = choose|q: int| 0 <= q < a.len() && a[q] == s;
                assert(b[q] == s);
            }
            if s == rows@[i as int].0@ {
                assert(b[i as int] == s);
            }
        }
    }
    assert(names(all).take(all.len() as int) =~= names(all));
    let mut p50: Vec<(String, i64)> = Vec::new();
    let mut p95: Vec<(String, i64)> = Vec::new();
    for k in 0..ops.len()
        invariant
            all == pairs(rows@),
            p50@.len() == k,
            p95@.len() == k,
            forall|j: int|
                0 <= j < k ==> (#[trigger] p50@[j]).0@ == ops@[j]@ && p50@[j].1 == percentile_of(
                    ascending(durations_of(all, ops@[j]@)),
                    50,
                ),
            forall|j: int|
                0 <= j < k ==> (#[trigger] p95@[j]).0@ == ops@[j]@ && p95@[j].1 == percentile_of(
                    ascending(durations_of(all, ops@[j]@)),
                    95,
                ),
    {
        let durations = sort_values(&collect_durations(rows, ops[k].as_str()));
        p50.push((ops[k].clone(), percentile(durations.as_slice(), 50)));
        p95.push((ops[k].clone(), percentile(durations.as_slice(), 95)));
    }
    assert(names(pairs(p50@)) =~= strs(ops@));
    assert(names(pairs(p95@)) =~= strs(ops@));
    (p50, p95)
}

// ---- The report ----------------------------------------------------------------------------

/// The counts say the same, whatever the order of their documents.
pub open spec fn same_counts(a: IndexerCounts, b: IndexerCounts) -> bool {
    &&& same_values(pairs(a.documents@), pairs(b.documents@))
    &&& a.session_entries == b.session_entries
    &&& a.session_edges == b.session_edges
    &&& a.memory_entries == b.memory_entries
    &&& a.design_doc_sections == b.design_doc_sections
    &&& a.source_chunks == b.source_chunks
    &&& a.commit_entries == b.commit_entries
    &&& a.indexed_repos == b.indexed_repos
    &&& a.search_index_total == b.search_index_total
}

/// Puts the report together, its tables in order.
pub fn assemble_check(
    uptime_s: i64,
    indexer: IndexerCounts,
    orphans: OrphanCounts,
    shallow_repos: Vec<String>,
    tool_rows: &Vec<(String, i64)>,
    extractors_last_run_ms: Vec<(String, i64)>,
    file_watcher: Option<FileWatcherStats>,
    cost_savings: Option<CostSavingsLedger>,
    adoption: Option<Adoption>,
    build: String,
) -> (r: CheckResult)
    ensures
        r.is_ordered(),
        r.schema_version == CHECK_SCHEMA_VERSION,
        r.daemon_uptime_s == uptime_s,
        same_counts(r.indexer, indexer),
        r.orphans == orphans,
        r.shallow_repos == shallow_repos,
        percentile_table(pairs(r.perf_p50_ms@), pairs(tool_rows@), 50),
        percentile_table(pairs(r.perf_p95_ms@), pairs(tool_rows@), 95),
        same_values(pairs(r.extractors_last_run_ms@), pairs(extractors_last_run_ms@)),
        r.file_watcher == file_watcher,
        match cost_savings {
            Some(l) => r.cost_savings matches Some(m) && m.says(l),
            None => r.cost_savings is None,
        },
        r.adoption == adoption,
        r.build == build,
        r.retired_corpora is Some <==> indexer.session_entries > 0,
        r.retired_corpora matches Some(v) ==> v@.len() == 1 && v@[0].corpus@
            == "session_entries"@ && v@[0].rows == indexer.session_entries && v@[0].superseded_by@
            == "session_edges"@,
{
    let retired = retired_corpora(&indexer);
    let (perf_p50_ms, perf_p95_ms) = compute_tool_percentiles(tool_rows);
    let savings = match cost_savings {
        Some(l) => Some(l.in_order()),
        None => None,
    };
    CheckResult {
        schema_version: CHECK_SCHEMA_VERSION,
        daemon_uptime_s: uptime_s,
        indexer: IndexerCounts { documents: ordered_map(&indexer.documents), ..indexer },
        orphans,
        shallow_repos,
        perf_p50_ms,
        perf_p95_ms,
        file_watcher,
        extractors_last_run_ms: ordered_map(&extractors_last_run_ms),
        cost_savings: savings,
        build,
        retired_corpora: retired,
        adoption,
    }
}

} // verus!

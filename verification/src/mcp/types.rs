//! The data of the tools: requests, results, the envelope around them, and the health
//! report. A relevance score is carried by the bits of its double-precision value, and a
//! map from names to counts is a list of pairs in the order of the names.
use vstd::prelude::*;

use crate::cost_ledger::CostSavingsLedger;
use crate::json::{Json, JsonNumber, JsonV};
use crate::keys::is_map;

verus! {

/// The most rows that a request can ask for.
pub const MAX_LIMIT: i64 = 50;

/// The rows of a request that does not say.
pub const DEFAULT_LIMIT: i64 = 10;

/// The window of a request that does not say, in days.
pub const DEFAULT_DAYS: i64 = 30;

/// How many ranks are looked at, although fewer may be shown.
pub const DEEP_SCAN_DEPTH: i64 = 40;

/// The characters of an excerpt.
pub const SUMMARY_CHAR_LIMIT: usize = 200;

/// The characters of the body of one design document section.
pub const DESIGN_DOC_BODY_CHAR_LIMIT: usize = 1_200;

/// The characters of all bodies of a design document response; once they are spent,
/// further results carry no body.
pub const DESIGN_DOC_TOTAL_BODY_BUDGET: usize = 16_000;

/// The characters of the body of one source chunk.
pub const SOURCE_BODY_CHAR_LIMIT: usize = 2_000;

/// The characters of all bodies of a source response.
pub const SOURCE_TOTAL_BODY_BUDGET: usize = 20_000;

/// The window of the latency figures, in seconds.
pub const PERF_WINDOW_SECS: i64 = 3600;

/// The version of the health report.
pub const CHECK_SCHEMA_VERSION: i64 = 1;

/// What a tool answers.
#[derive(Debug)]
pub struct ToolEnvelope<T> {
    pub results: Vec<T>,
    pub total_matched: i64,
    pub returned: i64,
    pub tool: String,
    /// The query matched nothing and was retried with its terms joined by `OR`.
    pub query_broadened: bool,
    /// Present on a response without results only: whether the corpus is empty.
    pub corpus_empty: Option<bool>,
    /// Present beside `corpus_empty` where the corpus is not empty: its newest item.
    pub corpus_indexed_through: Option<String>,
    /// The size of the results before any trimming, in tokens. Never sent.
    pub returned_full_tokens: u64,
    /// Words that the neighbourhood of the query uses and the query does not.
    pub neighbourhood_terms: Vec<String>,
    pub retrieval_shape: Option<RetrievalShape>,
    /// Files below the results that matched as well.
    pub also_matched: Vec<AlsoMatched>,
}

/// A flag that is left out where it is not set.
pub fn is_false(b: &bool) -> (r: bool)
    ensures
        r == !*b,
{
    !*b
}

/// How the scores of the results are spread.
#[derive(Clone, Copy, Debug)]
pub struct RetrievalShape {
    pub top_rank: u64,
    pub rank_spread: u64,
    /// How many entries the broadened query matches.
    pub neighbourhood_matched: i64,
}

/// A file that matched below the results.
#[derive(Debug)]
pub struct AlsoMatched {
    pub path: String,
    /// The line of its best match.
    pub match_line: i64,
    /// How many passages matched.
    pub matches: i64,
}

/// The corpus that a tool searches.
#[derive(Clone, Copy, Debug, PartialEq, Eq, Structural)]
pub enum Corpus {
    SessionEdges,
    CommitEntries,
    DesignDocSections,
    MemoryEntries,
    SourceChunks,
}

/// The table of a corpus.
pub open spec fn corpus_table(c: Corpus) -> Seq<char> {
    match c {
        Corpus::SessionEdges => "session_edges"@,
        Corpus::CommitEntries => "commit_entries"@,
        Corpus::DesignDocSections => "design_doc_sections"@,
        Corpus::MemoryEntries => "memory_entries"@,
        Corpus::SourceChunks => "source_chunks"@,
    }
}

/// Where the time of the newest item of a corpus is read: the time of its content, and
/// never the time at which it was indexed.
pub open spec fn corpus_clock(c: Corpus) -> Seq<char> {
    match c {
        Corpus::SessionEdges => "edited_at) FROM session_edges"@,
        Corpus::CommitEntries => "committed_at) FROM commit_entries"@,
        Corpus::DesignDocSections => "mtime) FROM documents WHERE kind = 'design_doc'"@,
        Corpus::MemoryEntries => "mtime) FROM documents WHERE kind = 'memory'"@,
        Corpus::SourceChunks => "mtime) FROM documents WHERE kind = 'source'"@,
    }
}

impl Corpus {
    /// The statement that counts the corpus and the one that gives the time of its newest
    /// item.
    pub fn probe_sql(self) -> (r: (&'static str, &'static str))
        ensures
            r.0@ == "SELECT COUNT(*) FROM "@ + corpus_table(self),
            r.1@ == "SELECT MAX("@ + corpus_clock(self),
    {
        proof {
            reveal_strlit("SELECT COUNT(*) FROM ");
            reveal_strlit("SELECT MAX(");
        }
        match self {
            Corpus::SessionEdges => {
                proof {
                    reveal_strlit("session_edges");
                    reveal_strlit("SELECT COUNT(*) FROM session_edges");
                    reveal_strlit("edited_at) FROM session_edges");
                    reveal_strlit("SELECT MAX(edited_at) FROM session_edges");
                    assert("SELECT COUNT(*) FROM session_edges"@ =~= "SELECT COUNT(*) FROM "@
                        + "session_edges"@);
                    assert("SELECT MAX(edited_at) FROM session_edges"@ =~= "SELECT MAX("@
                        + "edited_at) FROM session_edges"@);
                }
                (
                    "SELECT COUNT(*) FROM session_edges",
                    "SELECT MAX(edited_at) FROM session_edges",
                )
            },
            Corpus::CommitEntries => {
                proof {
                    reveal_strlit("commit_entries");
                    reveal_strlit("SELECT COUNT(*) FROM commit_entries");
                    reveal_strlit("committed_at) FROM commit_entries");
                    reveal_strlit("SELECT MAX(committed_at) FROM commit_entries");
                    assert("SELECT COUNT(*) FROM commit_entries"@ =~= "SELECT COUNT(*) FROM "@
                        + "commit_entries"@);
                    assert("SELECT MAX(committed_at) FROM commit_entries"@ =~= "SELECT MAX("@
                        + "committed_at) FROM commit_entries"@);
                }
                (
                    "SELECT COUNT(*) FROM commit_entries",
                    "SELECT MAX(committed_at) FROM commit_entries",
                )
            },
            Corpus::DesignDocSections => {
                proof {
                    reveal_strlit("design_doc_sections");
                    reveal_strlit("SELECT COUNT(*) FROM design_doc_sections");
                    reveal_strlit("mtime) FROM documents WHERE kind = 'design_doc'");
                    reveal_strlit("SELECT MAX(mtime) FROM documents WHERE kind = 'design_doc'");
                    assert("SELECT COUNT(*) FROM design_doc_sections"@ =~= "SELECT COUNT(*) FROM "@
                        + "design_doc_sections"@);
                    assert("SELECT MAX(mtime) FROM documents WHERE kind = 'design_doc'"@
                        =~= "SELECT MAX("@ + "mtime) FROM documents WHERE kind = 'design_doc'"@);
                }
                (
                    "SELECT COUNT(*) FROM design_doc_sections",
                    "SELECT MAX(mtime) FROM documents WHERE kind = 'design_doc'",
                )
            },
            Corpus::MemoryEntries => {
                proof {
                    reveal_strlit("memory_entries");
                    reveal_strlit("SELECT COUNT(*) FROM memory_entries");
                    reveal_strlit("mtime) FROM documents WHERE kind = 'memory'");
                    reveal_strlit("SELECT MAX(mtime) FROM documents WHERE kind = 'memory'");
                    assert("SELECT COUNT(*) FROM memory_entries"@ =~= "SELECT COUNT(*) FROM "@
                        + "memory_entries"@);
                    assert("SELECT MAX(mtime) FROM documents WHERE kind = 'memory'"@
                        =~= "SELECT MAX("@ + "mtime) FROM documents WHERE kind = 'memory'"@);
                }
                (
                    "SELECT COUNT(*) FROM memory_entries",
                    "SELECT MAX(mtime) FROM documents WHERE kind = 'memory'",
                )
            },
            Corpus::SourceChunks => {
                proof {
                    reveal_strlit("source_chunks");
                    reveal_strlit("SELECT COUNT(*) FROM source_chunks");
                    reveal_strlit("mtime) FROM documents WHERE kind = 'source'");
                    reveal_strlit("SELECT MAX(mtime) FROM documents WHERE kind = 'source'");
                    assert("SELECT COUNT(*) FROM source_chunks"@ =~= "SELECT COUNT(*) FROM "@
                        + "source_chunks"@);
                    assert("SELECT MAX(mtime) FROM documents WHERE kind = 'source'"@
                        =~= "SELECT MAX("@ + "mtime) FROM documents WHERE kind = 'source'"@);
                }
                (
                    "SELECT COUNT(*) FROM source_chunks",
                    "SELECT MAX(mtime) FROM documents WHERE kind = 'source'",
                )
            },
        }
    }
}

/// Every corpus counts its own table: no two corpora count the same one.
pub proof fn law_corpora_have_their_own_tables(a: Corpus, b: Corpus)
    requires
        a != b,
    ensures
        corpus_table(a) != corpus_table(b),
{
    reveal_strlit("session_edges");
    reveal_strlit("commit_entries");
    reveal_strlit("design_doc_sections");
    reveal_strlit("memory_entries");
    reveal_strlit("source_chunks");
    let ta = corpus_table(a);
    let tb = corpus_table(b);
    assert(ta.len() != tb.len() || ta[0] != tb[0] || ta[1] != tb[1]);
}

/// One write-edge of a session, with the commit that captured it.
#[derive(Debug)]
pub struct SessionEdgeResult {
    pub session_id: String,
    pub tool: String,
    pub file_path: String,
    pub repo_path: Option<String>,
    pub git_branch: Option<String>,
    pub edited_at_iso: String,
    pub edited_at_unix: i64,
    pub rationale: String,
    /// The first seven characters of the commit's hash.
    pub commit_hash: Option<String>,
    pub commit_hash_full: Option<String>,
    pub commit_summary: Option<String>,
    pub rank: Option<u64>,
}

/// One commit.
#[derive(Debug)]
pub struct CommitResult {
    /// The first seven characters of the hash.
    pub commit_hash: String,
    pub commit_hash_full: String,
    pub repo_path: String,
    pub authored_at_iso: String,
    pub authored_at_unix: i64,
    pub author_email: Option<String>,
    pub author_name: Option<String>,
    pub message_summary: String,
    pub message_body: Option<String>,
    pub files_changed: Json,
    pub parent_hashes: Json,
    /// The local clone has a truncated history.
    pub is_shallow: bool,
    pub rank: Option<u64>,
}

/// One memory entry.
#[derive(Debug)]
pub struct MemoryResult {
    pub path: String,
    pub name: String,
    pub memory_type: String,
    pub description: Option<String>,
    pub body: String,
    pub rank: Option<u64>,
}

/// One section of a design document.
#[derive(Debug)]
pub struct DesignDocResult {
    pub doc_path: String,
    pub heading_path: String,
    pub line_start: i64,
    pub line_end: i64,
    /// A window of the section around the match, bounded; empty once the budget of the
    /// response is spent.
    pub body: String,
    /// The head of the window where there is no body.
    pub body_excerpt: String,
    /// The body is not the whole section.
    pub body_truncated: bool,
    /// The line at which the window begins.
    pub match_line: i64,
    pub rank: Option<u64>,
}

/// One chunk of source code.
#[derive(Debug)]
pub struct CodeResult {
    /// The repository; unknown where it is missing.
    pub repo_path: Option<String>,
    /// The path in the repository.
    pub path: String,
    pub line_start: i64,
    pub line_end: i64,
    pub language: Option<String>,
    pub body: String,
    pub body_excerpt: String,
    pub body_truncated: bool,
    pub match_line: i64,
    /// How current the lines are.
    pub location: String,
    pub line_shift: Option<i64>,
    pub commit_sha: Option<String>,
    pub commit_summary: Option<String>,
    pub rank: Option<u64>,
}

/// The health report.
#[derive(Debug)]
pub struct CheckResult {
    pub schema_version: i64,
    pub daemon_uptime_s: i64,
    pub indexer: IndexerCounts,
    pub orphans: OrphanCounts,
    pub shallow_repos: Vec<String>,
    pub perf_p50_ms: Vec<(String, i64)>,
    pub perf_p95_ms: Vec<(String, i64)>,
    pub file_watcher: Option<FileWatcherStats>,
    pub extractors_last_run_ms: Vec<(String, i64)>,
    pub cost_savings: Option<CostSavingsLedger>,
    /// Which build answers.
    pub build: String,
    pub retired_corpora: Option<Vec<RetiredCorpus>>,
    pub adoption: Option<Adoption>,
}

impl CheckResult {
    /// Its tables are ordered maps: each name stands once, and the names are in order.
    pub open spec fn is_ordered(self) -> bool {
        &&& is_map(self.indexer.documents@)
        &&& is_map(self.perf_p50_ms@)
        &&& is_map(self.perf_p95_ms@)
        &&& is_map(self.extractors_last_run_ms@)
        &&& self.cost_savings matches Some(l) ==> l.is_ordered()
    }
}

/// The index's share of all retrieval.
#[derive(Clone, Copy, Debug, PartialEq, Eq, Structural)]
pub struct Adoption {
    pub sessions_seen: i64,
    pub sessions_using_nibdex: i64,
    pub retrieval_elsewhere: i64,
    pub nibdex_queries: i64,
    /// The share in tenths of a percent.
    pub nibdex_share_tenths: i64,
}

/// A corpus that is read no more, so that its counts are no defect.
#[derive(Debug)]
pub struct RetiredCorpus {
    pub corpus: String,
    pub rows: i64,
    pub superseded_by: String,
}

/// How much the index holds.
#[derive(Debug)]
pub struct IndexerCounts {
    pub documents: Vec<(String, i64)>,
    pub session_entries: i64,
    pub session_edges: i64,
    pub memory_entries: i64,
    pub design_doc_sections: i64,
    pub source_chunks: i64,
    pub commit_entries: i64,
    pub indexed_repos: i64,
    pub search_index_total: i64,
}

/// How much of it has lost its source.
#[derive(Clone, Copy, Debug, PartialEq, Eq, Structural)]
pub struct OrphanCounts {
    pub session_entries: i64,
    pub memory_entries: i64,
    pub design_doc_sections: i64,
    pub source_chunks: i64,
    pub indexed_repos: i64,
}

/// The state of the file watcher.
#[derive(Debug)]
pub struct FileWatcherStats {
    pub events_total: i64,
    pub events_coalesced_total: i64,
    pub last_event_ts: Option<i64>,
    pub subscriptions: Vec<String>,
}

#[derive(Debug)]
pub struct RecentSessionsRequest {
    /// Narrows the sessions by rationale and path.
    pub filter: Option<String>,
    pub days: Option<i64>,
    pub limit: Option<i64>,
}

#[derive(Debug)]
pub struct FindSessionRequest {
    pub query: String,
    pub limit: Option<i64>,
}

#[derive(Debug)]
pub struct RecentCommitsRequest {
    pub filter: Option<String>,
    pub days: Option<i64>,
    /// A part of the repository's path, in the case in which it is written there.
    pub repo: Option<String>,
    pub limit: Option<i64>,
}

#[derive(Debug)]
pub struct FindCommitRequest {
    pub query: String,
    /// As in [`RecentCommitsRequest`].
    pub repo: Option<String>,
    pub limit: Option<i64>,
}

#[derive(Debug)]
pub struct FindMemoryRequest {
    pub query: String,
    pub limit: Option<i64>,
}

#[derive(Debug)]
pub struct FindDesignDocRequest {
    pub query: String,
    pub limit: Option<i64>,
}

#[derive(Debug)]
pub struct FindCodeRequest {
    pub query: String,
    /// As in [`RecentCommitsRequest`], so that one text scopes code and commits alike.
    pub repo: Option<String>,
    pub limit: Option<i64>,
}

#[derive(Clone, Copy, Debug, Default)]
pub struct CheckRequest {}

/// The time that the stages of a call took, in milliseconds.
#[derive(Clone, Copy, Debug, PartialEq, Eq, Structural)]
pub struct Stages {
    pub fts5_query_ms: u64,
    pub rank_ms: u64,
    pub join_ms: u64,
    pub shape_response_ms: u64,
}

impl Default for Stages {
    fn default() -> (r: Stages)
        ensures
            r == (Stages { fts5_query_ms: 0, rank_ms: 0, join_ms: 0, shape_response_ms: 0 }),
    {
        Stages { fts5_query_ms: 0, rank_ms: 0, join_ms: 0, shape_response_ms: 0 }
    }
}

/// A whole number as a JSON value.
pub open spec fn json_u64(n: u64) -> JsonV {
    JsonV::Num(JsonNumber::Unsigned(n))
}

impl Stages {
    /// The stages as an object with four members.
    pub fn to_json(&self) -> (r: Json)
        ensures
            r@ == JsonV::Obj(
                seq![
                    ("fts5_query"@, json_u64(self.fts5_query_ms)),
                    ("rank"@, json_u64(self.rank_ms)),
                    ("join"@, json_u64(self.join_ms)),
                    ("shape_response"@, json_u64(self.shape_response_ms)),
                ],
            ),
    {
        let mut v: Vec<(String, Json)> = Vec::new();
        v.push(("fts5_query".to_owned(), Json::Num(JsonNumber::Unsigned(self.fts5_query_ms))));
        v.push(("rank".to_owned(), Json::Num(JsonNumber::Unsigned(self.rank_ms))));
        v.push(("join".to_owned(), Json::Num(JsonNumber::Unsigned(self.join_ms))));
        v.push(
            ("shape_response".to_owned(), Json::Num(JsonNumber::Unsigned(self.shape_response_ms))),
        );
        let r = Json::Obj(v);
        proof {
            reveal_with_fuel(crate::json::json_view, 2);
            assert(r@->Obj_0 =~= seq![
                ("fts5_query"@, json_u64(self.fts5_query_ms)),
                ("rank"@, json_u64(self.rank_ms)),
                ("join"@, json_u64(self.join_ms)),
                ("shape_response"@, json_u64(self.shape_response_ms)),
            ]);
        }
        r
    }
}

} // verus!

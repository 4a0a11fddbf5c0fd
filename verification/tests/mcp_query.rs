use nibdex::cost_ledger::{CostSavingsLedger, CostSavingsPerTool, CostSavingsWindow};
use nibdex::json::Json;
use nibdex::mcp::check::{
    assemble_check, compute_adoption, compute_repo_orphans, compute_session_orphans,
    compute_tool_percentiles, missing_documents, retired_corpora, OrphanChild, SessionSource,
};
use nibdex::mcp::query::{
    add_neighbourhood, build_also_matched, clamp_limit, cutoff_modifier, finish_code_envelope,
    finish_design_doc_envelope, finish_memory_envelope, in_repo, openable_path, plan_recent,
    plan_search, repos_in_scope, scan_depth, split_at_limit, window_days, ChunkLocation,
    CodePointer, CodeRow, DesignDocRow, QueryError,
};
use nibdex::mcp::telemetry::{
    error_event, listing_searched, recent_params_json, search_params_json, success_event,
    tool_error,
};
use nibdex::mcp::types::{
    is_false, Corpus, IndexerCounts, MemoryResult, OrphanCounts, RecentSessionsRequest,
    RetrievalShape, Stages, DEFAULT_LIMIT, MAX_LIMIT,
};

fn make_rs_request(
    filter: Option<&str>,
    days: Option<i64>,
    limit: Option<i64>,
) -> RecentSessionsRequest {
    RecentSessionsRequest { filter: filter.map(|s| s.to_string()), days, limit }
}

#[test]
fn recent_sessions_limit_is_clamped_to_max() {
    let req = make_rs_request(None, None, Some(999));
    let limit = req.limit.unwrap_or(DEFAULT_LIMIT).clamp(1, MAX_LIMIT);
    assert_eq!(limit, MAX_LIMIT);
    assert_eq!(clamp_limit(req.limit), MAX_LIMIT);
}

#[test]
fn limits_and_windows_have_bounds() {
    assert_eq!(clamp_limit(None), 10);
    assert_eq!(clamp_limit(Some(0)), 1);
    assert_eq!(clamp_limit(Some(-3)), 1);
    assert_eq!(clamp_limit(Some(50)), 50);
    assert_eq!(clamp_limit(Some(51)), 50);
    assert_eq!(window_days(None), 30);
    assert_eq!(window_days(Some(0)), 1);
    assert_eq!(window_days(Some(36_500)), 36_500);
    assert_eq!(scan_depth(10), 40);
    assert_eq!(scan_depth(50), 50);
    assert_eq!(cutoff_modifier(7), "-7 days");
}

#[test]
fn a_blank_query_is_refused() {
    let err = plan_search("  \t ", None, None).unwrap_err();
    assert_eq!(err, QueryError::Empty);
    assert_eq!(err.message(), "query must not be empty");
    let plan = plan_search("  a-b c ", Some("my_repo"), Some(3)).unwrap();
    assert_eq!(plan.query, "a-b c");
    assert_eq!(plan.sanitized, "\"a-b\" c");
    assert_eq!(plan.limit, 3);
    assert_eq!(plan.repo.as_deref(), Some("my_repo"));
}

#[test]
fn repositories_are_scoped_by_substring_and_case() {
    let known: Vec<String> =
        ["/ws/proj_x", "/ws/projyx", "/ws/Proj_x", "/ws/100%"].map(String::from).to_vec();
    assert_eq!(repos_in_scope(&known, Some("proj_x")), vec!["/ws/proj_x"]);
    assert_eq!(repos_in_scope(&known, Some("Proj")), vec!["/ws/Proj_x"]);
    assert_eq!(repos_in_scope(&known, Some("%")), vec!["/ws/100%"]);
    assert_eq!(repos_in_scope(&known, Some("")), known);
    assert_eq!(repos_in_scope(&known, None), known);
    assert!(repos_in_scope(&known, Some("other")).is_empty());
    assert!(in_repo("/ws/alpha", "s/al"));
    assert!(!in_repo("/ws/alpha", "S/al"));
}

#[test]
fn a_blank_filter_is_none() {
    let plan = plan_recent(Some("  "), None, None, None);
    assert_eq!(plan.filter, None);
    assert_eq!((plan.days, plan.limit), (30, 10));
    let plan = plan_recent(Some(" v0.1 "), Some(7), Some("x"), Some(2));
    assert_eq!(plan.filter.as_deref(), Some("\"v0.1\""));
    assert_eq!(plan.repo.as_deref(), Some("x"));
    assert!(!listing_searched(Some("  ")));
    assert!(!listing_searched(None));
    assert!(listing_searched(Some("x")));
}

// ---- below the window ----

#[test]
fn also_matched_dedupes_by_file_and_keeps_the_best_line() {
    let head: Vec<String> = Vec::new();
    let tail = vec![
        ("/repo/src/a.rs".to_string(), 40),
        ("/repo/src/a.rs".to_string(), 91),
        ("/repo/src/b.rs".to_string(), 7),
        ("/repo/src/a.rs".to_string(), 120),
    ];
    let out = build_also_matched(&head, &tail);
    assert_eq!(out.len(), 2, "three chunks of a.rs collapse to one pointer");
    assert_eq!(out[0].path, "/repo/src/a.rs");
    assert_eq!(out[0].match_line, 40);
    assert_eq!(out[0].matches, 3, "and it says how many passages matched");
    assert_eq!(out[1].path, "/repo/src/b.rs");
    assert_eq!(out[1].matches, 1);
}

#[test]
fn also_matched_excludes_files_already_rendered_in_the_head() {
    let head: Vec<String> = vec!["/repo/src/a.rs".to_string()];
    let tail = vec![
        ("/repo/src/a.rs".to_string(), 40),
        ("/repo/src/b.rs".to_string(), 7),
    ];
    let out = build_also_matched(&head, &tail);
    assert_eq!(out.len(), 1, "the head's own file is dropped from the tail");
    assert_eq!(out[0].path, "/repo/src/b.rs");
}

#[test]
fn also_matched_is_empty_when_the_tail_adds_nothing() {
    let head: Vec<String> = vec!["/repo/src/a.rs".to_string()];
    let out = build_also_matched(&head, &vec![("/repo/src/a.rs".to_string(), 40)]);
    assert!(out.is_empty());
}

#[test]
fn rows_are_split_at_the_limit() {
    let (head, tail) = split_at_limit(vec![1, 2, 3], 2);
    assert_eq!((head, tail), (vec![1, 2], vec![3]));
    let (head, tail) = split_at_limit(vec![1, 2, 3], 9);
    assert_eq!((head, tail), (vec![1, 2, 3], vec![]));
}

// ---- bodies ----

fn design_row(path: &str, snippet: &str, full: i64, line: i64) -> DesignDocRow {
    DesignDocRow {
        doc_path: path.into(),
        heading_path: "H".into(),
        line_start: 1,
        line_end: 99,
        snippet: snippet.into(),
        full_chars: full,
        rank: 0,
        match_line: line,
    }
}

#[test]
fn bodies_stay_within_the_budget() {
    let fat = "x".repeat(5000);
    let rows: Vec<DesignDocRow> =
        (0..45).map(|i| design_row(&format!("/d/{i}.md"), &fat, 5000, i)).collect();
    let env = finish_design_doc_envelope(rows, 40, 45, false);
    assert_eq!(env.returned, 40);
    assert_eq!(env.tool, "find_design_doc");
    let total: usize = env.results.iter().map(|r| r.body.chars().count()).sum();
    assert!(total <= 16_000 + 1_201, "{total}");
    let dropped: Vec<_> = env.results.iter().filter(|r| r.body.is_empty()).collect();
    assert!(!dropped.is_empty());
    for r in dropped {
        assert!(r.body_truncated);
        assert_eq!(r.body_excerpt, format!("{}…", "x".repeat(200)));
    }
    for r in env.results.iter().filter(|r| !r.body.is_empty()) {
        assert_eq!(r.body.chars().count(), 1_201);
        assert!(r.body_excerpt.is_empty());
        assert!(r.body_truncated);
    }
    assert_eq!(env.returned_full_tokens, 40 * 5000 / 4);
    assert_eq!(env.also_matched.len(), 5);
    assert_eq!(env.also_matched[0].path, "/d/40.md");
    assert_eq!(env.also_matched[0].match_line, 40);
}

#[test]
fn a_whole_section_is_not_marked_truncated() {
    let env = finish_design_doc_envelope(vec![design_row("/d", "whole", 5, 3)], 10, 1, true);
    assert_eq!(env.results[0].body, "whole");
    assert!(!env.results[0].body_truncated);
    assert!(env.results[0].body_excerpt.is_empty());
    assert_eq!(env.results[0].match_line, 3);
    assert!(env.query_broadened);
    let negative = finish_design_doc_envelope(vec![design_row("/d", "x", -7, 3)], 10, 1, true);
    assert_eq!(negative.returned_full_tokens, 0);
    assert!(!negative.results[0].body_truncated);
}

#[test]
fn a_body_cut_by_one_character_is_marked_truncated() {
    let dense = "x".repeat(1_201);
    let env = finish_design_doc_envelope(vec![design_row("/d", &dense, 1_201, 3)], 10, 1, false);
    assert_eq!(env.results[0].body, format!("{}…", "x".repeat(1_200)));
    assert!(env.results[0].body_truncated);
}

fn code_row(repo: Option<&str>, path: &str, snippet: &str) -> CodeRow {
    CodeRow {
        repo_path: repo.map(str::to_string),
        path: path.into(),
        language: Some("rust".into()),
        snippet: snippet.into(),
        full_chars: 100,
        rank: 1,
        commit_sha: None,
        commit_summary: None,
        location: ChunkLocation {
            line_start: 10,
            line_end: 20,
            match_line: 12,
            status: "relocated".into(),
            line_shift: Some(3),
        },
    }
}

#[test]
fn code_hits_carry_their_place_and_point_at_openable_files() {
    let head = vec![code_row(Some("/ws/repo/"), "src/a.rs", "fn a() {}")];
    let tail = vec![
        CodePointer { repo_path: Some("/ws/repo".into()), path: "src/a.rs".into(), match_line: 1 },
        CodePointer { repo_path: Some("/ws/other".into()), path: "src/a.rs".into(), match_line: 2 },
        CodePointer { repo_path: None, path: "src/b.rs".into(), match_line: 3 },
    ];
    let env = finish_code_envelope(head, tail, 4, false);
    assert_eq!(env.tool, "find_code");
    let r = &env.results[0];
    assert_eq!((r.line_start, r.line_end, r.match_line), (10, 20, 12));
    assert_eq!((r.location.as_str(), r.line_shift), ("relocated", Some(3)));
    assert!(r.body_truncated);
    assert_eq!(env.returned_full_tokens, 25);
    let paths: Vec<&str> = env.also_matched.iter().map(|a| a.path.as_str()).collect();
    assert_eq!(paths, vec!["/ws/other/src/a.rs", "src/b.rs"]);
    assert_eq!(openable_path(&Some("/r//".into()), "x"), "/r/x");
}

#[test]
fn memory_bodies_are_whole_and_neighbourhoods_are_added() {
    let m = MemoryResult {
        path: "/m/a.md".into(),
        name: "a".into(),
        memory_type: "user".into(),
        description: None,
        body: "12345678".into(),
        rank: None,
    };
    let mut env = finish_memory_envelope(vec![m], 1, false);
    assert_eq!(env.tool, "find_memory");
    assert_eq!(env.returned_full_tokens, 2);
    let shape = RetrievalShape { top_rank: 1, rank_spread: 2, neighbourhood_matched: 3 };
    add_neighbourhood(&mut env, vec!["bushing".into()], Some(shape));
    assert_eq!(env.neighbourhood_terms, vec!["bushing"]);
    assert_eq!(env.retrieval_shape.unwrap().neighbourhood_matched, 3);
    assert_eq!(env.returned, 1);
}

#[test]
fn corpora_probe_their_own_tables_and_clocks() {
    let all = [
        (Corpus::SessionEdges, "session_edges", "edited_at"),
        (Corpus::CommitEntries, "commit_entries", "committed_at"),
        (Corpus::DesignDocSections, "design_doc_sections", "mtime"),
        (Corpus::MemoryEntries, "memory_entries", "mtime"),
        (Corpus::SourceChunks, "source_chunks", "mtime"),
    ];
    for (c, table, clock) in all {
        let (count, newest) = c.probe_sql();
        assert_eq!(count, format!("SELECT COUNT(*) FROM {table}"));
        assert!(newest.starts_with(&format!("SELECT MAX({clock}) FROM ")), "{newest}");
        assert!(!newest.contains("indexed_at") && !newest.contains("authored_at"));
    }
    assert_eq!(
        Corpus::MemoryEntries.probe_sql().1,
        "SELECT MAX(mtime) FROM documents WHERE kind = 'memory'"
    );
}

// ---- health ----

fn counts(session_entries: i64) -> IndexerCounts {
    IndexerCounts {
        documents: vec![("memory".into(), 2)],
        session_entries,
        session_edges: 5,
        memory_entries: 0,
        design_doc_sections: 0,
        source_chunks: 0,
        commit_entries: 0,
        indexed_repos: 0,
        search_index_total: 7,
    }
}

#[test]
fn retired_corpora_are_named_where_rows_survive() {
    assert!(retired_corpora(&counts(0)).is_none());
    let r = retired_corpora(&counts(3)).unwrap();
    assert_eq!(r.len(), 1);
    assert_eq!(r[0].corpus, "session_entries");
    assert_eq!(r[0].rows, 3);
    assert_eq!(r[0].superseded_by, "session_edges");
}

#[test]
fn adoption_is_rounded_to_a_tenth_of_a_percent() {
    assert!(compute_adoption(0, 0, 5, 5).is_none());
    let a = compute_adoption(4, 1, 2, 1).unwrap();
    assert_eq!(a.nibdex_share_tenths, 333);
    assert_eq!(compute_adoption(1, 0, 0, 0).unwrap().nibdex_share_tenths, 0);
    assert_eq!(compute_adoption(1, 1, 0, 9).unwrap().nibdex_share_tenths, 1000);
    for n in 0..200i64 {
        for rest in 1..60i64 {
            let tenths = (n as f64 * 1000.0 / (n + rest) as f64).round() as i64;
            assert_eq!(compute_adoption(1, 1, rest, n).unwrap().nibdex_share_tenths, tenths);
        }
    }
}

#[test]
fn orphans_are_counted_by_what_is_gone() {
    assert_eq!(compute_session_orphans(&SessionSource::NoDocument(3)), 3);
    assert_eq!(compute_session_orphans(&SessionSource::Unreadable(2)), 2);
    let src = SessionSource::Readable { live: vec![594, 618], stored: vec![594, 600, 601] };
    assert_eq!(compute_session_orphans(&src), 2);
    assert_eq!(missing_documents(&vec![(1, true), (2, false), (3, false)]), vec![2, 3]);
    assert_eq!(compute_repo_orphans(&vec![true, false, true]), 1);
    assert_eq!(
        OrphanChild::SourceChunk.count_sql(),
        "SELECT COUNT(*) FROM source_chunks WHERE document_id IN ("
    );
    assert_eq!(OrphanChild::DesignSection.document_kind(), "design_doc");
    assert_eq!(OrphanChild::Memory.table(), "memory_entries");
}

#[test]
fn percentiles_are_taken_per_operation() {
    let rows = vec![
        ("tool.find_session".to_string(), 9),
        ("tool.find_code".to_string(), 9),
        ("tool.find_code".to_string(), 5),
        ("tool.find_code".to_string(), 7),
    ];
    let (p50, p95) = compute_tool_percentiles(&rows);
    assert_eq!(p50, vec![("tool.find_code".to_string(), 7), ("tool.find_session".to_string(), 9)]);
    assert_eq!(p95, vec![("tool.find_code".to_string(), 9), ("tool.find_session".to_string(), 9)]);
}

#[test]
fn the_report_is_put_together() {
    let orphans = OrphanCounts {
        session_entries: 0,
        memory_entries: 0,
        design_doc_sections: 0,
        source_chunks: 0,
        indexed_repos: 0,
    };
    let rows = vec![("tool.check".to_string(), 4)];
    let r = assemble_check(
        77,
        counts(1),
        orphans,
        vec!["/shallow".into()],
        &rows,
        Vec::new(),
        None,
        None,
        None,
        "build".into(),
    );
    assert_eq!((r.schema_version, r.daemon_uptime_s), (1, 77));
    assert_eq!(r.perf_p95_ms, vec![("tool.check".to_string(), 4)]);
    assert!(r.retired_corpora.is_some());
    assert_eq!(r.build, "build");
}

#[test]
fn the_tables_of_the_report_are_in_order() {
    let window = |tools: &[&str]| CostSavingsWindow {
        queries_served: 1,
        tokens_returned: 2,
        counterfactual_tokens_p50: 3,
        tokens_saved_p50: 4,
        dollars_saved_p50_usd: 0,
        per_tool: tools
            .iter()
            .enumerate()
            .map(|(i, t)| {
                let queries = i as i64;
                let saved = CostSavingsPerTool {
                    queries,
                    tokens_saved_p50: 0,
                    dollars_saved_p50_usd: 0,
                };
                (t.to_string(), saved)
            })
            .collect(),
    };
    let mut indexer = counts(0);
    indexer.documents =
        vec![("source".into(), 1), ("memory".into(), 2), ("Z".into(), 3), ("source".into(), 4)];
    let orphans = OrphanCounts {
        session_entries: 0,
        memory_entries: 0,
        design_doc_sections: 0,
        source_chunks: 0,
        indexed_repos: 0,
    };
    let r = assemble_check(
        0,
        indexer,
        orphans,
        Vec::new(),
        &Vec::new(),
        vec![("extract.b".into(), 1), ("extract.a".into(), 2)],
        None,
        Some(CostSavingsLedger {
            calibration_model_version: "v".into(),
            window_1d: window(&["b", "a", "b"]),
            window_7d: window(&[]),
            window_30d: window(&["c"]),
        }),
        None,
        "build".into(),
    );
    let documents: Vec<(String, i64)> =
        vec![("Z".into(), 3), ("memory".into(), 2), ("source".into(), 4)];
    assert_eq!(r.indexer.documents, documents, "the last of a name counts");
    assert_eq!(r.extractors_last_run_ms[0], ("extract.a".to_string(), 2));
    let day = r.cost_savings.unwrap().window_1d;
    let tools: Vec<(&str, i64)> =
        day.per_tool.iter().map(|(t, s)| (t.as_str(), s.queries)).collect();
    assert_eq!(tools, vec![("a", 1), ("b", 2)]);
}

// ---- telemetry ----

fn member<'a>(j: &'a Json, key: &str) -> &'a Json {
    j.get(key).expect("member")
}

fn stages() -> Stages {
    Stages { fts5_query_ms: 1, rank_ms: 2, join_ms: 3, shape_response_ms: 4 }
}

#[test]
fn success_events_record_the_search_path_only() {
    let e = success_event(
        "t".into(),
        "find_session",
        Some("q"),
        search_params_json("qü", None, Some(5)),
        &stages(),
        12,
        42,
        10,
        99,
        true,
        true,
        "12345678901",
        60,
        None,
    );
    assert_eq!(e.schema_version, 1);
    assert_eq!(e.result_token_estimate, 2);
    assert_eq!(e.query_broadened, Some(true));
    assert_eq!(e.returned_full_tokens, Some(99));
    assert_eq!(e.calibration_confidence, "estimated");
    assert!(e.outcome.is_none() && e.error.is_none() && e.tokens_saved_p50.is_none());
    assert_eq!(format!("{:?}", member(&e.candidate_count, "fts5")), "Num(Unsigned(42))");
    assert_eq!(format!("{:?}", member(&e.stages_ms, "shape_response")), "Num(Unsigned(4))");
    assert_eq!(format!("{:?}", member(&e.params, "query_len")), "Num(Unsigned(3))");

    let off = success_event(
        "t".into(),
        "check",
        None,
        Json::Obj(Vec::new()),
        &Stages::default(),
        1,
        42,
        0,
        99,
        false,
        false,
        "",
        60,
        None,
    );
    assert_eq!(off.query_broadened, None);
    assert_eq!(off.returned_full_tokens, None);
    assert_eq!(format!("{:?}", member(&off.candidate_count, "fts5")), "Num(Unsigned(0))");
}

#[test]
fn error_events_are_zeroed_and_bucketed() {
    let long = format!("no such column: {}", "x".repeat(600));
    let e = error_event(
        "t".into(),
        "recent_commits",
        Some("f"),
        recent_params_json(true, Some(false), None, None),
        &stages(),
        3,
        9,
        &long,
    );
    assert_eq!(e.outcome.as_deref(), Some("error"));
    let d = e.error.unwrap();
    assert_eq!(d.kind, "fts5_syntax");
    assert_eq!(d.message.chars().count(), 500);
    assert_eq!(e.result_token_estimate, 0);
    assert_eq!(e.query_broadened, None);
    assert_eq!(format!("{:?}", member(&e.params, "days")), "Num(Unsigned(30))");
    assert!(matches!(member(&e.params, "limit_requested"), Json::Null));
    assert!(matches!(member(&e.params, "repo_set"), Json::Bool(false)));
}

#[test]
fn callers_are_told_which_tool_failed() {
    assert_eq!(tool_error("find_code", "database is locked"), "find_code: database is locked");
    assert!(tool_error("find_code", "fts5: syntax error near \"\"").starts_with("find_code: the query"));
    assert!(is_false(&false) && !is_false(&true));
}

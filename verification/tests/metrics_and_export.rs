use nibdex::json::{Json, JsonNumber};
use nibdex::mcp::types::{CheckResult, FileWatcherStats, IndexerCounts, OrphanCounts};
use nibdex::metrics::{rss_delta, Op};
use nibdex::metrics_export::{
    build_legend, count_bucket, export_rows, filter_safe_keys, had_fts5_operators, is_safe_map_key,
    length_bucket, run_export, scrub_row, scrub_snapshot, window_start,
};
use nibdex::metrics_sink::{
    classify_handler_error, jsonl_spec, token_estimate_from_serialized, truncate_error_message,
    MetricsSinkSpec,
};
use nibdex::time::Moment;

// ---- buckets and names ----

#[test]
fn count_bucket_ladder_edges() {
    assert_eq!(count_bucket(0), "0");
    assert_eq!(count_bucket(1), "1");
    assert_eq!(count_bucket(2), "2-3");
    assert_eq!(count_bucket(3), "2-3");
    assert_eq!(count_bucket(4), "4-7");
    assert_eq!(count_bucket(63), "32-63");
    assert_eq!(count_bucket(64), "64-127");
    assert_eq!(count_bucket(1023), "512-1023");
    assert_eq!(count_bucket(1024), "1024-4095");
    assert_eq!(count_bucket(65535), "16384-65535");
    assert_eq!(count_bucket(65536), "65536+");
    assert_eq!(count_bucket(10_000_000), "65536+");
    assert_eq!(count_bucket(-5), "0");
}

#[test]
fn length_bucket_uses_the_same_ladder() {
    assert_eq!(length_bucket(20), count_bucket(20));
    assert_eq!(length_bucket(20), "16-31");
}

#[test]
fn fts5_operator_detection() {
    assert!(!had_fts5_operators("plain two terms"));
    assert!(had_fts5_operators("foo OR bar"));
    assert!(had_fts5_operators("foo NOT bar"));
    assert!(had_fts5_operators("foo NEAR/3 bar"));
    assert!(had_fts5_operators("\"quoted phrase\""));
    assert!(had_fts5_operators("prefix*"));
    assert!(had_fts5_operators("col:term"));
    assert!(!had_fts5_operators("apples or oranges"));
}

#[test]
fn safe_map_key_accepts_nibdex_keys_rejects_ip() {
    for k in ["session_history", "memory", "design_doc", "tool.find_session", "extract.commits"] {
        assert!(is_safe_map_key(k), "should accept {k}");
    }
    for k in [
        "/Users/x/secret-proj", "acme-dashboard", "Formsvc", "two words", "", &"x".repeat(65),
    ] {
        assert!(!is_safe_map_key(k), "should reject {k:?}");
    }
}

#[test]
fn every_entry_is_kept_or_counted() {
    let m = vec![
        ("tool.a".to_string(), 1),
        ("/evil".to_string(), 2),
        ("x".to_string(), 3),
        ("Y".to_string(), 4),
    ];
    let (kept, dropped) = filter_safe_keys(&m);
    assert_eq!(kept, vec![("tool.a".to_string(), 1), ("x".to_string(), 3)]);
    assert_eq!(dropped, 2);
}

// ---- rows ----

const SENSITIVE: &str = r#"{
    "schema_version": 1,
    "ts": "2026-06-04T11:00:00.123Z",
    "tool": "find_session",
    "query": "acme-dashboard formsvc-cf",
    "params": { "query_len": 25, "limit_requested": 10 },
    "wall_ms": 7,
    "stages_ms": { "fts5_query": 2, "rank": 1, "join": 3, "shape_response": 1 },
    "candidate_count": { "fts5": 0, "after_rank": 0 },
    "result_token_estimate": 120,
    "cache_hit": null,
    "daemon_uptime_s": 4242,
    "calibration_confidence": "estimated",
    "query_broadened": true,
    "outcome": "error",
    "error": { "kind": "fts5_syntax", "message": "no such column: dashboard" }
}"#;

/// The sensitive row with one member replaced.
fn sensitive_with(changes: &[(&str, &str)]) -> Json {
    let mut fields: Vec<(String, Json)> = changes
        .iter()
        .map(|(k, v)| (k.to_string(), Json::parse(v).expect("value")))
        .collect();
    match Json::parse(SENSITIVE).expect("row") {
        Json::Obj(v) => fields.extend(v),
        _ => unreachable!(),
    }
    Json::Obj(fields)
}

#[test]
fn scrub_row_drops_query_text_message_and_ts() {
    let row = scrub_row(&sensitive_with(&[]));
    let s = format!("{row:?}");
    assert!(!s.contains("acme"), "leaked query codename: {s}");
    assert!(!s.contains("dashboard"), "leaked query/message term: {s}");
    assert!(!s.contains("formsvc"), "leaked query codename: {s}");
    assert!(!s.contains("no such column"), "leaked error message: {s}");
    assert!(!s.contains("2026"), "ts must be dropped");

    let shape = row.query_shape.as_ref().expect("a query leaves a shape");
    assert_eq!(shape.term_count, "2-3");
    assert_eq!(shape.length_bucket, "16-31");
    assert!(shape.and_matched_zero);
    assert_eq!(row.query_broadened, Some(true));
    assert_eq!(row.error.as_ref().unwrap().kind, "fts5_syntax");
    assert_eq!(row.outcome.as_deref(), Some("error"));
    assert_eq!(row.wall_ms, 7);
    assert_eq!(row.stages_ms.join, 3);
    assert_eq!(row.params.limit_requested, Some(10));
    assert_eq!(row.daemon_uptime_s, 4242);
    assert_eq!(row.cache_hit, None);
}

#[test]
fn scrub_row_clamps_unknown_error_kind_to_unknown() {
    let raw = sensitive_with(&[(
        "error",
        r#"{ "kind": "no such column: acme_dashboard_q3", "message": "x" }"#,
    )]);
    let row = scrub_row(&raw);
    assert_eq!(row.error.as_ref().unwrap().kind, "unknown");
    let s = format!("{row:?}");
    assert!(!s.contains("acme"), "leaked codename via error.kind: {s}");
    let raw = sensitive_with(&[("error", r#"{ "kind": "sqlite", "message": "x" }"#)]);
    assert_eq!(scrub_row(&raw).error.unwrap().kind, "sqlite");
}

#[test]
fn scrub_row_drops_tampered_literal_fields() {
    let raw = sensitive_with(&[
        ("tool", r#""/Users/x/secret-proj""#),
        ("outcome", r#""acme-dashboard""#),
        ("calibration_confidence", r#""formsvc-cf""#),
        ("params", r#"{ "filter_set": "acme", "days": "formsvc", "limit_requested": {} }"#),
    ]);
    let row = scrub_row(&raw);
    let s = format!("{row:?}");
    assert_eq!(row.tool, "unknown");
    assert!(row.outcome.is_none(), "tampered outcome must be dropped");
    assert_eq!(row.calibration_confidence, "estimated");
    assert!(row.params.filter_set.is_none());
    assert!(row.params.days.is_none());
    assert!(!s.contains("acme") && !s.contains("formsvc") && !s.contains("secret-proj"), "leak: {s}");
}

#[test]
fn scrub_row_preserves_signed_loss() {
    let raw = sensitive_with(&[("tokens_saved_p50", "-1234"), ("dollars_saved_p50_usd", "-0.05")]);
    let row = scrub_row(&raw);
    assert_eq!(row.tokens_saved_p50, Some(-1234), "a loss must survive");
    assert_eq!(row.dollars_saved_p50_usd, Some(JsonNumber::Float((-0.05f64).to_bits())));
}

#[test]
fn scrub_row_without_query_omits_shape() {
    let raw = Json::parse(
        r#"{
        "schema_version": 1, "ts": "2026-06-04T11:00:00Z", "tool": "check",
        "params": {}, "wall_ms": 1,
        "stages_ms": { "fts5_query": 0, "rank": 0, "join": 0, "shape_response": 1 },
        "candidate_count": { "fts5": 0, "after_rank": 0 },
        "result_token_estimate": 0, "daemon_uptime_s": 10,
        "calibration_confidence": "estimated"
    }"#,
    )
    .unwrap();
    let row = scrub_row(&raw);
    assert!(row.query_shape.is_none(), "no query, no shape");
    assert!(row.query_broadened.is_none());
}

#[test]
fn members_that_are_not_allowed_change_nothing() {
    let plain = format!("{:?}", scrub_row(&sensitive_with(&[])));
    let odd = sensitive_with(&[("codename", "\"secret\""), ("ts", "\"1999-01-01T00:00:00Z\"")]);
    assert_eq!(format!("{:?}", scrub_row(&odd)), plain);
    // Two queries of one shape look alike.
    let a = format!("{:?}", scrub_row(&sensitive_with(&[("query", "\"alpha beta-x\"")])));
    let b = format!("{:?}", scrub_row(&sensitive_with(&[("query", "\"gamma delt-y\"")])));
    assert_eq!(a, b);
}

#[test]
fn a_query_without_recorded_length_is_measured() {
    let raw = sensitive_with(&[("params", "{}"), ("query", "\"매출 총이익\"")]);
    let shape = scrub_row(&raw).query_shape.unwrap();
    assert_eq!(shape.length_bucket, "4-7");
    assert_eq!(shape.term_count, "2-3");
    assert!(!shape.had_fts5_operators);
}

// ---- the report ----

fn check_result() -> CheckResult {
    CheckResult {
        schema_version: 1,
        daemon_uptime_s: 0,
        indexer: IndexerCounts {
            documents: vec![
                ("/Users/you/work/acme-dashboard".to_string(), 1),
                ("session_history".to_string(), 3),
            ],
            session_entries: 3,
            session_edges: 0,
            memory_entries: 0,
            design_doc_sections: 0,
            source_chunks: 0,
            commit_entries: 0,
            indexed_repos: 0,
            search_index_total: 3,
        },
        orphans: OrphanCounts {
            session_entries: 0,
            memory_entries: 0,
            design_doc_sections: 0,
            source_chunks: 0,
            indexed_repos: 0,
        },
        shallow_repos: vec![],
        perf_p50_ms: vec![
            ("/evil/path".to_string(), 9),
            ("tool.find_session".to_string(), 5),
        ],
        perf_p95_ms: vec![],
        file_watcher: None,
        extractors_last_run_ms: vec![],
        cost_savings: None,
        build: "build".to_string(),
        retired_corpora: None,
        adoption: None,
    }
}

#[test]
fn scrub_snapshot_drops_unsafe_map_keys() {
    let check = check_result();
    let (snap, dropped) = scrub_snapshot(&check);
    assert_eq!(dropped, 2, "the path-shaped documents key + the /evil/path perf key");
    let s = format!("{snap:?}");
    assert!(!s.contains("acme"), "leaked a documents key: {s}");
    assert!(!s.contains("evil"), "leaked a perf key: {s}");
    assert_eq!(snap.indexer.documents, vec![("session_history".to_string(), "2-3".to_string())]);
    assert_eq!(snap.perf_p50_ms, vec![("tool.find_session".to_string(), 5)]);
}

#[test]
fn paths_and_times_become_counts() {
    let mut check = check_result();
    check.shallow_repos = vec!["/path/to/repo".to_string(), "/other".to_string()];
    check.file_watcher = Some(FileWatcherStats {
        events_total: 1,
        events_coalesced_total: 2,
        last_event_ts: Some(1700000000),
        subscriptions: vec!["/watched/path".to_string()],
    });
    let (snap, _) = scrub_snapshot(&check);
    let s = format!("{snap:?}");
    assert_eq!(snap.shallow_repo_count, 2);
    assert_eq!(snap.file_watcher.unwrap().subscription_count, 1);
    assert!(!s.contains("watched") && !s.contains("1700000000") && !s.contains("build"), "{s}");
}

// ---- the stream ----

fn stream() -> String {
    [
        r#"{"schema_version":1,"ts":"2026-06-04T11:00:00.000Z","tool":"find_session","query":"acme dashboard","params":{"query_len":15},"candidate_count":{"fts5":2,"after_rank":2},"tokens_saved_p50":5000}"#,
        r#"{"schema_version":1,"ts":"2026-06-04T11:00:00.000Z","tool":"find_memory","query":"formsvc-cf","candidate_count":{"fts5":0,"after_rank":0},"outcome":"error","error":{"kind":"fts5_syntax","message":"no such column: formsvc"}}"#,
        "",
        r#"{"schema_version":1,"ts":"2026-06-04T11:00:00.000Z","tool":"find_commit","query":"zeta","query_broadened":true,"tokens_saved_p50":-1200,"dollars_saved_p50_usd":-0.03}"#,
        r#"  {"schema_version":1,"ts":"2020-01-01T00:00:00Z","tool":"find_session","query":"OLDSECRET"}  "#,
        r#"{"tool":"check","ts":"yesterday"}"#,
    ]
    .join("\n")
}

/// 2026-06-04T12:00:00Z.
const NOW: Moment = Moment { secs: 1780574400, nanos: 0 };

#[test]
fn the_window_keeps_losses_and_says_what_it_left_out() {
    let (bundle, summary) =
        run_export(&check_result(), &stream(), Some(1), NOW, "docs/export.md", "/tmp/out.json")
            .expect("export");
    assert_eq!(summary.rows_total, 5);
    assert_eq!(summary.rows_in_window, 4, "the 2020 row is out of the 1d window");
    assert_eq!(summary.rows_unparseable_ts, 1);
    assert_eq!(summary.error_rows, 1);
    assert_eq!(summary.loss_rows, 1);
    assert_eq!(summary.dropped_unsafe_keys, 2);
    assert_eq!(summary.out_path, "/tmp/out.json");
    assert_eq!(bundle.nibdex_metrics_export.format_version, 1);
    assert_eq!(bundle.nibdex_metrics_export.window_days, Some(1));
    assert_eq!(bundle.nibdex_metrics_export.scrub_spec, "docs/export.md");
    let s = format!("{:?}", bundle.calls);
    for needle in ["acme", "dashboard", "formsvc", "no such column", "OLDSECRET", "zeta"] {
        assert!(!s.contains(needle), "payload leaked {needle:?}");
    }
    let loss = bundle.calls.iter().find(|c| c.tool == "find_commit").unwrap();
    assert_eq!(loss.tokens_saved_p50, Some(-1200));
    assert_eq!(loss.query_broadened, Some(true));
    assert!(loss.query_shape.as_ref().unwrap().and_matched_zero);
}

#[test]
fn without_a_window_every_row_is_kept() {
    let rows = export_rows(&stream(), None).unwrap();
    assert_eq!((rows.rows_total, rows.calls.len(), rows.rows_unparseable_ts), (5, 5, 0));
}

#[test]
fn the_window_is_cut_to_the_nanosecond() {
    let at = |nanos: u32| Some(Moment { secs: 1780574400, nanos });
    let line = r#"{"tool":"check","ts":"2026-06-04T12:00:00.500Z"}"#;
    assert_eq!(export_rows(line, at(500_000_000)).unwrap().calls.len(), 1);
    assert_eq!(export_rows(line, at(500_000_001)).unwrap().calls.len(), 0);
    // An offset is applied before the comparison.
    let east = r#"{"tool":"check","ts":"2026-06-04T14:00:00+02:00"}"#;
    assert_eq!(export_rows(east, at(0)).unwrap().calls.len(), 1);
    assert_eq!(export_rows(east, at(1)).unwrap().calls.len(), 0);
    let start = window_start(Some(2), NOW).unwrap();
    assert_eq!(start.secs, NOW.secs - 172_800);
    assert!(window_start(None, NOW).is_none());
}

#[test]
fn a_bad_line_is_named() {
    let err = export_rows("{\"tool\":\"check\"}\n  {broken  \n", None).unwrap_err();
    assert_eq!(err.line, "{broken");
    let raw = "\n{\"tool\":\"check\"}\n \n{first\n{second\n";
    let err = run_export(&check_result(), raw, None, NOW, "docs/export.md", "/o").unwrap_err();
    assert_eq!(err.line, "{first", "a blank line is no bad line, and the first one is named");
}

#[test]
fn the_legend_explains_every_figure() {
    let legend = build_legend();
    assert_eq!(legend.len(), 20);
    let saved = legend.iter().find(|e| e.key == "calls[].tokens_saved_p50").unwrap();
    assert_eq!((saved.units.as_str(), saved.confidence.as_str()), ("tokens", "estimated"));
    assert!(legend.iter().all(|e| ["measured", "derived", "estimated"].contains(&e.confidence.as_str())));
}

// ---- the sink ----

#[test]
fn metrics_sink_spec_from_str_round_trip() {
    assert_eq!("off".parse::<MetricsSinkSpec>().unwrap(), MetricsSinkSpec::Off);
    assert_eq!("stdout".parse::<MetricsSinkSpec>().unwrap(), MetricsSinkSpec::Stdout);
    assert_eq!(
        "jsonl:/tmp/x.jsonl".parse::<MetricsSinkSpec>().unwrap(),
        MetricsSinkSpec::Jsonl("/tmp/x.jsonl".to_string())
    );
    let err = "jsonl:".parse::<MetricsSinkSpec>().unwrap_err();
    assert!(err.message().contains("requires a path"), "unexpected error: {err:?}");
    let err = "garbage".parse::<MetricsSinkSpec>().unwrap_err();
    let msg = err.message();
    assert!(
        msg.contains("off") && msg.contains("stdout") && msg.contains("jsonl"),
        "unexpected error: {msg}"
    );
}

#[test]
fn sink_paths_are_kept_as_they_are() {
    assert_eq!(MetricsSinkSpec::parse("jsonl: a b "), Ok(jsonl_spec(" a b ")));
    assert!(MetricsSinkSpec::parse("jsonl:  \t").is_err());
    assert!(MetricsSinkSpec::parse("OFF").is_err());
    assert_eq!(
        MetricsSinkSpec::parse("x").unwrap_err().message(),
        "--metrics-sink expects `off`, `stdout`, or `jsonl:<path>` (got `x`)"
    );
}

#[test]
fn classify_handler_error_buckets() {
    let cases = [
        ("no such column: 7", "fts5_syntax"),
        ("fts5: syntax error near \"-\"", "fts5_syntax"),
        ("malformed MATCH expression", "fts5_syntax"),
        ("unrecognized token: \"-\"", "fts5_syntax"),
        ("syntax error near 'WHERE'", "fts5_syntax"),
        ("sqlx error: connection refused", "sqlite"),
        ("SQLite: database is locked", "sqlite"),
        ("database table not found", "sqlite"),
        ("unexpected None during shape_response", "internal"),
        ("anyhow: shutdown signal during fetch", "internal"),
    ];
    for (msg, expected) in cases {
        assert_eq!(classify_handler_error(msg), expected, "msg={msg:?} expected={expected}");
    }
}

#[test]
fn an_unclosed_quote_is_a_syntax_error() {
    let msg = "error returned from database: (code: 1) unterminated string";
    assert_eq!(classify_handler_error(msg), "fts5_syntax");
    assert_eq!(classify_handler_error("Unterminated String"), "fts5_syntax");
}

#[test]
fn truncate_error_message_honors_500_char_cap() {
    assert_eq!(truncate_error_message("short"), "short");
    let exact = "a".repeat(500);
    assert_eq!(truncate_error_message(&exact).chars().count(), 500);
    let big = "b".repeat(600);
    assert_eq!(truncate_error_message(&big).chars().count(), 500);
    let multi = "\u{0444}".repeat(600);
    assert_eq!(truncate_error_message(&multi).chars().count(), 500);
}

#[test]
fn four_characters_make_a_token() {
    assert_eq!(token_estimate_from_serialized(""), 0);
    assert_eq!(token_estimate_from_serialized("abc"), 0);
    assert_eq!(token_estimate_from_serialized("매출총이익!!!"), 2);
}

// ---- operations ----

#[test]
fn operations_record_the_change_of_memory() {
    assert_eq!(rss_delta(Some(10), Some(4)), Some(-6));
    assert_eq!(rss_delta(None, Some(4)), None);
    let r = Op::start("tool.check".into(), 5, Some(100)).complete(7, Some(150), None, Some(3), "{}".into());
    assert_eq!(r.rss_delta_bytes, Some(50));
    assert_eq!(r.rss_after_bytes, Some(150));
    assert_eq!((r.started_at, r.duration_ms, r.rows_out), (5, 7, Some(3)));
    assert!(r.error.is_none());
    let e = Op::start("x".into(), 5, None).complete_err(7, Some(1), "boom".into());
    assert_eq!(e.error.as_deref(), Some("boom"));
    assert_eq!(e.rss_delta_bytes, None);
    assert_eq!(e.extra_json, "{}");
}

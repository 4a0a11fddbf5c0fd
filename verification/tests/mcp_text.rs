use nibdex::mcp::format::{
    annotate_empty_result, build_commit_result, build_session_edge_result, envelope,
    finish_commit_envelope, finish_session_edge_envelope, parse_json_array, percentile, summarize,
    CommitRow, SessionEdgeRow,
};
use nibdex::mcp::fts5::{
    explain_query_error, fts5_or_broadened, like_substring, match_count_with_or_fallback,
    retry_query, sanitize_fts5_query,
};
use nibdex::mcp::neighbourhood::{
    best_terms, eligible_terms, is_candidate, local_frequencies, neighbourhood_query,
    neighbourhood_terms, tokenize,
};
use nibdex::json::Json;
use nibdex::time::{parse_rfc3339, unix_to_iso};

// ---- the query language ----

#[test]
fn fts5_or_broadened_rules() {
    assert_eq!(
        fts5_or_broadened("memory rustFetch", "memory rustFetch").as_deref(),
        Some("memory OR rustFetch")
    );
    assert_eq!(
        fts5_or_broadened("acme-dashboard schedule", "\"acme-dashboard\" schedule").as_deref(),
        Some("\"acme-dashboard\" OR schedule")
    );
    assert_eq!(fts5_or_broadened("memory", "memory"), None);
    assert_eq!(fts5_or_broadened("memory OR bb8", "memory OR bb8"), None);
    assert_eq!(fts5_or_broadened("memory NOT bb8", "memory NOT bb8"), None);
    assert_eq!(fts5_or_broadened("\"exact phrase\"", "\"exact phrase\""), None);
    assert_eq!(fts5_or_broadened("(a b)", "(a b)"), None);
    assert_eq!(fts5_or_broadened("title:foo bar", "title:foo bar"), None);
    assert_eq!(fts5_or_broadened("+must other", "+must other"), None);
}

#[test]
fn sanitize_fts5_quotes_only_parser_hostile_tokens() {
    assert_eq!(
        sanitize_fts5_query("acme-dashboard production schedule revenue"),
        "\"acme-dashboard\" production schedule revenue"
    );
    assert_eq!(sanitize_fts5_query("formsvc-cf"), "\"formsvc-cf\"");
    assert_eq!(sanitize_fts5_query("v0.1.316"), "\"v0.1.316\"");
    assert_eq!(sanitize_fts5_query("bb8 OR rustFetch"), "bb8 OR rustFetch");
    assert_eq!(sanitize_fts5_query("production NOT schedule"), "production NOT schedule");
    assert_eq!(sanitize_fts5_query("hydrat*"), "hydrat*");
    assert_eq!(
        sanitize_fts5_query("NEAR(production schedule, 5)"),
        "NEAR(production schedule, 5)"
    );
    assert_eq!(
        sanitize_fts5_query("\"acme-dashboard\" income"),
        "\"acme-dashboard\" income"
    );
    assert_eq!(sanitize_fts5_query("\"unclosed"), "\"unclosed");
}

#[test]
fn sanitizing_a_sanitized_query_changes_nothing() {
    for q in ["  a-b   c.d e ", "v0.1 OR x", "", "\u{a0}ü-x\u{3000}y"] {
        let once = sanitize_fts5_query(q);
        assert_eq!(sanitize_fts5_query(&once), once);
    }
    assert_eq!(sanitize_fts5_query("\u{a0}ü-x\u{3000}y"), "\"ü-x\" y");
    assert_eq!(sanitize_fts5_query("   "), "");
}

#[test]
fn quoted_phrases_go_through_untouched() {
    let phrase = "\"the acme-dashboard view\" v0.1";
    assert_eq!(sanitize_fts5_query(phrase), "\"the acme-dashboard view\" \"v0.1\"");
    assert_eq!(sanitize_fts5_query("\"unclosed a-b c"), "\"unclosed a-b c");
}

#[test]
fn a_retry_is_made_only_after_an_empty_search() {
    assert_eq!(retry_query("a b", "a b", 0).as_deref(), Some("a OR b"));
    assert_eq!(retry_query("a b", "a b", 3), None);
    assert_eq!(retry_query("a AND b", "a AND b", 0), None);

    let hit = match_count_with_or_fallback("a b", 0, Some(("a OR b".to_string(), 4)));
    assert_eq!((hit.query.as_str(), hit.total, hit.broadened), ("a OR b", 4, true));
    let miss = match_count_with_or_fallback("a b", 0, Some(("a OR b".to_string(), 0)));
    assert_eq!((miss.query.as_str(), miss.total, miss.broadened), ("a b", 0, false));
    let strict = match_count_with_or_fallback("a b", 7, None);
    assert_eq!((strict.query.as_str(), strict.total, strict.broadened), ("a b", 7, false));
}

#[test]
fn like_substring_escapes_wildcards() {
    let s = like_substring("my_repo");
    assert!(s.contains("\\_"));
    let s = like_substring("100%");
    assert!(s.contains("\\%"));
}

#[test]
fn like_patterns_are_exact() {
    assert_eq!(like_substring("my_repo"), "%my\\_repo%");
    assert_eq!(like_substring("a\\b%c"), "%a\\\\b\\%c%");
    assert_eq!(like_substring(""), "%%");
}

#[test]
fn a_malformed_query_error_tells_the_caller_how_to_fix_it() {
    let raw = "error returned from database: (code: 1) fts5: syntax error near \"\"";
    let explained = explain_query_error(raw);
    assert!(explained.contains("FTS5"), "{explained}");
    assert!(explained.contains('"'), "{explained}");
    assert!(explained.contains("NOT an empty or broken index"), "{explained}");
    for leak in ["sqlx", "code: 1", "error returned from database"] {
        assert!(!explained.contains(leak), "{leak}: {explained}");
    }
}

#[test]
fn a_real_database_failure_is_not_rewritten_as_a_syntax_complaint() {
    for real in [
        "error returned from database: disk I/O error",
        "no such table: source_chunks",
        "database is locked",
    ] {
        assert_eq!(explain_query_error(real), real);
    }
}

#[test]
fn syntax_complaints_are_recognised_in_any_case() {
    for msg in ["FTS5: Phrase queries", "Unterminated String", "No Such Column: cf"] {
        assert!(explain_query_error(msg).starts_with("the query is not valid FTS5 MATCH syntax."));
    }
}

// ---- excerpts ----

#[test]
fn summarize_short_body_returns_whole() {
    assert_eq!(summarize("short", 200), "short");
}

#[test]
fn summarize_long_body_truncates_on_word_boundary() {
    let body = "a".repeat(150) + " " + &"b".repeat(150);
    let out = summarize(&body, 200);
    assert!(out.chars().count() <= 201);
    assert!(out.ends_with('…'));
}

#[test]
fn summarize_truncates_on_the_word_boundary_itself() {
    let body = format!("{} {}", "a".repeat(150), "b".repeat(150));
    let out = summarize(&body, 200);
    assert_eq!(out, format!("{}…", "a".repeat(150)), "cut at the space, not at 200");
    let dense = "x".repeat(400);
    assert_eq!(summarize(&dense, 200), format!("{}…", "x".repeat(200)));
    let early = format!("ab {}", "c".repeat(400));
    assert_eq!(summarize(&early, 200).chars().count(), 201);
    assert!(summarize(&early, 200).starts_with("ab c"));
    assert_eq!(summarize("short", 200), "short");
}

#[test]
fn summarize_counts_characters_and_not_bytes() {
    // The space is the 51st of 200 characters: before the middle, so the cut is hard.
    let body = format!("{} {}", "가".repeat(50), "나".repeat(300));
    assert_eq!(
        summarize(&body, 200),
        format!("{} {}…", "가".repeat(50), "나".repeat(149))
    );
    let late = format!("{} {}", "가".repeat(150), "나".repeat(300));
    assert_eq!(summarize(&late, 200), format!("{}…", "가".repeat(150)));
    assert_eq!(summarize("", 0), "");
    assert_eq!(summarize("ab", 0), "…");
}

// ---- columns, times, percentiles ----

#[test]
fn percentile_nearest_rank_matches_design() {
    let v = vec![1_i64, 2, 3, 4, 5, 6, 7, 8, 9, 10];
    assert_eq!(percentile(&v, 50), 6);
    assert_eq!(percentile(&v, 95), 10);
    assert_eq!(percentile(&v, 0), 1);
}

#[test]
fn percentile_agrees_with_rounding_in_floating_point() {
    for n in 1..400usize {
        let v: Vec<i64> = (0..n as i64).collect();
        for (percent, q) in [(50u32, 0.50f64), (95, 0.95)] {
            let idx = ((n - 1) as f64 * q).round() as usize;
            assert_eq!(percentile(&v, percent), idx as i64, "n={n} percent={percent}");
        }
    }
    assert_eq!(percentile(&[], 50), 0);
    assert_eq!(percentile(&[1, 2, 3], 400), 3);
}

#[test]
fn unix_to_iso_round_trips_known_epoch() {
    assert_eq!(unix_to_iso(0), "1970-01-01T00:00:00Z");
    assert_eq!(unix_to_iso(1700000000), "2023-11-14T22:13:20Z");
}

#[test]
fn times_read_back_up_to_the_year_9999() {
    for t in [0, 1, 951_782_400, 1700000000, 253402300799] {
        assert_eq!(parse_rfc3339(&unix_to_iso(t)), Some(t));
    }
    assert_eq!(unix_to_iso(253402300799), "9999-12-31T23:59:59Z");
    // Beyond the years that can be told, the bare count is shown.
    assert_eq!(unix_to_iso(i64::MAX), format!("@{}", i64::MAX));
    assert_eq!(unix_to_iso(i64::MIN), format!("@{}", i64::MIN));
}

#[test]
fn json_columns_are_decoded_or_kept_as_text() {
    assert!(matches!(parse_json_array(None), Json::Null));
    assert!(matches!(parse_json_array(Some("")), Json::Null));
    match parse_json_array(Some("[\"src/a.rs\",\"b\"]")) {
        Json::Arr(v) => assert_eq!(v.len(), 2),
        other => panic!("{other:?}"),
    }
    match parse_json_array(Some("not json")) {
        Json::Str(s) => assert_eq!(s, "not json"),
        other => panic!("{other:?}"),
    }
}

// ---- rows and envelopes ----

fn edge_row(hash: Option<&str>) -> SessionEdgeRow {
    SessionEdgeRow {
        session_id: "s".into(),
        tool: "Edit".into(),
        file_path: "src/a.rs".into(),
        repo_path: Some("/ws".into()),
        git_branch: None,
        edited_at: 1700000000,
        rationale: "because it was wrong".into(),
        commit_hash_full: hash.map(str::to_string),
        commit_summary: Some("fix".into()),
    }
}

#[test]
fn session_edges_carry_time_and_short_hash() {
    let r = build_session_edge_result(edge_row(Some("0123456789abcdef")), Some(7));
    assert_eq!(r.edited_at_iso, "2023-11-14T22:13:20Z");
    assert_eq!(r.edited_at_unix, 1700000000);
    assert_eq!(r.commit_hash.as_deref(), Some("0123456"));
    assert_eq!(r.commit_hash_full.as_deref(), Some("0123456789abcdef"));
    assert_eq!(r.rank, Some(7));
    let unbound = build_session_edge_result(edge_row(None), None);
    assert_eq!(unbound.commit_hash, None);

    let env = finish_session_edge_envelope(vec![r, unbound], 9, "find_session", true);
    assert_eq!((env.total_matched, env.returned), (9, 2));
    assert_eq!(env.tool, "find_session");
    assert!(env.query_broadened);
    assert_eq!(env.returned_full_tokens, 10); // two rationales of 20 characters
    assert_eq!(env.corpus_empty, None);
}

#[test]
fn commits_are_decoded_and_sized_by_their_messages() {
    let row = CommitRow {
        commit_hash_full: "abc".into(),
        repo_path: "/ws".into(),
        parent_hashes_json: None,
        author_email: None,
        author_name: Some("A".into()),
        authored_at: 0,
        committed_at: 5,
        message_summary: "12345678".into(),
        message_body: Some("abcd".into()),
        files_changed_json: Some("[\"x\"]".into()),
        is_shallow: Some(1),
    };
    let r = build_commit_result(row, None);
    assert_eq!(r.commit_hash, "abc");
    assert_eq!(r.authored_at_iso, "1970-01-01T00:00:00Z");
    assert!(r.is_shallow);
    assert!(matches!(r.parent_hashes, Json::Null));
    assert!(matches!(r.files_changed, Json::Arr(_)));
    let env = finish_commit_envelope(vec![r], 1, "find_commit", false);
    assert_eq!(env.returned_full_tokens, 3);
}

#[test]
fn only_an_empty_answer_speaks_of_its_corpus() {
    let mut empty = envelope::<u8>(Vec::new(), 0, "find_code", false, 0);
    annotate_empty_result(&mut empty, Some(12), Some(1700000000));
    assert_eq!(empty.corpus_empty, Some(false));
    assert_eq!(empty.corpus_indexed_through.as_deref(), Some("2023-11-14T22:13:20Z"));

    let mut hollow = envelope::<u8>(Vec::new(), 0, "find_code", false, 0);
    annotate_empty_result(&mut hollow, Some(0), Some(1700000000));
    assert_eq!(hollow.corpus_empty, Some(true));
    assert_eq!(hollow.corpus_indexed_through, None);

    let mut hit = envelope::<u8>(vec![1], 1, "find_code", false, 0);
    annotate_empty_result(&mut hit, Some(12), Some(1700000000));
    assert_eq!(hit.corpus_empty, None);
    assert_eq!(hit.corpus_indexed_through, None);

    let mut unknown = envelope::<u8>(Vec::new(), 0, "find_code", false, 0);
    annotate_empty_result(&mut unknown, None, None);
    assert_eq!(unknown.corpus_empty, None);
}

// ---- the neighbourhood ----

#[test]
fn tokenize_lowercases_and_splits_on_punctuation() {
    let got: Vec<String> = tokenize("Order-Contract: Target_Cost (WBS)");
    assert_eq!(got, vec!["order", "contract", "target", "cost", "wbs"]);
}

#[test]
fn tokenize_keeps_non_ascii_terms() {
    let got: Vec<String> = tokenize("the 매출총이익 line");
    assert!(got.contains(&"매출총이익".to_string()), "got {got:?}");
}

#[test]
fn lower_case_reaches_beyond_ascii() {
    assert_eq!(tokenize("STRASSE ÄÖÜ ΟΔΟΣ"), vec!["strasse", "äöü", "οδος"]);
    // Numeric characters of other scripts are part of a term.
    assert_eq!(tokenize("x٣y ½"), vec!["x٣y", "½"]);
    assert!(!is_candidate("½½½"), "numeric through and through");
}

#[test]
fn candidate_filter_drops_short_numeric_and_stopwords() {
    assert!(!is_candidate("of"));
    assert!(!is_candidate("the"));
    assert!(!is_candidate("2026"));
    assert!(is_candidate("wbs"), "a 3-char acronym is exactly what to keep");
    assert!(is_candidate("bushing"));
}

#[test]
fn candidate_keeps_alphanumeric_mixtures() {
    assert!(is_candidate("p260130"));
    assert!(is_candidate("24kv"));
}

fn strings(v: &[&str]) -> Vec<String> {
    v.iter().map(|s| s.to_string()).collect()
}

#[test]
fn terms_are_counted_once_per_body() {
    let bodies = strings(&["bushing bushing core", "core winding", "of the"]);
    let mut freq = local_frequencies(&bodies);
    freq.sort();
    assert_eq!(
        freq,
        vec![("bushing".to_string(), 1), ("core".to_string(), 2), ("winding".to_string(), 1)]
    );
}

#[test]
fn eligible_terms_are_shared_but_not_said_everywhere() {
    // Five bodies: a term may occur in two or three of them.
    let bodies = strings(&[
        "apply bushing tap",
        "apply bushing winding",
        "apply winding rare",
        "apply bushing query",
        "apply tap query",
    ]);
    let mut got = eligible_terms(&bodies, "Query something");
    got.sort();
    assert_eq!(
        got,
        vec![("bushing".to_string(), 3), ("tap".to_string(), 2), ("winding".to_string(), 2)]
    );
}

#[test]
fn best_terms_are_ranked_by_score_and_then_by_name() {
    let bits = |x: f64| x.to_bits();
    let scored = vec![
        (bits(1.5), "beta".to_string()),
        (bits(2.5), "zeta".to_string()),
        (bits(1.5), "alpha".to_string()),
        (bits(0.0), "nothing".to_string()),
    ];
    assert_eq!(best_terms(&scored), vec!["zeta", "alpha", "beta"]);
    let many: Vec<(u64, String)> = (0..20).map(|i| (bits(1.0 + i as f64), format!("t{i:02}"))).collect();
    let got = best_terms(&many);
    assert_eq!(got.len(), 8);
    assert_eq!(got[0], "t19");
    assert_eq!(got[7], "t12");
    let mut turned = many.clone();
    turned.reverse();
    turned.swap(3, 11);
    assert_eq!(best_terms(&turned), got);
}

#[test]
fn terms_are_handed_back_only_from_a_wider_neighbourhood() {
    let scored = vec![(3u64, "bushing".to_string())];
    let wide = neighbourhood_terms(4, Some(9), &scored);
    assert_eq!((wide.terms.as_slice(), wide.matched), (&["bushing".to_string()][..], 9));
    let same = neighbourhood_terms(4, Some(4), &scored);
    assert!(same.terms.is_empty());
    assert_eq!(same.matched, 4);
    let none = neighbourhood_terms(4, None, &scored);
    assert!(none.terms.is_empty());
    assert_eq!(none.matched, 4);
    assert_eq!(neighbourhood_query("a b", "a b").as_deref(), Some("a OR b"));
    assert_eq!(neighbourhood_query("a", "a"), None);
}

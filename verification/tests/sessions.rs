use nibdex::json::Json;
use nibdex::paths::{normalize_lexical, resolve_best_effort, LexPath};
use nibdex::session_index::activity::scoped_activity;
use nibdex::session_index::binding::{
    absolute_target, after_insert, begin_insert, commit_probe, count_edge, repo_root_and_rel,
    AfterInsert, EdgeOutcome, InsertStep,
};
use nibdex::session_index::scope::{
    admission_map, cwd_in_workspace, find_admission, is_neutral_path, path_in_workspace,
    target_in_scope, temp_roots, DomainRouter, Place, SlugDir, Survey, TempRoot, Workspace,
};
use nibdex::session_index::transcript::{
    classify_tool_call, parse_transcript_text, split_repo_relative, tool_input_path,
    truncate_rationale, SessionEdge, ToolClass, TranscriptParse,
};
use nibdex::session_index::{
    is_transcript_name, parse_transcript, place_edge, plan_edges, route_edge, search_body,
    PassContext, Placement, SessionIndexStats, SessionScope, WITHHELD_MARKER,
};
use nibdex::time::parse_rfc3339;

// ---- small rules ----

#[test]
fn split_repo_relative_strips_cwd_prefix() {
    let (repo, rel) = split_repo_relative(
        "/Users/x/workspace/nibdex/src/mcp/check.rs",
        Some("/Users/x/workspace/nibdex"),
    );
    assert_eq!(repo.as_deref(), Some("/Users/x/workspace/nibdex"));
    assert_eq!(rel, "src/mcp/check.rs");
}

#[test]
fn split_repo_relative_keeps_absolute_when_outside_cwd() {
    let (repo, rel) = split_repo_relative("/etc/hosts", Some("/Users/x/workspace/nibdex"));
    assert_eq!(repo.as_deref(), Some("/Users/x/workspace/nibdex"));
    assert_eq!(rel, "/etc/hosts");
}

#[test]
fn split_repo_relative_handles_missing_cwd() {
    let (repo, rel) = split_repo_relative("/some/abs/path.rs", None);
    assert_eq!(repo, None);
    assert_eq!(rel, "/some/abs/path.rs");
}

#[test]
fn split_repo_relative_rejects_sibling_string_prefix() {
    let (repo, rel) = split_repo_relative("/ws/proj-business/plan.md", Some("/ws/proj"));
    assert_eq!(repo.as_deref(), Some("/ws/proj"));
    assert_eq!(rel, "/ws/proj-business/plan.md");
}

#[test]
fn split_repo_relative_tolerates_trailing_slash_cwd() {
    let (repo, rel) = split_repo_relative("/ws/nibdex/src/main.rs", Some("/ws/nibdex/"));
    assert_eq!(repo.as_deref(), Some("/ws/nibdex/"));
    assert_eq!(rel, "src/main.rs");
}

#[test]
fn an_edit_of_the_directory_itself_stays_absolute() {
    assert_eq!(split_repo_relative("/ws", Some("/ws")).1, "/ws");
    assert_eq!(split_repo_relative("/ws//", Some("/ws")).1, "/ws//");
    assert_eq!(split_repo_relative("/ws//a", Some("/ws")).1, "a");
}

#[test]
fn parse_rfc3339_to_epoch() {
    let epoch = parse_rfc3339("2026-06-06T01:13:22.173Z").unwrap();
    assert_eq!(epoch, 1780708402);
}

#[test]
fn times_that_cannot_be_read_are_none() {
    for bad in ["", "yesterday", "2026-06-06", "2026-13-06T01:13:22Z"] {
        assert_eq!(parse_rfc3339(bad), None, "{bad}");
    }
    assert_eq!(parse_rfc3339("1970-01-01T01:00:00+01:00"), Some(0));
}

#[test]
fn truncate_rationale_bounds_and_keeps_char_boundary() {
    let short = "a tidy reason";
    assert_eq!(truncate_rationale(short), short);
    let long = "x".repeat(600);
    let out = truncate_rationale(&long);
    assert!(out.chars().count() <= 501);
    assert!(out.ends_with('…'));
}

#[test]
fn rationales_are_cut_in_bytes_at_a_character() {
    assert_eq!(truncate_rationale("  \n reason \t"), "reason");
    assert_eq!(truncate_rationale(&"x".repeat(500)), "x".repeat(500));
    // Three bytes each: 166 of them fit in 500 bytes.
    let out = truncate_rationale(&"가".repeat(200));
    assert_eq!(out, format!("{}…", "가".repeat(166)));
    assert!(out.len() <= 503);
}

#[test]
fn repo_root_resolution_is_component_wise_and_innermost() {
    let roots = vec!["/ws".to_string(), "/ws/proj".to_string(), "/ws/proj-x".to_string()];
    assert_eq!(
        repo_root_and_rel(&roots, "/ws/proj/src/a.rs"),
        Some(("/ws/proj", "src/a.rs".to_string()))
    );
    assert_eq!(
        repo_root_and_rel(&roots, "/ws/proj-x/b.rs"),
        Some(("/ws/proj-x", "b.rs".to_string()))
    );
    assert_eq!(
        repo_root_and_rel(&roots, "/ws/other/c.rs"),
        Some(("/ws", "other/c.rs".to_string()))
    );
    assert_eq!(repo_root_and_rel(&roots, "/elsewhere/d.rs"), None);
    assert_eq!(
        repo_root_and_rel(&roots, "/ws/proj/docs/../NOTES.md"),
        Some(("/ws/proj", "NOTES.md".to_string())),
        "`..` in a raw tool path is resolved before matching"
    );
    assert_eq!(repo_root_and_rel(&roots, "/ws/proj/../../etc/x"), None, "escapes every root");
    assert_eq!(repo_root_and_rel(&roots, "/ws/proj"), Some(("/ws", "proj".to_string())));
    assert_eq!(repo_root_and_rel(&roots, "/ws"), None);
    let only_sub = vec!["/ws/proj".to_string()];
    assert_eq!(repo_root_and_rel(&only_sub, "/ws/projects/e.rs"), None, "prefix, not component");
}

#[test]
fn slashes_at_the_end_of_a_root_do_not_make_it_longer() {
    let roots = vec!["/ws///".to_string(), "/ws/p/".to_string(), "".to_string(), "/".to_string()];
    assert_eq!(repo_root_and_rel(&roots, "/ws/p/a"), Some(("/ws/p/", "a".to_string())));
    assert_eq!(repo_root_and_rel(&roots, "/other/a"), None);
    assert_eq!(repo_root_and_rel(&roots, "/../x"), None, "nothing to go back to");
    let windows = vec!["C:/ws".to_string()];
    assert_eq!(repo_root_and_rel(&windows, "C:\\ws\\a.rs"), Some(("C:/ws", "a.rs".to_string())));
}

#[test]
fn a_commit_is_looked_for_by_the_whole_quoted_path() {
    let roots = vec!["/ws".to_string()];
    let p = commit_probe(&roots, "/ws/src/mcp_query.rs").unwrap();
    assert_eq!(p.repo_path, "/ws");
    assert_eq!(p.needle, "%\"src/mcp\\_query.rs\"%");
    assert!(commit_probe(&roots, "/x/y").is_none());
}

fn bash(c: &str) -> Json {
    Json::Obj(vec![("command".to_string(), Json::Str(c.to_string()))])
}

#[test]
fn retrieval_classifier_counts_shell_searches_against_nibdex() {
    assert!(matches!(
        classify_tool_call("mcp__nibdex__find_code", None),
        Some(ToolClass::Nibdex)
    ));
    assert!(matches!(classify_tool_call("Grep", None), Some(ToolClass::Retrieval)));
    assert!(matches!(classify_tool_call("Glob", None), Some(ToolClass::Retrieval)));
    for c in [
        "grep -n 'fn full_scan' src/indexer.rs",
        "rg --files-with-matches TODO",
        "find . -name '*.rs'",
        "cd /x && grep -rl needle src/ | head",
        "sudo grep -rn needle /etc",
        "ls -l; grep -n needle src/lib.rs",
    ] {
        assert!(
            matches!(classify_tool_call("Bash", Some(&bash(c))), Some(ToolClass::Retrieval)),
            "not counted as retrieval: {c}"
        );
    }
    for c in [
        "cargo test",
        "git commit -m x",
        "ls -l",
        "sqlite3 x.db 'SELECT 1'",
        "cargo test 2>&1 | grep -E '^test result'",
        "git log --oneline | grep -c fix",
        "curl -s localhost/healthz | grep git_sha",
    ] {
        assert!(
            classify_tool_call("Bash", Some(&bash(c))).is_none(),
            "wrongly counted as retrieval: {c}"
        );
    }
    assert!(classify_tool_call("Edit", None).is_none());
    assert!(classify_tool_call("Read", None).is_none());
}

#[test]
fn classification_looks_at_names_in_any_case() {
    assert!(matches!(classify_tool_call("MCP__NIBDEX__x", None), Some(ToolClass::Nibdex)));
    assert!(classify_tool_call("Bash", None).is_none());
    assert!(classify_tool_call("grep", None).is_none());
    assert!(classify_tool_call("Bash", Some(&bash("greps x"))).is_none());
    assert!(classify_tool_call("Bash", Some(&bash(" \u{a0}sudo  ag x"))).is_some());
}

#[test]
fn touched_paths_are_taken_in_order_of_preference() {
    let v = Json::parse(r#"{"notebook_path":"n","path":"p","file_path":1}"#).unwrap();
    assert_eq!(tool_input_path(Some(&v)), Some("p"));
    let v = Json::parse(r#"{"notebook_path":"n"}"#).unwrap();
    assert_eq!(tool_input_path(Some(&v)), Some("n"));
    assert_eq!(tool_input_path(None), None);
}

#[test]
fn transcripts_are_recognised_by_their_extension() {
    assert!(is_transcript_name("abc.jsonl"));
    assert!(!is_transcript_name("abc.json"));
    assert!(!is_transcript_name(".jsonl"));
    assert!(!is_transcript_name("jsonl"));
}

// ---- paths ----

#[test]
fn dots_are_resolved_lexically() {
    let text = |raw: &str| normalize_lexical(raw).map(|p| p.text());
    assert_eq!(text("/a/./b//c/").as_deref(), Some("/a/b/c"));
    assert_eq!(text("/a/../b").as_deref(), Some("/b"));
    assert_eq!(text("/.."), None);
    assert_eq!(text("a/../../b"), None);
    assert_eq!(text("/").as_deref(), Some("/"));
    assert_eq!(text("a/b").as_deref(), Some("a/b"));
}

fn path(raw: &str) -> LexPath {
    normalize_lexical(raw).expect("path")
}

#[test]
fn a_missing_tail_is_kept_below_the_deepest_existing_directory() {
    let p = path("/tmp/gone/x.rs");
    let found = vec![None, None, Some(path("/private/tmp"))];
    assert_eq!(resolve_best_effort(&p, &found).text(), "/private/tmp/gone/x.rs");
    assert_eq!(resolve_best_effort(&p, &vec![None, None, None, None]).text(), "/tmp/gone/x.rs");
    assert_eq!(resolve_best_effort(&p, &vec![Some(path("/real"))]).text(), "/real");
}

#[test]
fn a_sibling_with_the_same_beginning_is_not_inside() {
    assert!(path("/w/proj/a").starts_with(&path("/w/proj")));
    assert!(!path("/w/proj-extra/a").starts_with(&path("/w/proj")));
    assert!(path("/w/proj").starts_with(&path("/w/proj")));
}

// ---- scope ----

fn slug(raw: &str) -> SlugDir {
    SlugDir { path: path(raw), resolved: path(raw), canonical: None }
}

fn workspace(root: &str) -> Workspace {
    let temps = temp_roots(Some("/var/tmp/me"));
    Workspace {
        root: path(root),
        resolved: path(root),
        slug: Some(slug("/home/me/.agent/projects/-home-me-workspace")),
        temps: temps.iter().map(|t| TempRoot { path: path(t), canonical: None }).collect(),
    }
}

fn place(raw: &str, is_file: bool, included: bool) -> Place {
    Place {
        raw: raw.to_string(),
        resolved: normalize_lexical(raw)
            .unwrap_or(LexPath { absolute: false, parts: Vec::new() }),
        canonical: None,
        is_file,
        included,
        slug: None,
    }
}

fn survey(places: Vec<Place>) -> Survey {
    Survey { places }
}

#[test]
fn workspace_scope_rejects_sibling_string_prefix() {
    let ws = workspace("/home/me/workspace");
    let s = survey(vec![]);
    assert!(cwd_in_workspace(Some("/home/me/workspace"), &ws, &s));
    assert!(cwd_in_workspace(Some("/home/me/workspace/nibdex"), &ws, &s));
    assert!(
        !cwd_in_workspace(Some("/home/me/workspace-old"), &ws, &s),
        "a sibling sharing a string prefix must not be admitted"
    );
    assert!(!cwd_in_workspace(Some("/home/me/work/acme-workspace"), &ws, &s));
    assert!(!cwd_in_workspace(Some("/home/me"), &ws, &s));
}

#[test]
fn workspace_scope_is_fail_narrow_on_unusable_cwd() {
    let ws = workspace("/home/me/workspace");
    let s = survey(vec![]);
    assert!(!cwd_in_workspace(None, &ws, &s), "no cwd: not ours");
    assert!(!cwd_in_workspace(Some("workspace"), &ws, &s), "relative: not ours");
    assert!(!cwd_in_workspace(Some(""), &ws, &s));
    assert!(
        !cwd_in_workspace(Some("/home/me/workspace/../elsewhere"), &ws, &s),
        "`..` resolving outside the root must not be admitted"
    );
    assert!(cwd_in_workspace(Some("/home/me/workspace/nibdex/../clearview"), &ws, &s));
}

#[test]
fn resolved_forms_are_compared_on_both_sides() {
    let mut ws = workspace("/tmp/ws");
    ws.resolved = path("/private/tmp/ws");
    let mut p = place("/tmp/ws/a.rs", false, false);
    p.resolved = path("/private/tmp/ws/a.rs");
    let s = survey(vec![p]);
    assert!(path_in_workspace("/tmp/ws/a.rs", &ws, &s));
    assert!(path_in_workspace("/tmp/ws/unknown.rs", &ws, &s));
}

#[test]
fn domain_router_visible_rejects_relative_paths_fail_narrow() {
    let ws = workspace("/ws");
    // Whatever the configuration says of them.
    let s = survey(vec![
        place("proj-a/src/x.rs", false, true),
        place("src/x.rs", false, true),
        place("/ws/proj-a/src/x.rs", false, true),
        place("/ws/proj-b/y.rs", false, false),
        place("/ws/../../x", false, true),
    ]);
    let router = DomainRouter { workspace: &ws, survey: &s };
    assert!(!router.visible("proj-a/src/x.rs"));
    assert!(!router.visible("src/x.rs"));
    assert!(router.visible("/ws/proj-a/src/x.rs"));
    assert!(!router.visible("/ws/proj-b/y.rs"));
    assert!(!router.visible("/ws/../../x"));
    assert!(router.taints("src/x.rs") && router.taints("/ws/proj-b/y.rs"));
    assert!(!router.taints("/ws/proj-a/src/x.rs"));
}

#[test]
fn neutral_ground_is_narrow() {
    let ws = workspace("/home/me/workspace");
    let s = survey(vec![
        place("/home/me/workspace/NOTES.md", true, false),
        place("/home/me/workspace/client", false, false),
        place("/home/me/workspace/client/a.rs", true, false),
        place("/tmp/notes.md", true, false),
        place("/tmp/checkout", false, false),
        place("/tmp/checkout/a.rs", true, false),
    ]);
    let neutral = |raw: &str| is_neutral_path(raw, &ws, &s);
    // A regular file directly in the workspace root, and nothing below it.
    assert!(neutral("/home/me/workspace/NOTES.md"));
    assert!(!neutral("/home/me/workspace/client"));
    assert!(!neutral("/home/me/workspace/client/a.rs"));
    // The workspace's own agent directory, and no other.
    assert!(neutral("/home/me/.agent/projects/-home-me-workspace/memory/x.md"));
    assert!(!neutral("/home/me/.agent/projects/-home-me-workspace-old/memory/x.md"));
    assert!(!neutral("/home/me/.agent/history.jsonl"));
    // Temporary files: a loose file, or the workspace's own scratchpad.
    assert!(neutral("/tmp/notes.md"));
    assert!(!neutral("/tmp/checkout"));
    assert!(!neutral("/tmp/checkout/a.rs"));
    assert!(neutral("/tmp/agent-501/-home-me-workspace/scratch/a.rs"));
    assert!(neutral("/var/tmp/me/x/-home-me-workspace/a"));
    assert!(!neutral("/opt/-home-me-workspace/a"));
    assert!(!neutral("notes.md"));
}

#[test]
fn a_session_may_write_into_its_own_agent_directory() {
    let ws = workspace("/home/me/workspace");
    let mut home = place("/home/me/workspace/nibdex", false, false);
    home.slug = Some(slug("/home/me/.agent/projects/-home-me-workspace-nibdex"));
    let s = survey(vec![home]);
    let target = "/home/me/.agent/projects/-home-me-workspace-nibdex/memory/m.md";
    assert!(target_in_scope(target, &ws, Some("/home/me/workspace/nibdex"), &s));
    assert!(!target_in_scope(target, &ws, Some("/home/me/workspace"), &s));
    assert!(!target_in_scope(target, &ws, None, &s));
    assert!(!target_in_scope("/home/me/acme/briefing.md", &ws, Some("/home/me/workspace/nibdex"), &s));
}

// ---- transcripts ----

struct Line<'a> {
    session: &'a str,
    cwd: Option<&'a str>,
    uuid: &'a str,
    group: &'a str,
    time: Option<&'a str>,
    blocks: &'a [String],
}

fn quoted(s: &str) -> String {
    format!("\"{}\"", s.replace('\\', "\\\\").replace('"', "\\\""))
}

fn text(t: &str) -> String {
    format!("{{\"type\":\"text\",\"text\":{}}}", quoted(t))
}

fn call(tool: &str, key: &str, value: &str) -> String {
    format!(
        "{{\"type\":\"tool_use\",\"name\":{},\"input\":{{{}:{}}}}}",
        quoted(tool),
        quoted(key),
        quoted(value)
    )
}

fn line(l: &Line) -> String {
    let cwd = l.cwd.map_or(String::new(), |c| format!("\"cwd\":{},", quoted(c)));
    let time = l.time.map_or(String::new(), |t| format!("\"timestamp\":{},", quoted(t)));
    format!(
        "{{\"type\":\"assistant\",\"sessionId\":{},{}{}\"uuid\":{},\"gitBranch\":\"main\",\
         \"message\":{{\"id\":{},\"content\":[{}]}}}}",
        quoted(l.session),
        cwd,
        time,
        quoted(l.uuid),
        quoted(l.group),
        l.blocks.join(",")
    )
}

const T: &str = "2026-06-06T01:13:22.173Z";

fn simple(session: &str, cwd: Option<&str>, uuid: &str, group: &str, blocks: &[String]) -> String {
    line(&Line { session, cwd, uuid, group, time: Some(T), blocks })
}

fn parse(lines: &[String]) -> TranscriptParse {
    parse_transcript_text(&lines.join("\n"))
}

#[test]
fn an_edit_carries_its_reason_place_and_time() {
    let p = parse(&[simple(
        "s1",
        Some("/ws"),
        "u1",
        "g1",
        &[
            text("first thought"),
            text("   "),
            call("Edit", "file_path", "/ws/src/a.rs"),
            text("second thought"),
            call("Write", "file_path", "/ws/src/b.rs"),
            call("Read", "file_path", "/ws/src/c.rs"),
        ],
    )]);
    assert_eq!(p.edges.len(), 2);
    let e = &p.edges[0];
    assert_eq!(e.session_id, "s1");
    assert_eq!(e.message_uuid, "u1");
    assert_eq!((e.edge_ordinal, e.tool.as_str()), (0, "Edit"));
    assert_eq!(e.file_path, "src/a.rs");
    assert_eq!(e.repo_path.as_deref(), Some("/ws"));
    assert_eq!(e.git_branch.as_deref(), Some("main"));
    assert_eq!(e.edited_at, 1780708402);
    assert_eq!(e.rationale, "first thought");
    assert_eq!(e.raw_abs_path, "/ws/src/a.rs");
    assert_eq!(e.group_id, "g1");
    assert_eq!((p.edges[1].edge_ordinal, p.edges[1].rationale.as_str()), (1, "second thought"));
    assert_eq!(p.groups.len(), 1);
    assert_eq!(p.groups[0].paths, vec!["/ws/src/a.rs", "/ws/src/b.rs", "/ws/src/c.rs"]);
    assert_eq!((p.lines_total, p.lines_parse_err, p.undated), (1, 0, 0));
}

#[test]
fn a_reason_is_inherited_within_a_session_and_directory_only() {
    let edit = |f: &str| [call("Edit", "file_path", f)];
    let p = parse(&[
        simple("s1", Some("/ws"), "u1", "g1", &[text("our own prose")]),
        simple("s1", Some("/ws"), "u2", "g2", &edit("/ws/a")),
        simple("s2", Some("/ws"), "u3", "g3", &edit("/ws/b")),
        simple("s1", Some("/acme"), "u4", "g4", &[text("foreign prose")]),
        simple("s1", Some("/ws"), "u5", "g5", &edit("/ws/c")),
        simple("s1", None, "u6", "g6", &edit("/ws/d")),
    ]);
    let reasons: Vec<&str> = p.edges.iter().map(|e| e.rationale.as_str()).collect();
    assert_eq!(reasons, vec!["our own prose", "", "", ""]);
}

#[test]
fn a_group_goes_on_over_several_lines() {
    let touch = |f: &str| [call("Read", "path", f)];
    let p = parse(&[
        simple("s1", None, "u1", "g1", &touch("/a")),
        "{\"type\":\"user\"}".to_string(),
        simple("s1", None, "u2", "g1", &touch("/b")),
        simple("s1", None, "u3", "g2", &touch("/c")),
        simple("s2", None, "u4", "g2", &touch("/d")),
    ]);
    let groups: Vec<(String, usize)> =
        p.groups.iter().map(|g| (format!("{}/{}", g.session_id, g.group_id), g.paths.len())).collect();
    assert_eq!(
        groups,
        vec![("s1/g1".to_string(), 2), ("s1/g2".to_string(), 1), ("s2/g2".to_string(), 1)]
    );
    assert_eq!(p.lines_total, 5);
}

#[test]
fn an_edit_without_a_time_is_counted_and_skipped() {
    let blocks = [call("Edit", "file_path", "/ws/a"), call("Grep", "pattern", "x")];
    let undated = line(&Line {
        session: "s1",
        cwd: Some("/ws"),
        uuid: "u1",
        group: "g1",
        time: None,
        blocks: &blocks,
    });
    let dated = simple("s1", Some("/ws"), "u2", "g1", &[call("Glob", "path", "/ws")]);
    let p = parse(&[undated, dated]);
    assert_eq!((p.edges.len(), p.undated), (0, 1));
    assert_eq!(p.activity.len(), 1);
    assert_eq!(p.activity[0].retrieval_calls, 2);
    assert_eq!(p.activity[0].first_seen, 1780708402, "only a real time stamps the first call");
}

#[test]
fn a_torn_last_line_costs_only_itself() {
    let whole = simple("s1", Some("/ws"), "u1", "g1", &[call("Edit", "file_path", "/ws/ä")]);
    let mut bytes = format!("{whole}\n\n{whole}").into_bytes();
    // Cut inside the two bytes of the last `ä`.
    let cut = bytes.iter().rposition(|b| *b == 0xa4).unwrap();
    bytes.truncate(cut);
    assert!(String::from_utf8(bytes.clone()).is_err());
    let mut stats = SessionIndexStats::default();
    let p = parse_transcript(&bytes, &mut stats);
    assert_eq!(p.edges.len(), 1);
    assert_eq!(p.edges[0].raw_abs_path, "/ws/ä");
    assert_eq!((stats.lines_total, stats.lines_parse_err), (2, 1));
    // Bytes that are not text at all.
    let p = parse_transcript(&[0xff, 0xfe, b'\n'], &mut stats);
    assert!(p.edges.is_empty());
    assert_eq!((stats.lines_total, stats.lines_parse_err), (3, 2));
}

#[test]
fn lines_are_told_apart_from_their_documents() {
    let mut p = TranscriptParse::new();
    p.line("  ", None);
    assert_eq!(p.lines_total, 0);
    p.line("{oops", None);
    assert_eq!((p.lines_total, p.lines_parse_err), (1, 1));
    let text = simple("s", None, "u", "g", &[call("Edit", "file_path", "x")]);
    p.line(&text, Json::parse(&text));
    assert_eq!((p.lines_total, p.edges.len()), (2, 1));
}

// ---- a pass ----

fn context<'a>(
    scope: SessionScope<'a>,
    rebuild: bool,
    domain: bool,
    ws: &'a Workspace,
    s: &'a Survey,
) -> PassContext<'a> {
    PassContext { scope, rebuild, domain, workspace: ws, survey: s }
}

#[test]
fn both_ends_of_an_edge_must_be_in_scope() {
    let ws = workspace("/home/me/workspace");
    let s = survey(vec![]);
    let edit = |f: &str| [call("Edit", "file_path", f)];
    let p = parse(&[
        simple("s1", Some("/home/me/workspace"), "u1", "g1", &edit("/home/me/workspace/a")),
        simple("s1", Some("/home/me/workspace"), "u2", "g2", &edit("/home/me/acme/b")),
        simple("s2", Some("/home/me/acme"), "u3", "g3", &edit("/home/me/workspace/c")),
    ]);
    let c = context(SessionScope::Workspace, false, false, &ws, &s);
    assert_eq!(place_edge(&p.edges[1], &c), Placement::ForeignTarget);
    let mut sessions = Vec::new();
    let mut stats = SessionIndexStats::default();
    let actions = plan_edges(&p, &c, &mut sessions, &mut stats);
    assert_eq!(actions.len(), 1);
    assert_eq!(actions[0].edge, 0);
    assert!(!actions[0].wipe);
    assert_eq!(sessions, vec!["s1"]);
    assert_eq!(stats.edges_dropped_foreign_target, 1);
    assert_eq!(stats.edges_dropped_foreign_workspace, 1);
    // Planned once more without a rebuild, the pass does the same and drops nothing.
    let again = plan_edges(&p, &c, &mut sessions, &mut stats);
    assert_eq!((again.len(), again[0].edge, again[0].wipe), (1, 0, false));
    assert_eq!(sessions, vec!["s1"]);
    stats = SessionIndexStats::default();
    // Without the scope everything is taken in.
    let all = context(SessionScope::AllSlugs, true, false, &ws, &s);
    let actions = plan_edges(&p, &all, &mut sessions, &mut stats);
    assert_eq!(actions.len(), 3);
    assert_eq!(sessions, vec!["s1", "s2"]);
    let wiped: Vec<bool> = actions.iter().map(|a| a.wipe).collect();
    assert_eq!(wiped, vec![false, false, true], "s1 had its turn before");
}

#[test]
fn a_session_is_dropped_once_in_a_rebuild() {
    let ws = workspace("/ws");
    let s = survey(vec![]);
    let edit = |f: &str| [call("Edit", "file_path", f)];
    let p = parse(&[
        simple("s1", None, "u1", "g1", &edit("/a")),
        simple("s1", None, "u2", "g2", &edit("/b")),
        simple("s2", None, "u3", "g3", &edit("/c")),
    ]);
    let c = context(SessionScope::Slug("x"), true, false, &ws, &s);
    assert_eq!(c.scope.slug(), Some("x"));
    let mut sessions = Vec::new();
    let mut stats = SessionIndexStats::default();
    let wiped: Vec<bool> =
        plan_edges(&p, &c, &mut sessions, &mut stats).iter().map(|a| a.wipe).collect();
    assert_eq!(wiped, vec![true, false, true]);
    let again: Vec<bool> =
        plan_edges(&p, &c, &mut sessions, &mut stats).iter().map(|a| a.wipe).collect();
    assert_eq!(again, vec![false, false, false]);
}

fn domain_survey() -> Survey {
    survey(vec![
        place("/ws/proj-a", false, true),
        place("/ws/proj-a/ok.rs", false, true),
        place("/ws/proj-a/later.rs", false, true),
        place("/ws/proj-b/secret.rs", false, false),
    ])
}

fn domain_transcript() -> TranscriptParse {
    let edit = |t: &str, f: &str| [text(t), call("Edit", "file_path", f)];
    parse(&[
        simple("s1", Some("/ws/proj-a"), "u1", "g1", &edit("clean prose", "/ws/proj-a/ok.rs")),
        simple("s1", Some("/ws/proj-b"), "u2", "g2", &[call("Read", "file_path", "/ws/proj-b/secret.rs")]),
        simple("s1", Some("/ws/proj-b"), "u3", "g3", &edit("tainted prose", "/ws/proj-a/later.rs")),
        simple("s2", Some("/ws/proj-a"), "u4", "g4", &edit("other session", "/ws/proj-a/ok.rs")),
        simple("s2", Some("/ws/proj-a"), "u5", "g5", &edit("foreign", "/ws/proj-b/secret.rs")),
    ])
}

#[test]
fn a_session_that_touched_foreign_ground_stays_tainted() {
    let ws = workspace("/ws");
    let s = domain_survey();
    let p = domain_transcript();
    let router = DomainRouter { workspace: &ws, survey: &s };
    let words = admission_map(&p.groups, &router);
    assert_eq!(find_admission(&words, "s1", "g1"), Some(true));
    assert_eq!(find_admission(&words, "s1", "g2"), Some(false));
    assert_eq!(find_admission(&words, "s1", "g3"), Some(false), "the ratchet is permanent");
    assert_eq!(find_admission(&words, "s2", "g4"), Some(true), "sessions ratchet independently");
    assert_eq!(find_admission(&words, "s2", "g5"), Some(false));
    assert_eq!(find_admission(&words, "s3", "g1"), None);
}

#[test]
fn a_domain_stores_only_what_it_may() {
    let ws = workspace("/ws");
    let s = domain_survey();
    let p = domain_transcript();
    let c = context(SessionScope::AllSlugs, false, true, &ws, &s);
    let mut sessions = Vec::new();
    let mut stats = SessionIndexStats::default();
    let actions = plan_edges(&p, &c, &mut sessions, &mut stats);
    assert_eq!(actions.len(), 4);
    let clean = actions[0].row.as_ref().unwrap();
    assert_eq!(clean.rationale, "clean prose");
    assert_eq!(clean.git_branch.as_deref(), Some("main"));
    assert_eq!(search_body(clean, "ok.rs"), "clean prose ok.rs");
    let tainted = actions[1].row.as_ref().unwrap();
    assert_eq!(tainted.rationale, WITHHELD_MARKER);
    assert_eq!((tainted.repo_path.as_deref(), tainted.git_branch.as_deref()), (None, None));
    assert_eq!(search_body(tainted, "later.rs"), "later.rs");
    assert_eq!(actions[2].row.as_ref().unwrap().rationale, "other session");
    assert!(actions[3].row.is_none(), "a foreign target is stored nowhere");
    assert_eq!(stats.edges_dropped_foreign_domain, 1);
    assert_eq!(stats.rationales_withheld, 1);
    // A missing word is a refusal.
    let router = DomainRouter { workspace: &ws, survey: &s };
    let row = route_edge(&p.edges[0], Some(&router), &Vec::new()).unwrap();
    assert_eq!(row.rationale, WITHHELD_MARKER);
    // Without a router an edge is stored as it is.
    let row = route_edge(&p.edges[3], None, &Vec::new()).unwrap();
    assert_eq!(row.rationale, "foreign");
    assert!(row.searchable);
}

#[test]
fn retrieval_is_counted_in_scope_and_per_session() {
    let ws = workspace("/ws");
    let s = survey(vec![place("/ws/a", false, true)]);
    let grep = [call("Grep", "pattern", "x"), call("mcp__nibdex__find_code", "query", "x")];
    let p = parse(&[
        simple("s1", Some("/ws/a"), "u1", "g1", &grep),
        simple("s1", Some("/ws/b"), "u2", "g2", &grep),
        simple("s1", Some("/acme"), "u3", "g3", &grep),
        simple("s2", Some("/acme"), "u4", "g4", &grep),
    ]);
    assert_eq!(p.activity.len(), 4);
    let c = context(SessionScope::Workspace, false, false, &ws, &s);
    let t = scoped_activity(&p, &c);
    assert_eq!(t.len(), 1);
    assert_eq!((t[0].session_id.as_str(), t[0].retrieval_calls, t[0].nibdex_calls), ("s1", 2, 2));
    assert_eq!(t[0].first_seen, 1780708402);
    let d = context(SessionScope::Workspace, false, true, &ws, &s);
    assert_eq!(scoped_activity(&p, &d)[0].retrieval_calls, 1);
    let all = context(SessionScope::AllSlugs, false, false, &ws, &s);
    assert_eq!(scoped_activity(&p, &all).len(), 2);
}

// ---- storing ----

fn edge(uuid: &str, raw: &str, cwd: Option<&str>) -> SessionEdge {
    SessionEdge {
        session_id: "s".into(),
        message_uuid: uuid.into(),
        edge_ordinal: 0,
        tool: "Edit".into(),
        file_path: "src/a.rs".into(),
        repo_path: None,
        git_branch: None,
        edited_at: 1,
        rationale: "why".into(),
        raw_abs_path: raw.into(),
        cwd: cwd.map(str::to_string),
        group_id: "g".into(),
    }
}

#[test]
fn edges_without_an_identity_are_skipped() {
    assert!(matches!(begin_insert(&edge("", "/x", None)), InsertStep::SkipNoUuid));
    match begin_insert(&edge("u", "/x", None)) {
        InsertStep::Insert { target } => assert_eq!(target.as_deref(), Some("/x")),
        other => panic!("{other:?}"),
    }
    assert_eq!(absolute_target(&edge("u", "src/a.rs", Some("/ws/"))).as_deref(), Some("/ws/src/a.rs"));
    assert_eq!(absolute_target(&edge("u", "src/a.rs", None)), None);
}

#[test]
fn a_repeated_edge_may_find_its_commit_later() {
    let e = edge("u", "/x", None);
    let row = route_edge(&e, None, &Vec::new()).unwrap();
    assert!(matches!(after_insert(&e, &row, true, None), AfterInsert::IndexBody(b) if b == "why src/a.rs"));
    assert!(matches!(after_insert(&e, &row, false, Some(7)), AfterInsert::LateBind(7)));
    assert!(matches!(after_insert(&e, &row, false, None), AfterInsert::Nothing));
}

#[test]
fn every_edge_is_counted_once() {
    let mut s = SessionIndexStats::default();
    count_edge(&mut s, "Edit", EdgeOutcome::Stored { bound: true });
    count_edge(&mut s, "Write", EdgeOutcome::Stored { bound: false });
    count_edge(&mut s, "Edit", EdgeOutcome::Duplicate { late_bound: true });
    count_edge(&mut s, "Edit", EdgeOutcome::Duplicate { late_bound: false });
    count_edge(&mut s, "Edit", EdgeOutcome::SkippedNoUuid);
    assert_eq!((s.edges_indexed, s.edits, s.writes), (2, 1, 1));
    assert_eq!((s.commit_bound, s.commit_unbound), (1, 1));
    assert_eq!((s.edges_duplicate, s.edges_late_bound, s.edges_skipped_no_uuid), (2, 1, 1));
}

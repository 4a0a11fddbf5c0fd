use nibdex::cost_ledger::{CalibrationModel, Counterfactual};
use nibdex::rescore::{
    commas, render, run_rescore, signed, RescoreError, RescoreReport, RescoredRow, RowStatus,
};
use nibdex::schema_index::{
    default_object_type, default_schema, dump_query, is_schema_dump, plan_lookup, render_object,
    split_qualified, Column, Lookup, SchemaObject, MSSQL_DUMP_QUERY, POSTGRES_DUMP_QUERY,
};

fn seed_model() -> CalibrationModel {
    let tool = |name: &str, tokens_p50: u32| Counterfactual {
        tool: name.to_string(),
        tokens_p50,
        tokens_p95: tokens_p50 + 1,
        wall_ms_p50: 8_500,
    };
    CalibrationModel {
        version: "v0.2".to_string(),
        tools: vec![
            tool("check", 0),
            tool("find_session", 60_000),
            tool("find_design_doc", 18_000),
            tool("find_commit", 9_000),
            tool("find_memory", 12_000),
        ],
    }
}

fn row(
    tool: &str,
    after_rank: i64,
    result_tok: u64,
    recorded_saved: Option<i64>,
    version: Option<&str>,
    error_kind: Option<&str>,
) -> String {
    let saved = recorded_saved.map_or("null".to_string(), |n| n.to_string());
    let version = version.map_or("null".to_string(), |v| format!("\"{v}\""));
    let error = error_kind.map_or(String::new(), |k| format!(", \"error\": {{ \"kind\": \"{k}\" }}"));
    format!(
        "{{ \"tool\": \"{tool}\", \"candidate_count\": {{ \"fts5\": {after_rank}, \
         \"after_rank\": {after_rank} }}, \"result_token_estimate\": {result_tok}, \
         \"tokens_saved_p50\": {saved}, \"calibration_model_version\": {version}{error} }}"
    )
}

fn export(calls: &[String]) -> String {
    format!(
        "{{ \"nibdex_metrics_export\": {{ \"format_version\": 1 }}, \"calls\": [{}] }}",
        calls.join(", ")
    )
}

fn seed_calls() -> String {
    export(&[
        row("check", 0, 348, Some(0), Some("v0.1-2026-05-27"), None),
        row("find_session", 0, 16, Some(59_984), Some("v0.1-2026-05-27"), None),
        row("find_design_doc", 3, 61_690, Some(-43_690), Some("v0.1-2026-05-27"), None),
        row("find_session", 3, 916, Some(59_084), Some("v0.1-2026-05-27"), None),
        row("find_commit", 0, 0, None, None, Some("fts5_syntax")),
    ])
}

#[test]
fn rescores_all_branches_against_seed() {
    let report = run_rescore("export.json", &seed_calls(), &seed_model()).expect("rescore");
    assert_eq!(report.rows.len(), 5);

    assert_eq!(report.rows[0].status, RowStatus::Scored);
    assert_eq!(report.rows[0].rescored_saved, Some(0));
    assert_eq!(report.rows[0].delta(), Some(0));

    assert_eq!(report.rows[1].rescored_saved, Some(0));
    assert_eq!(report.rows[1].delta(), Some(-59_984));

    assert_eq!(report.rows[2].rescored_saved, Some(2_000));
    assert_eq!(report.rows[2].delta(), Some(2_000 - (-43_690)));

    assert_eq!(report.rows[3].rescored_saved, Some(59_084));
    assert_eq!(report.rows[3].delta(), Some(0));

    assert_eq!(report.rows[4].status, RowStatus::ErrorRow);
    assert_eq!(report.rows[4].rescored_saved, None);
    assert_eq!(report.rows[4].delta(), None);

    assert_eq!(report.recorded_total(), 59_984 - 43_690 + 59_084);
    assert_eq!(report.rescored_total(), 2_000 + 59_084);
    assert_eq!(report.error_rows(), 1);
    assert_eq!(report.changed_rows(), 2);
}

#[test]
fn unknown_tool_is_flagged_not_scored() {
    let text = export(&[row("some_future_tool", 2, 500, Some(123), Some("v0.1-2026-05-27"), None)]);
    let report = run_rescore("export.json", &text, &seed_model()).unwrap();
    assert_eq!(report.rows[0].status, RowStatus::ToolNotInModel);
    assert_eq!(report.rows[0].rescored_saved, None);
    assert_eq!(report.unscored_tool_rows(), 1);
}

#[test]
fn rescore_matches_compute_directly() {
    let model = seed_model();
    let text = export(&[row("find_memory", 4, 1_200, Some(0), Some("v0.1-2026-05-27"), None)]);
    let report = run_rescore("export.json", &text, &model).unwrap();
    let direct = model.tokens_saved("find_memory", 1_200, 4).unwrap();
    assert_eq!(report.rows[0].rescored_saved, Some(direct));
    assert_eq!(direct, 10_800);
}

#[test]
fn an_export_without_calls_is_refused() {
    let err = run_rescore("nope.json", "{\"hello\": 1}", &seed_model()).unwrap_err();
    assert_eq!(err, RescoreError::NoCalls);
    assert!(err.message("nope.json").contains("calls"));
    let err = run_rescore("nope.json", "{", &seed_model()).unwrap_err();
    assert_eq!(err, RescoreError::NotJson);
    assert_eq!(err.message("nope.json"), "parse export JSON nope.json");
}

#[test]
fn tools_are_rolled_up_in_order_and_add_up() {
    let report = run_rescore("e", &seed_calls(), &seed_model()).unwrap();
    let tools = report.per_tool();
    let names: Vec<&str> = tools.iter().map(|t| t.tool.as_str()).collect();
    assert_eq!(names, vec!["check", "find_commit", "find_design_doc", "find_session"]);
    assert_eq!(tools.iter().map(|t| t.calls).sum::<usize>(), report.rows.len());
    assert_eq!(tools.iter().map(|t| t.recorded_saved).sum::<i64>(), report.recorded_total());
    assert_eq!(tools.iter().map(|t| t.rescored_saved).sum::<i64>(), report.rescored_total());
    assert_eq!(tools[3].delta(), -59_984);
}

#[test]
fn the_largest_changes_come_first() {
    let report = run_rescore("e", &seed_calls(), &seed_model()).unwrap();
    let top: Vec<usize> = report.largest_corrections(5).iter().map(|r| r.index).collect();
    assert_eq!(top, vec![1, 2]);
    assert_eq!(report.largest_corrections(1).len(), 1);
    assert!(report.largest_corrections(0).is_empty());
    // Of equal changes the earlier call comes first.
    let text = export(&[
        row("find_session", 0, 16, Some(5), None, None),
        row("find_session", 0, 16, Some(-5), None, None),
        row("find_session", 0, 16, Some(-9), None, None),
    ]);
    let tied = run_rescore("e", &text, &seed_model()).unwrap();
    let order: Vec<usize> = tied.largest_corrections(9).iter().map(|r| r.index).collect();
    assert_eq!(order, vec![2, 0, 1]);
    let two: Vec<usize> = tied.largest_corrections(2).iter().map(|r| r.index).collect();
    assert_eq!(two, vec![2, 0]);
    assert_eq!(tied.largest_corrections(tied.rows.len()).len(), tied.changed_rows());
}

#[test]
fn the_largest_changes_have_a_block_of_their_own() {
    let calls: Vec<String> =
        (1..8).map(|i| row("find_session", 0, 16, Some(i), None, None)).collect();
    let report = run_rescore("e", &export(&calls), &seed_model()).unwrap();
    let text = render(&report);
    let lines: Vec<&str> = text.lines().collect();
    let at = lines.iter().position(|l| l.ends_with("  Largest corrections:")).unwrap();
    assert_eq!(at, report.rows.len() + 7);
    for (k, r) in report.largest_corrections(5).iter().enumerate() {
        assert!(lines[at + 1 + k].starts_with(&format!("    [{:>2}] find_session", r.index)));
    }
    assert_eq!(lines[at + 6], "");
    assert_eq!(text.matches("  Largest corrections:\n").count(), 1);
}

#[test]
fn commas_groups_and_signs() {
    assert_eq!(commas(0), "0");
    assert_eq!(commas(916), "916");
    assert_eq!(commas(59_084), "59,084");
    assert_eq!(commas(-43_690), "-43,690");
    assert_eq!(signed(2_000), "+2,000");
    assert_eq!(signed(-59_984), "-59,984");
}

#[test]
fn commas_only_separate() {
    for n in [0i64, 7, 999, 1000, 123_456, 1_234_567, -1, -1000, i64::MAX, i64::MIN] {
        assert_eq!(commas(n).replace(',', ""), n.to_string());
    }
    assert_eq!(commas(i64::MIN), "-9,223,372,036,854,775,808");
    assert_eq!(signed(0), "+0");
}

#[test]
fn the_report_for_people_is_laid_out_in_columns() {
    let report = run_rescore("/x/export.json", &seed_calls(), &seed_model()).unwrap();
    assert!(report.figures_are_small());
    let text = render(&report);
    let lines: Vec<&str> = text.split('\n').collect();
    assert_eq!(lines[0], "nibdex rescore — /x/export.json");
    assert_eq!(lines[1], "  recorded model: v0.1-2026-05-27    →    re-score model: v0.2");
    assert_eq!(lines[2], "  5 call row(s)");
    assert_eq!(lines[3], "");
    assert_eq!(
        lines[4],
        format!(
            "  {:>3}  {:<16} {:>5} {:>11} {:>13} {:>13} {:>12}",
            "#", "tool", "rank", "result_tok", "recorded", "re-scored", "Δ"
        )
    );
    assert_eq!(lines[5], format!("  {}", "-".repeat(78)));
    assert_eq!(
        lines[7],
        format!(
            "  {:>3}  {:<16} {:>5} {:>11} {:>13} {:>13} {:>12}",
            1, "find_session", 0, 16, "59,984", "0", "-59,984"
        )
    );
    assert_eq!(
        lines[10],
        format!(
            "  {:>3}  {:<16} {:>5} {:>11} {:>13} {:>13} {:>12}",
            4, "find_commit", 0, 0, "—", "error", ""
        )
    );
    assert_eq!(lines[11], "");
    assert_eq!(lines[12], "  Largest corrections:");
    assert_eq!(
        lines[13],
        format!(
            "    [{:>2}] {:<16} rank={:<3} result_tok={:>7}  {:>11} → {:>11}  ({})",
            1, "find_session", 0, 16, "59,984", "0", "-59,984"
        )
    );
    assert_eq!(lines[15], "");
    assert_eq!(
        lines[16],
        format!(
            "  {:<16} {:>6} {:>13} {:>13} {:>12}",
            "per tool", "calls", "recorded", "re-scored", "Δ"
        )
    );
    assert_eq!(lines[17], format!("  {}", "-".repeat(64)));
    assert_eq!(
        lines[21],
        format!(
            "  {:<16} {:>6} {:>13} {:>13} {:>12}",
            "find_session", 2, "119,068", "59,084", "-59,984"
        )
    );
    assert_eq!(lines[23], "  TOTAL tokens_saved_p50");
    assert_eq!(lines[24], format!("    recorded : {:>15}", "75,378"));
    assert_eq!(lines[25], format!("    re-scored: {:>15}", "61,084"));
    assert_eq!(lines[26], format!("    Δ        : {:>15}", "-14,294"));
    assert_eq!(
        lines[28],
        "  2 row(s) changed · 1 error row(s) excluded · 0 tool-not-in-model row(s)"
    );
    assert_eq!(lines[29], "");
    assert_eq!(lines.len(), 30);
}

#[test]
fn a_report_without_changes_names_no_corrections() {
    let text = export(&[row("a_tool_with_a_very_long_name", 1, 5, None, None, None)]);
    let report = run_rescore("e", &text, &seed_model()).unwrap();
    let out = render(&report);
    assert!(out.contains("recorded model: (none recorded)    →"));
    assert!(out.contains("a_tool_with_a_very_long_name     1"), "{out}");
    assert!(out.contains("not-in-model"));
    assert!(!out.contains("Largest corrections"));
}

#[test]
fn figures_that_are_too_large_are_noticed() {
    let huge = |n: i64| RescoredRow {
        index: 0,
        tool: "t".into(),
        after_rank: 0,
        result_token_estimate: 0,
        recorded_saved: Some(n),
        recorded_version: None,
        rescored_saved: Some(1),
        status: RowStatus::Scored,
    };
    let report = |rows| RescoreReport {
        export_path: "e".into(),
        model_version: "v".into(),
        rows,
    };
    assert!(report(vec![huge(i64::MAX - 1)]).figures_are_small());
    assert!(!report(vec![huge(i64::MAX)]).figures_are_small());
    assert!(!report(vec![huge(i64::MIN)]).figures_are_small());
    assert!(!report(vec![huge(i64::MAX / 2), huge(i64::MAX / 2 + 9)]).figures_are_small());
}

// ---- schema ----

#[test]
fn the_mssql_dump_query_converts_byte_widths_and_carries_a_default() {
    assert!(!MSSQL_DUMP_QUERY.contains("NULLIF(c.max_length"));
    assert!(MSSQL_DUMP_QUERY.contains("c.max_length / 2"));
    assert!(MSSQL_DUMP_QUERY.contains("st.user_type_id = ty.system_type_id"));
    assert!(MSSQL_DUMP_QUERY.contains("st.name IN ('nvarchar', 'nchar')"));
    assert!(MSSQL_DUMP_QUERY.contains("OBJECT_DEFINITION(c.default_object_id)"));
    assert!(POSTGRES_DUMP_QUERY.contains("k.column_default"));
    assert!(POSTGRES_DUMP_QUERY.contains("k.character_maximum_length"));
}

fn obj(name: &str, cols: &[(&str, &str, bool, Option<i64>)]) -> SchemaObject {
    SchemaObject {
        schema: "public".into(),
        name: name.into(),
        object_type: "table".into(),
        columns: cols
            .iter()
            .map(|(n, t, nullable, max_len)| Column {
                name: (*n).into(),
                data_type: (*t).into(),
                nullable: *nullable,
                max_len: *max_len,
                default: None,
            })
            .collect(),
        definition: None,
    }
}

#[test]
fn rendering_carries_width_and_not_null() {
    let o = obj(
        "orders",
        &[("id", "integer", false, None), ("code", "character varying", true, Some(12))],
    );
    let out = render_object("shopdb", &o);
    assert!(out.contains("shopdb.public.orders (table)"), "{out}");
    assert!(out.contains("id integer NOT NULL"), "{out}");
    assert!(out.contains("code character varying(12)"), "{out}");
    assert!(!out.contains("varying(12) NOT NULL"), "{out}");
}

#[test]
fn rendering_is_exact() {
    let mut o = obj("v", &[("a", "int", false, Some(-1))]);
    o.object_type = "view".into();
    o.columns[0].default = Some("7".into());
    o.definition = Some("SELECT 1\r\nFROM t\n".into());
    assert_eq!(
        render_object("db", &o),
        "db.public.v (view)\n  a int(-1) NOT NULL DEFAULT 7\n  definition:\n    SELECT 1\n    FROM t\n"
    );
}

#[test]
fn qualified_names_split_into_namespace_and_object() {
    assert_eq!(split_qualified("bids"), (None, "bids".to_string()));
    assert_eq!(split_qualified("sales.bids"), (Some("sales".into()), "bids".into()));
    assert_eq!(split_qualified("mydb.sales.bids"), (Some("sales".into()), "bids".into()));
    assert_eq!(split_qualified("[dbo].[Employees]"), (Some("dbo".into()), "Employees".into()));
    assert_eq!(split_qualified("\"public\".\"bids\""), (Some("public".into()), "bids".into()));
    assert_eq!(split_qualified(""), (None, String::new()));
}

#[test]
fn lookups_honour_the_namespace() {
    assert!(matches!(plan_lookup(".."), Lookup::Nothing));
    assert!(matches!(plan_lookup("[]"), Lookup::Nothing));
    assert!(matches!(plan_lookup("`bids`"), Lookup::ByName(n) if n == "bids"));
    assert!(matches!(
        plan_lookup("sales..bids."),
        Lookup::Qualified { schema, name } if schema == "sales" && name == "bids"
    ));
    assert_eq!(default_schema(), "public");
    assert_eq!(default_object_type(), "table");
    assert!(is_schema_dump("db.nibdex-schema.json"));
    assert!(!is_schema_dump("schema.json"));
}

#[test]
fn dump_query_resolves_known_dialects_only() {
    assert!(dump_query("postgres").unwrap().contains("information_schema.columns"));
    assert!(dump_query("pg").is_some());
    assert!(dump_query("mssql").unwrap().contains("sys.columns"));
    assert!(dump_query("sqlserver").is_some());
    assert!(dump_query("oracle").is_none());
    assert!(dump_query("").is_none());
}

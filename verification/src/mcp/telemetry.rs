//! What is recorded of a tool call, and what its caller is told when it fails.
use vstd::prelude::*;

use super::fts5::{explain_query_error, syntax_complaint, QUERY_HELP};
use super::query::recent_filter;
use super::types::{json_u64, Stages, DEFAULT_DAYS};
use crate::cost_ledger::Layer2Fields;
use crate::json::{json_view, Json, JsonNumber, JsonV};
use crate::metrics_sink::{
    bounded_message, classify_handler_error, error_kind, token_estimate_from_serialized,
    truncate_error_message, ErrorDetail, MetricsEvent,
};
use crate::text::{append_str, from_chars, opt_ref, opt_str, own_opt, to_chars, trim_chars};

verus! {

// ---- Parameters ----------------------------------------------------------------------------

/// A flag as a JSON value.
fn flag_json(b: bool) -> (r: Json)
    ensures
        r@ == JsonV::Bool(b),
{
    Json::Bool(b)
}

/// An optional number as a JSON value.
pub open spec fn json_opt_i64(n: Option<i64>) -> JsonV {
    match n {
        Some(v) => json_i64(v),
        None => JsonV::Null,
    }
}

fn opt_number_json(n: Option<i64>) -> (r: Json)
    ensures
        r@ == json_opt_i64(n),
{
    match n {
        Some(v) => number_json(v),
        None => Json::Null,
    }
}

/// What is recorded of the parameters of a listing: whether there are a filter and a
/// repository, never which; the window; and the limit that was asked for.
pub open spec fn recent_params(
    filter_set: bool,
    repo_set: Option<bool>,
    days: Option<i64>,
    limit: Option<i64>,
) -> JsonV {
    let window = match days {
        Some(n) => n,
        None => DEFAULT_DAYS,
    };
    JsonV::Obj(
        seq![("filter_set"@, JsonV::Bool(filter_set))] + (match repo_set {
            Some(b) => seq![("repo_set"@, JsonV::Bool(b))],
            None => Seq::empty(),
        }) + seq![("days"@, json_i64(window)), ("limit_requested"@, json_opt_i64(limit))],
    )
}

/// The recorded parameters of a listing. `repo_set` is nothing for a tool that takes no
/// repository.
pub fn recent_params_json(
    filter_set: bool,
    repo_set: Option<bool>,
    days: Option<i64>,
    limit: Option<i64>,
) -> (r: Json)
    ensures
        r@ == recent_params(filter_set, repo_set, days, limit),
{
    let window: i64 = match days {
        Some(n) => n,
        None => DEFAULT_DAYS,
    };
    let a = number_json(window);
    let b = opt_number_json(limit);
    let mut v: Vec<(String, Json)> = Vec::new();
    v.push(("filter_set".to_owned(), flag_json(filter_set)));
    if let Some(set) = repo_set {
        v.push(("repo_set".to_owned(), flag_json(set)));
    }
    v.push(("days".to_owned(), a));
    v.push(("limit_requested".to_owned(), b));
    let r = Json::Obj(v);
    assert(r@->Obj_0 =~= recent_params(filter_set, repo_set, days, limit)->Obj_0);
    r
}

/// What is recorded of the parameters of a search: the length of the query in bytes,
/// whether there is a repository, and the limit that was asked for.
pub open spec fn search_params(
    query: Seq<char>,
    repo_set: Option<bool>,
    limit: Option<i64>,
) -> JsonV {
    JsonV::Obj(
        seq![("query_len"@, json_u64(vstd::utf8::encode_utf8(query).len() as u64))] + (
        match repo_set {
            Some(b) => seq![("repo_set"@, JsonV::Bool(b))],
            None => Seq::empty(),
        }) + seq![("limit_requested"@, json_opt_i64(limit))],
    )
}

/// The recorded parameters of a search. `repo_set` is nothing for a tool that does not
/// record it.
pub fn search_params_json(query: &str, repo_set: Option<bool>, limit: Option<i64>) -> (r: Json)
    ensures
        r@ == search_params(query@, repo_set, limit),
{
    let bytes = query.as_bytes();
    let len: u64 = bytes.len() as u64;
    assert(bytes@ == vstd::utf8::encode_utf8(query@));
    assert(len == vstd::utf8::encode_utf8(query@).len() as u64);
    let b = opt_number_json(limit);
    let mut v: Vec<(String, Json)> = Vec::new();
    v.push(("query_len".to_owned(), Json::Num(JsonNumber::Unsigned(len))));
    if let Some(set) = repo_set {
        v.push(("repo_set".to_owned(), flag_json(set)));
    }
    v.push(("limit_requested".to_owned(), b));
    let r = Json::Obj(v);
    assert(json_view(v@[0].1) == json_u64(len)) by {
        reveal_with_fuel(json_view, 2);
    }
    assert(r@->Obj_0 =~= search_params(query@, repo_set, limit)->Obj_0);
    r
}

/// Whether a listing went down the search path: it did where it had a filter to apply.
pub fn listing_searched(filter: Option<&str>) -> (b: bool)
    ensures
        b == (recent_filter(opt_ref(filter)) is Some),
{
    match filter {
        Some(f) => {
            let t = trim_chars(&to_chars(f));
            t.len() > 0
        },
        None => false,
    }
}

/// What the caller of a search or listing is told when it fails: the tool, and the error
/// in terms that the caller can act on.
pub fn tool_error(tool: &str, msg: &str) -> (r: String)
    ensures
        r@ == tool@ + ": "@ + (if syntax_complaint(msg@) {
            QUERY_HELP@
        } else {
            msg@
        }),
{
    let mut out = to_chars(tool);
    append_str(&mut out, ": ");
    append_str(&mut out, explain_query_error(msg).as_str());
    from_chars(&out)
}

// ---- Events --------------------------------------------------------------------------------

/// A whole number with a sign as a JSON value.
pub open spec fn json_i64(n: i64) -> JsonV {
    if n >= 0 {
        JsonV::Num(JsonNumber::Unsigned(n as u64))
    } else {
        JsonV::Num(JsonNumber::Negative(n))
    }
}

fn number_json(n: i64) -> (r: Json)
    ensures
        r@ == json_i64(n),
{
    if n >= 0 {
        Json::Num(JsonNumber::Unsigned(n as u64))
    } else {
        Json::Num(JsonNumber::Negative(n))
    }
}

/// How many entries matched, and how many were left after ranking.
pub open spec fn candidates(fts5: i64, after_rank: i64) -> JsonV {
    JsonV::Obj(seq![("fts5"@, json_i64(fts5)), ("after_rank"@, json_i64(after_rank))])
}

fn candidates_json(fts5: i64, after_rank: i64) -> (r: Json)
    ensures
        r@ == candidates(fts5, after_rank),
{
    let a = number_json(fts5);
    let b = number_json(after_rank);
    let mut v: Vec<(String, Json)> = Vec::new();
    v.push(("fts5".to_owned(), a));
    v.push(("after_rank".to_owned(), b));
    let r = Json::Obj(v);
    assert(r@->Obj_0 =~= seq![("fts5"@, json_i64(fts5)), ("after_rank"@, json_i64(after_rank))]);
    r
}

/// What every event of a call says, whether the call succeeded or failed.
pub open spec fn common_event(
    e: MetricsEvent,
    ts: Seq<char>,
    tool: Seq<char>,
    query: Option<Seq<char>>,
    params: JsonV,
    stages: Stages,
    wall_ms: u64,
    uptime_s: u64,
) -> bool {
    &&& e.schema_version == 1
    &&& e.ts@ == ts
    &&& e.tool@ == tool
    &&& opt_str(e.query) == query
    &&& e.params@ == params
    &&& e.wall_ms == wall_ms
    &&& e.stages_ms@ == JsonV::Obj(
        seq![
            ("fts5_query"@, json_u64(stages.fts5_query_ms)),
            ("rank"@, json_u64(stages.rank_ms)),
            ("join"@, json_u64(stages.join_ms)),
            ("shape_response"@, json_u64(stages.shape_response_ms)),
        ],
    )
    &&& e.cache_hit is None
    &&& e.daemon_uptime_s == uptime_s
    &&& e.calibration_confidence@ == "estimated"@
}

/// The event of a call that succeeded. `layer2` are the savings, where they could be
/// computed. Off the search path there are no candidates, and neither broadening nor the
/// full size of the results is recorded.
pub fn success_event(
    ts: String,
    tool: &str,
    query_text: Option<&str>,
    params: Json,
    stages: &Stages,
    wall_ms: u64,
    total_matched: i64,
    returned: i64,
    returned_full_tokens: u64,
    had_fts5: bool,
    query_broadened: bool,
    serialized_envelope: &str,
    uptime_s: u64,
    layer2: Option<Layer2Fields>,
) -> (r: MetricsEvent)
    ensures
        common_event(
            r,
            ts@,
            tool@,
            opt_ref(query_text),
            params@,
            *stages,
            wall_ms,
            uptime_s,
        ),
        r.candidate_count@ == candidates(
            if had_fts5 {
                total_matched
            } else {
                0
            },
            returned,
        ),
        r.result_token_estimate == serialized_envelope@.len() / 4,
        r.query_broadened == if had_fts5 {
            Some(query_broadened)
        } else {
            None
        },
        r.returned_full_tokens == if had_fts5 {
            Some(returned_full_tokens)
        } else {
            None
        },
        r.outcome is None,
        r.error is None,
        match layer2 {
            Some(l) => {
                &&& r.counterfactual_tokens_p50 == Some(l.counterfactual_tokens_p50)
                &&& r.counterfactual_tokens_p95 == Some(l.counterfactual_tokens_p95)
                &&& r.tokens_saved_p50 == Some(l.tokens_saved_p50)
                &&& r.dollars_saved_p50_usd == Some(l.dollars_saved_p50_usd)
                &&& r.counterfactual_wall_ms_p50 == Some(l.counterfactual_wall_ms_p50)
                &&& r.calibration_model_version == Some(l.calibration_model_version)
            },
            None => {
                &&& r.counterfactual_tokens_p50 is None
                &&& r.counterfactual_tokens_p95 is None
                &&& r.tokens_saved_p50 is None
                &&& r.dollars_saved_p50_usd is None
                &&& r.counterfactual_wall_ms_p50 is None
                &&& r.calibration_model_version is None
            },
        },
{
    let fts5: i64 = if had_fts5 {
        total_matched
    } else {
        0
    };
    let mut event = MetricsEvent {
        schema_version: 1,
        ts,
        tool: tool.to_owned(),
        query: own_opt(query_text),
        params,
        wall_ms,
        stages_ms: stages.to_json(),
        candidate_count: candidates_json(fts5, returned),
        result_token_estimate: token_estimate_from_serialized(serialized_envelope),
        cache_hit: None,
        daemon_uptime_s: uptime_s,
        calibration_confidence: "estimated".to_owned(),
        counterfactual_tokens_p50: None,
        counterfactual_tokens_p95: None,
        tokens_saved_p50: None,
        dollars_saved_p50_usd: None,
        counterfactual_wall_ms_p50: None,
        calibration_model_version: None,
        query_broadened: if had_fts5 {
            Some(query_broadened)
        } else {
            None
        },
        returned_full_tokens: if had_fts5 {
            Some(returned_full_tokens)
        } else {
            None
        },
        outcome: None,
        error: None,
    };
    if let Some(l) = layer2 {
        event.counterfactual_tokens_p50 = Some(l.counterfactual_tokens_p50);
        event.counterfactual_tokens_p95 = Some(l.counterfactual_tokens_p95);
        event.tokens_saved_p50 = Some(l.tokens_saved_p50);
        event.dollars_saved_p50_usd = Some(l.dollars_saved_p50_usd);
        event.counterfactual_wall_ms_p50 = Some(l.counterfactual_wall_ms_p50);
        event.calibration_model_version = Some(l.calibration_model_version);
    }
    event
}

/// The event of a call that failed: no candidates, no size, no savings; the error with
/// its bucket and at most 500 characters of its message.
pub fn error_event(
    ts: String,
    tool: &str,
    query_text: Option<&str>,
    params: Json,
    stages: &Stages,
    wall_ms: u64,
    uptime_s: u64,
    error_msg: &str,
) -> (r: MetricsEvent)
    ensures
        common_event(
            r,
            ts@,
            tool@,
            opt_ref(query_text),
            params@,
            *stages,
            wall_ms,
            uptime_s,
        ),
        r.candidate_count@ == candidates(0, 0),
        r.result_token_estimate == 0,
        r.counterfactual_tokens_p50 is None,
        r.counterfactual_tokens_p95 is None,
        r.tokens_saved_p50 is None,
        r.dollars_saved_p50_usd is None,
        r.counterfactual_wall_ms_p50 is None,
        r.calibration_model_version is None,
        r.query_broadened is None,
        r.returned_full_tokens is None,
        opt_str(r.outcome) == Some("error"@),
        r.error matches Some(d) && d.kind@ == error_kind(error_msg@) && d.message@
            == bounded_message(error_msg@),
{
    MetricsEvent {
        schema_version: 1,
        ts,
        tool: tool.to_owned(),
        query: own_opt(query_text),
        params,
        wall_ms,
        stages_ms: stages.to_json(),
        candidate_count: candidates_json(0, 0),
        result_token_estimate: 0,
        cache_hit: None,
        daemon_uptime_s: uptime_s,
        calibration_confidence: "estimated".to_owned(),
        counterfactual_tokens_p50: None,
        counterfactual_tokens_p95: None,
        tokens_saved_p50: None,
        dollars_saved_p50_usd: None,
        counterfactual_wall_ms_p50: None,
        calibration_model_version: None,
        query_broadened: None,
        returned_full_tokens: None,
        outcome: Some("error".to_owned()),
        error: Some(
            ErrorDetail {
                kind: classify_handler_error(error_msg).to_owned(),
                message: truncate_error_message(error_msg),
            },
        ),
    }
}

} // verus!

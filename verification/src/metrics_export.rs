//! The metrics that may be handed over: derived, bucketed, and free of content.
//!
//! Nothing rides through by default. A row and a report are rebuilt member by member from
//! what is allowed; whatever is not named here is dropped.
use vstd::prelude::*;

pub mod stream_laws;

use crate::cost_ledger::CostSavingsWindow;
use crate::json::{
    as_bool, as_i64, as_number, as_str, as_u64, bool_of, field, field2, i64_of, json_document,
    lookup, num_of, opt_json, parse_json, str_of, u64_of, Json, JsonNumber, JsonV,
};
use crate::keys::{increasing, is_map, names, pairs};
use crate::mcp::types::CheckResult;
use crate::text::{
    char_count, from_chars, lines_of, opt_ref, opt_str, split_lines, split_words, starts_with,
    str_eq, str_lt, strs, texts, to_chars, trim, trimmed, words,
};
use crate::time::{parse_moment, rfc3339_moment, Moment};

verus! {

// ---- Buckets -------------------------------------------------------------------------------

/// The buckets, as they are shown to a reader.
pub const BUCKET_LADDER: &'static str =
    "0 · 1 · 2-3 · 4-7 · 8-15 · 16-31 · 32-63 · 64-127 · \
128-255 · 256-511 · 512-1023 · 1024-4095 · 4096-16383 · 16384-65535 · 65536+";

/// The number of the bucket of a count. A negative count is none.
pub open spec fn bucket_index(n: int) -> int {
    if n <= 0 {
        0
    } else if n == 1 {
        1
    } else if n <= 3 {
        2
    } else if n <= 7 {
        3
    } else if n <= 15 {
        4
    } else if n <= 31 {
        5
    } else if n <= 63 {
        6
    } else if n <= 127 {
        7
    } else if n <= 255 {
        8
    } else if n <= 511 {
        9
    } else if n <= 1023 {
        10
    } else if n <= 4095 {
        11
    } else if n <= 16383 {
        12
    } else if n <= 65535 {
        13
    } else {
        14
    }
}

/// The label of a bucket.
pub open spec fn bucket_label(i: int) -> Seq<char> {
    if i == 0 {
        "0"@
    } else if i == 1 {
        "1"@
    } else if i == 2 {
        "2-3"@
    } else if i == 3 {
        "4-7"@
    } else if i == 4 {
        "8-15"@
    } else if i == 5 {
        "16-31"@
    } else if i == 6 {
        "32-63"@
    } else if i == 7 {
        "64-127"@
    } else if i == 8 {
        "128-255"@
    } else if i == 9 {
        "256-511"@
    } else if i == 10 {
        "512-1023"@
    } else if i == 11 {
        "1024-4095"@
    } else if i == 12 {
        "4096-16383"@
    } else if i == 13 {
        "16384-65535"@
    } else {
        "65536+"@
    }
}

/// The label of the bucket of a count.
pub open spec fn bucket(n: int) -> Seq<char> {
    bucket_label(bucket_index(n))
}

/// A count as a bucket.
pub fn count_bucket(n: i64) -> (r: String)
    ensures
        r@ == bucket(n as int),
{
    let label = if n <= 0 {
        "0"
    } else if n == 1 {
        "1"
    } else if n <= 3 {
        "2-3"
    } else if n <= 7 {
        "4-7"
    } else if n <= 15 {
        "8-15"
    } else if n <= 31 {
        "16-31"
    } else if n <= 63 {
        "32-63"
    } else if n <= 127 {
        "64-127"
    } else if n <= 255 {
        "128-255"
    } else if n <= 511 {
        "256-511"
    } else if n <= 1023 {
        "512-1023"
    } else if n <= 4095 {
        "1024-4095"
    } else if n <= 16383 {
        "4096-16383"
    } else if n <= 65535 {
        "16384-65535"
    } else {
        "65536+"
    };
    label.to_owned()
}

/// The length of a query as a bucket of the same ladder.
pub fn length_bucket(len: i64) -> (r: String)
    ensures
        r@ == bucket(len as int),
{
    count_bucket(len)
}

/// A larger count is never in a lower bucket, and a negative one is in the lowest.
pub proof fn law_buckets_are_ordered(a: int, b: int)
    requires
        a <= b,
    ensures
        0 <= bucket_index(a) <= bucket_index(b) <= 14,
        b <= 0 ==> bucket(b) == bucket(0),
{
}

// ---- Queries and names ---------------------------------------------------------------------

/// A character that only an operator has.
pub open spec fn operator_char(c: char) -> bool {
    c == '"' || c == '*' || c == '+' || c == '-' || c == ':' || c == '(' || c == ')'
}

/// A word that is an operator.
pub open spec fn operator_word(t: Seq<char>) -> bool {
    t == "OR"@ || t == "NOT"@ || t == "NEAR"@ || "NEAR/"@.is_prefix_of(t)
}

/// A query uses an operator.
pub open spec fn uses_operators(query: Seq<char>) -> bool {
    ||| exists|i: int| 0 <= i < query.len() && operator_char(#[trigger] query[i])
    ||| exists|i: int| 0 <= i < words(query).len() && operator_word(#[trigger] words(query)[i])
}

/// Whether a query uses an operator.
pub fn had_fts5_operators(query: &str) -> (b: bool)
    ensures
        b == uses_operators(query@),
{
    let v = to_chars(query);
    for i in 0..v.len()
        invariant
            v@ == query@,
            forall|j: int| 0 <= j < i ==> !operator_char(#[trigger] query@[j]),
    {
        let c: char = v[i];
        if c == '"' || c == '*' || c == '+' || c == '-' || c == ':' || c == '(' || c == ')' {
            assert(operator_char(query@[i as int]));
            return true;
        }
    }
    let tokens = split_words(query);
    for i in 0..tokens.len()
        invariant
            texts(tokens@) == words(query@),
            forall|j: int| 0 <= j < i ==> !operator_word(#[trigger] words(query@)[j]),
            forall|j: int| 0 <= j < query@.len() ==> !operator_char(#[trigger] query@[j]),
    {
        assert(words(query@)[i as int] == tokens@[i as int]@);
        let t = from_chars(tokens[i].as_slice());
        if str_eq(t.as_str(), "OR") || str_eq(t.as_str(), "NOT") || str_eq(t.as_str(), "NEAR")
            || starts_with(tokens[i].as_slice(), "NEAR/") {
            assert(operator_word(words(query@)[i as int]));
            return true;
        }
    }
    false
}

/// A character of a safe name.
pub open spec fn safe_char(c: char) -> bool {
    ('a' <= c <= 'z') || ('0' <= c <= '9') || c == '_' || c == '.'
}

/// A name that may ride through: lower-case letters, digits, `_` and `.`, from one to 64
/// of them.
pub open spec fn safe_key(k: Seq<char>) -> bool {
    &&& 0 < k.len() <= 64
    &&& forall|i: int| 0 <= i < k.len() ==> safe_char(#[trigger] k[i])
}

/// Whether a name may ride through.
pub fn is_safe_map_key(k: &str) -> (b: bool)
    ensures
        b == safe_key(k@),
{
    let v = to_chars(k);
    if v.len() == 0 || v.len() > 64 {
        return false;
    }
    for i in 0..v.len()
        invariant
            v@ == k@,
            forall|j: int| 0 <= j < i ==> safe_char(#[trigger] k@[j]),
    {
        let c: char = v[i];
        if !(('a' <= c && c <= 'z') || ('0' <= c && c <= '9') || c == '_' || c == '.') {
            assert(!safe_char(k@[i as int]));
            return false;
        }
    }
    true
}

/// The entries whose names may ride through, in order.
pub open spec fn safe_entries(m: Seq<(Seq<char>, i64)>) -> Seq<(Seq<char>, i64)>
    decreases m.len(),
{
    if m.len() == 0 {
        Seq::empty()
    } else if safe_key(m.last().0) {
        safe_entries(m.drop_last()).push(m.last())
    } else {
        safe_entries(m.drop_last())
    }
}

/// Drops the entries with unsafe names, and counts them.
pub fn filter_safe_keys(m: &Vec<(String, i64)>) -> (r: (Vec<(String, i64)>, usize))
    ensures
        pairs(r.0@) == safe_entries(pairs(m@)),
        r.0@.len() + r.1 == m@.len(),
        is_map(m@) ==> is_map(r.0@),
{
    let ghost all = pairs(m@);
    let mut kept: Vec<(String, i64)> = Vec::new();
    let mut dropped: usize = 0;
    assert(pairs(kept@) =~= Seq::empty());
    for i in 0..m.len()
        invariant
            all == pairs(m@),
            pairs(kept@) == safe_entries(all.take(i as int)),
            kept@.len() + dropped == i,
    {
        assert(all.take(i + 1).drop_last() =~= all.take(i as int));
        assert(all[i as int] == (m@[i as int].0@, m@[i as int].1));
        if is_safe_map_key(m[i].0.as_str()) {
            let ghost before = pairs(kept@);
            kept.push((m[i].0.clone(), m[i].1));
            assert(pairs(kept@) =~= before.push(all[i as int]));
        } else {
            dropped = dropped + 1;
        }
    }
    assert(all.take(all.len() as int) =~= all);
    proof {
        if is_map(m@) {
            lemma_safe_entries_in_order(all);
        }
    }
    (kept, dropped)
}

proof fn lemma_safe_entries_in_order(m: Seq<(Seq<char>, i64)>)
    requires
        increasing(names(m)),
    ensures
        increasing(names(safe_entries(m))),
    decreases m.len(),
{
    if m.len() > 0 {
        let init = m.drop_last();
        assert forall|i: int, j: int| 0 <= i < j < names(init).len() implies str_lt(
            #[trigger] names(init)[i],
            #[trigger] names(init)[j],
        ) by {
            assert(names(init)[i] == names(m)[i] && names(init)[j] == names(m)[j]);
        }
        lemma_safe_entries_in_order(init);
        law_only_safe_names_are_kept(init);
        let a = safe_entries(init);
        let b = safe_entries(m);
        assert forall|i: int, j: int| 0 <= i < j < names(b).len() implies str_lt(
            #[trigger] names(b)[i],
            #[trigger] names(b)[j],
        ) by {
            assert(names(b)[i] == names(a)[i]);
            if j < a.len() {
                assert(names(b)[j] == names(a)[j]);
            } else {
                assert(init.contains(a[i]));
                let k = choose|k: int| 0 <= k < init.len() && init[k] == a[i];
                assert(names(m)[k] == names(b)[i]);
                assert(names(m)[m.len() - 1] == names(b)[j]);
            }
        }
    }
}

/// Every name that is kept is safe, and every entry with a safe name is kept.
pub proof fn law_only_safe_names_are_kept(m: Seq<(Seq<char>, i64)>)
    ensures
        forall|i: int|
            0 <= i < safe_entries(m).len() ==> safe_key((#[trigger] safe_entries(m)[i]).0)
                && m.contains(safe_entries(m)[i]),
        forall|i: int|
            0 <= i < m.len() && safe_key((#[trigger] m[i]).0) ==> safe_entries(m).contains(m[i]),
    decreases m.len(),
{
    if m.len() > 0 {
        let init = m.drop_last();
        law_only_safe_names_are_kept(init);
        let a = safe_entries(init);
        let b = safe_entries(m);
        assert forall|i: int| 0 <= i < b.len() implies safe_key((#[trigger] b[i]).0)
            && m.contains(b[i]) by {
            if i < a.len() {
                assert(b[i] == a[i]);
                assert(init.contains(a[i]));
                let k = choose|k: int| 0 <= k < init.len() && init[k] == a[i];
                assert(m[k] == b[i]);
            } else {
                assert(m[m.len() - 1] == b[i]);
            }
        }
        assert forall|i: int| 0 <= i < m.len() && safe_key((#[trigger] m[i]).0) implies b.contains(
            m[i],
        ) by {
            if i < init.len() {
                assert(init[i] == m[i]);
                assert(a.contains(init[i]));
                let k = choose|k: int| 0 <= k < a.len() && a[k] == init[i];
                assert(b[k] == m[i]);
            } else {
                assert(b[b.len() - 1] == m[i]);
            }
        }
    }
}

// ---- Rows ----------------------------------------------------------------------------------

/// What is left of a query: three derived figures and whether nothing matched.
#[derive(Debug)]
pub struct QueryShape {
    pub term_count: String,
    pub length_bucket: String,
    pub had_fts5_operators: bool,
    pub and_matched_zero: bool,
}

#[derive(Clone, Copy, Debug, PartialEq, Eq, Structural)]
pub struct ExportParams {
    pub filter_set: Option<bool>,
    pub repo_set: Option<bool>,
    pub days: Option<i64>,
    pub limit_requested: Option<i64>,
}

#[derive(Clone, Copy, Debug, PartialEq, Eq, Structural)]
pub struct StagesMs {
    pub fts5_query: u64,
    pub rank: u64,
    pub join: u64,
    pub shape_response: u64,
}

#[derive(Clone, Copy, Debug, PartialEq, Eq, Structural)]
pub struct CandidateCount {
    pub fts5: i64,
    pub after_rank: i64,
}

/// What is left of an error: its bucket.
#[derive(Debug)]
pub struct ExportError {
    pub kind: String,
}

/// One scrubbed row. The time, the text of the query and the text of an error are gone.
#[derive(Debug)]
pub struct ExportRow {
    pub schema_version: u64,
    pub tool: String,
    pub query_shape: Option<QueryShape>,
    pub params: ExportParams,
    pub wall_ms: u64,
    pub stages_ms: StagesMs,
    pub candidate_count: CandidateCount,
    pub result_token_estimate: u64,
    pub cache_hit: Option<bool>,
    pub daemon_uptime_s: u64,
    pub calibration_confidence: String,
    pub counterfactual_tokens_p50: Option<u64>,
    pub counterfactual_tokens_p95: Option<u64>,
    /// Negative for a loss.
    pub tokens_saved_p50: Option<i64>,
    pub dollars_saved_p50_usd: Option<JsonNumber>,
    pub counterfactual_wall_ms_p50: Option<u64>,
    pub calibration_model_version: Option<String>,
    pub query_broadened: Option<bool>,
    pub returned_full_tokens: Option<u64>,
    pub outcome: Option<String>,
    pub error: Option<ExportError>,
}

pub struct ShapeV {
    pub term_count: Seq<char>,
    pub length_bucket: Seq<char>,
    pub had_fts5_operators: bool,
    pub and_matched_zero: bool,
}

/// What an [`ExportRow`] holds.
pub struct ExportRowV {
    pub schema_version: u64,
    pub tool: Seq<char>,
    pub query_shape: Option<ShapeV>,
    pub params: ExportParams,
    pub wall_ms: u64,
    pub stages_ms: StagesMs,
    pub candidate_count: CandidateCount,
    pub result_token_estimate: u64,
    pub cache_hit: Option<bool>,
    pub daemon_uptime_s: u64,
    pub calibration_confidence: Seq<char>,
    pub counterfactual_tokens_p50: Option<u64>,
    pub counterfactual_tokens_p95: Option<u64>,
    pub tokens_saved_p50: Option<i64>,
    pub dollars_saved_p50_usd: Option<JsonNumber>,
    pub counterfactual_wall_ms_p50: Option<u64>,
    pub calibration_model_version: Option<Seq<char>>,
    pub query_broadened: Option<bool>,
    pub returned_full_tokens: Option<u64>,
    pub outcome: Option<Seq<char>>,
    pub error_kind: Option<Seq<char>>,
}

impl View for ExportRow {
    type V = ExportRowV;

    open spec fn view(&self) -> ExportRowV {
        ExportRowV {
            schema_version: self.schema_version,
            tool: self.tool@,
            query_shape: match self.query_shape {
                Some(s) => Some(
                    ShapeV {
                        term_count: s.term_count@,
                        length_bucket: s.length_bucket@,
                        had_fts5_operators: s.had_fts5_operators,
                        and_matched_zero: s.and_matched_zero,
                    },
                ),
                None => None,
            },
            params: self.params,
            wall_ms: self.wall_ms,
            stages_ms: self.stages_ms,
            candidate_count: self.candidate_count,
            result_token_estimate: self.result_token_estimate,
            cache_hit: self.cache_hit,
            daemon_uptime_s: self.daemon_uptime_s,
            calibration_confidence: self.calibration_confidence@,
            counterfactual_tokens_p50: self.counterfactual_tokens_p50,
            counterfactual_tokens_p95: self.counterfactual_tokens_p95,
            tokens_saved_p50: self.tokens_saved_p50,
            dollars_saved_p50_usd: self.dollars_saved_p50_usd,
            counterfactual_wall_ms_p50: self.counterfactual_wall_ms_p50,
            calibration_model_version: opt_str(self.calibration_model_version),
            query_broadened: self.query_broadened,
            returned_full_tokens: self.returned_full_tokens,
            outcome: opt_str(self.outcome),
            error_kind: match self.error {
                Some(e) => Some(e.kind@),
                None => None,
            },
        }
    }
}

pub open spec fn or_zero(n: Option<u64>) -> u64 {
    match n {
        Some(v) => v,
        None => 0,
    }
}

pub open spec fn or_zero_signed(n: Option<i64>) -> i64 {
    match n {
        Some(v) => v,
        None => 0,
    }
}

/// The shape of a query: its number of words and its length, bucketed, whether it uses
/// operators, and whether nothing matched. The recorded length is used where there is one.
pub open spec fn shape_of(query: Seq<char>, recorded_len: Option<i64>, fts5: i64) -> ShapeV {
    ShapeV {
        term_count: bucket(words(query).len() as int),
        length_bucket: bucket(
            match recorded_len {
                Some(n) => n as int,
                None => query.len() as int,
            },
        ),
        had_fts5_operators: uses_operators(query),
        and_matched_zero: fts5 == 0,
    }
}

/// A tool's name where it is safe, else `unknown`.
pub open spec fn safe_tool(t: Option<Seq<char>>) -> Seq<char> {
    match t {
        Some(s) => if safe_key(s) {
            s
        } else {
            "unknown"@
        },
        None => "unknown"@,
    }
}

/// A known bucket of errors, else `unknown`.
pub open spec fn safe_kind(k: Seq<char>) -> Seq<char> {
    if k == "fts5_syntax"@ || k == "sqlite"@ || k == "internal"@ {
        k
    } else {
        "unknown"@
    }
}

/// A known tag, else the most cautious one.
pub open spec fn safe_confidence(c: Option<Seq<char>>) -> Seq<char> {
    match c {
        Some(s) => if s == "measured"@ {
            "measured"@
        } else if s == "derived"@ {
            "derived"@
        } else {
            "estimated"@
        },
        None => "estimated"@,
    }
}

/// A known outcome, else none.
pub open spec fn safe_outcome(o: Option<Seq<char>>) -> Option<Seq<char>> {
    match o {
        Some(s) => if s == "error"@ || s == "degraded"@ {
            Some(s)
        } else {
            None
        },
        None => None,
    }
}

/// What is left of a row.
pub open spec fn scrubbed(v: JsonV) -> ExportRowV {
    let fts5 = or_zero_signed(i64_of(field2(v, "candidate_count"@, "fts5"@)));
    ExportRowV {
        schema_version: or_zero(u64_of(field(v, "schema_version"@))),
        tool: safe_tool(str_of(field(v, "tool"@))),
        query_shape: match str_of(field(v, "query"@)) {
            Some(q) => Some(shape_of(q, i64_of(field2(v, "params"@, "query_len"@)), fts5)),
            None => None,
        },
        params: ExportParams {
            filter_set: bool_of(field2(v, "params"@, "filter_set"@)),
            repo_set: bool_of(field2(v, "params"@, "repo_set"@)),
            days: i64_of(field2(v, "params"@, "days"@)),
            limit_requested: i64_of(field2(v, "params"@, "limit_requested"@)),
        },
        wall_ms: or_zero(u64_of(field(v, "wall_ms"@))),
        stages_ms: StagesMs {
            fts5_query: or_zero(u64_of(field2(v, "stages_ms"@, "fts5_query"@))),
            rank: or_zero(u64_of(field2(v, "stages_ms"@, "rank"@))),
            join: or_zero(u64_of(field2(v, "stages_ms"@, "join"@))),
            shape_response: or_zero(u64_of(field2(v, "stages_ms"@, "shape_response"@))),
        },
        candidate_count: CandidateCount {
            fts5,
            after_rank: or_zero_signed(i64_of(field2(v, "candidate_count"@, "after_rank"@))),
        },
        result_token_estimate: or_zero(u64_of(field(v, "result_token_estimate"@))),
        cache_hit: bool_of(field(v, "cache_hit"@)),
        daemon_uptime_s: or_zero(u64_of(field(v, "daemon_uptime_s"@))),
        calibration_confidence: safe_confidence(str_of(field(v, "calibration_confidence"@))),
        counterfactual_tokens_p50: u64_of(field(v, "counterfactual_tokens_p50"@)),
        counterfactual_tokens_p95: u64_of(field(v, "counterfactual_tokens_p95"@)),
        tokens_saved_p50: i64_of(field(v, "tokens_saved_p50"@)),
        dollars_saved_p50_usd: num_of(field(v, "dollars_saved_p50_usd"@)),
        counterfactual_wall_ms_p50: u64_of(field(v, "counterfactual_wall_ms_p50"@)),
        calibration_model_version: str_of(field(v, "calibration_model_version"@)),
        query_broadened: bool_of(field(v, "query_broadened"@)),
        returned_full_tokens: u64_of(field(v, "returned_full_tokens"@)),
        outcome: safe_outcome(str_of(field(v, "outcome"@))),
        error_kind: match str_of(field2(v, "error"@, "kind"@)) {
            Some(k) => Some(safe_kind(k)),
            None => None,
        },
    }
}

fn u64_or_zero(v: Option<&Json>) -> (r: u64)
    ensures
        r == or_zero(u64_of(opt_json(v))),
{
    match as_u64(v) {
        Some(n) => n,
        None => 0,
    }
}

fn i64_or_zero(v: Option<&Json>) -> (r: i64)
    ensures
        r == or_zero_signed(i64_of(opt_json(v))),
{
    match as_i64(v) {
        Some(n) => n,
        None => 0,
    }
}

fn clamp_tool(t: Option<&str>) -> (r: String)
    ensures
        r@ == safe_tool(opt_ref(t)),
{
    match t {
        Some(s) => if is_safe_map_key(s) {
            s.to_owned()
        } else {
            "unknown".to_owned()
        },
        None => "unknown".to_owned(),
    }
}

fn clamp_kind(k: &str) -> (r: String)
    ensures
        r@ == safe_kind(k@),
{
    if str_eq(k, "fts5_syntax") || str_eq(k, "sqlite") || str_eq(k, "internal") {
        k.to_owned()
    } else {
        "unknown".to_owned()
    }
}

fn clamp_confidence(c: Option<&str>) -> (r: String)
    ensures
        r@ == safe_confidence(opt_ref(c)),
{
    match c {
        Some(s) => if str_eq(s, "measured") {
            "measured".to_owned()
        } else if str_eq(s, "derived") {
            "derived".to_owned()
        } else {
            "estimated".to_owned()
        },
        None => "estimated".to_owned(),
    }
}

fn clamp_outcome(o: Option<&str>) -> (r: Option<String>)
    ensures
        opt_str(r) == safe_outcome(opt_ref(o)),
{
    match o {
        Some(s) => if str_eq(s, "error") || str_eq(s, "degraded") {
            Some(s.to_owned())
        } else {
            None
        },
        None => None,
    }
}

/// A length as a count that has a sign.
fn len_as_count(n: usize) -> (r: i64)
    ensures
        bucket(r as int) == bucket(n as int),
{
    if n <= 65536 {
        n as i64
    } else {
        65536
    }
}

fn query_shape(query: &str, recorded_len: Option<i64>, fts5: i64) -> (r: QueryShape)
    ensures
        r.term_count@ == shape_of(query@, recorded_len, fts5).term_count,
        r.length_bucket@ == shape_of(query@, recorded_len, fts5).length_bucket,
        r.had_fts5_operators == uses_operators(query@),
        r.and_matched_zero == (fts5 == 0),
{
    let tokens = split_words(query);
    assert(tokens@.len() == words(query@).len());
    let len: i64 = match recorded_len {
        Some(n) => n,
        None => len_as_count(char_count(query)),
    };
    QueryShape {
        term_count: count_bucket(len_as_count(tokens.len())),
        length_bucket: length_bucket(len),
        had_fts5_operators: had_fts5_operators(query),
        and_matched_zero: fts5 == 0,
    }
}

/// Scrubs one row: only what is allowed is read.
pub fn scrub_row(v: &Json) -> (r: ExportRow)
    ensures
        r@ == scrubbed(v@),
{
    let fts5: i64 = i64_or_zero(v.get2("candidate_count", "fts5"));
    let shape = match as_str(v.get("query")) {
        Some(q) => Some(query_shape(q, as_i64(v.get2("params", "query_len")), fts5)),
        None => None,
    };
    let error = match as_str(v.get2("error", "kind")) {
        Some(k) => Some(ExportError { kind: clamp_kind(k) }),
        None => None,
    };
    let version = match as_str(v.get("calibration_model_version")) {
        Some(s) => Some(s.to_owned()),
        None => None,
    };
    ExportRow {
        schema_version: u64_or_zero(v.get("schema_version")),
        tool: clamp_tool(as_str(v.get("tool"))),
        query_shape: shape,
        params: ExportParams {
            filter_set: as_bool(v.get2("params", "filter_set")),
            repo_set: as_bool(v.get2("params", "repo_set")),
            days: as_i64(v.get2("params", "days")),
            limit_requested: as_i64(v.get2("params", "limit_requested")),
        },
        wall_ms: u64_or_zero(v.get("wall_ms")),
        stages_ms: StagesMs {
            fts5_query: u64_or_zero(v.get2("stages_ms", "fts5_query")),
            rank: u64_or_zero(v.get2("stages_ms", "rank")),
            join: u64_or_zero(v.get2("stages_ms", "join")),
            shape_response: u64_or_zero(v.get2("stages_ms", "shape_response")),
        },
        candidate_count: CandidateCount {
            fts5,
            after_rank: i64_or_zero(v.get2("candidate_count", "after_rank")),
        },
        result_token_estimate: u64_or_zero(v.get("result_token_estimate")),
        cache_hit: as_bool(v.get("cache_hit")),
        daemon_uptime_s: u64_or_zero(v.get("daemon_uptime_s")),
        calibration_confidence: clamp_confidence(as_str(v.get("calibration_confidence"))),
        counterfactual_tokens_p50: as_u64(v.get("counterfactual_tokens_p50")),
        counterfactual_tokens_p95: as_u64(v.get("counterfactual_tokens_p95")),
        tokens_saved_p50: as_i64(v.get("tokens_saved_p50")),
        dollars_saved_p50_usd: as_number(v.get("dollars_saved_p50_usd")),
        counterfactual_wall_ms_p50: as_u64(v.get("counterfactual_wall_ms_p50")),
        calibration_model_version: version,
        query_broadened: as_bool(v.get("query_broadened")),
        returned_full_tokens: as_u64(v.get("returned_full_tokens")),
        outcome: clamp_outcome(as_str(v.get("outcome"))),
        error,
    }
}

// ---- What a scrubbed row gives away --------------------------------------------------------

/// The members of a row that are read at all.
pub open spec fn allowed_member(key: Seq<char>) -> bool {
    ||| key == "schema_version"@
    ||| key == "tool"@
    ||| key == "query"@
    ||| key == "params"@
    ||| key == "wall_ms"@
    ||| key == "stages_ms"@
    ||| key == "candidate_count"@
    ||| key == "result_token_estimate"@
    ||| key == "cache_hit"@
    ||| key == "daemon_uptime_s"@
    ||| key == "calibration_confidence"@
    ||| key == "counterfactual_tokens_p50"@
    ||| key == "counterfactual_tokens_p95"@
    ||| key == "tokens_saved_p50"@
    ||| key == "dollars_saved_p50_usd"@
    ||| key == "counterfactual_wall_ms_p50"@
    ||| key == "calibration_model_version"@
    ||| key == "query_broadened"@
    ||| key == "returned_full_tokens"@
    ||| key == "outcome"@
    ||| key == "error"@
}

/// A member put in front of the others takes their place.
pub open spec fn with_member(
    o: Seq<(Seq<char>, JsonV)>,
    key: Seq<char>,
    value: JsonV,
) -> Seq<(Seq<char>, JsonV)> {
    seq![(key, value)] + o
}

proof fn lemma_other_member(
    o: Seq<(Seq<char>, JsonV)>,
    key: Seq<char>,
    value: JsonV,
    other: Seq<char>,
)
    requires
        other != key,
    ensures
        lookup(with_member(o, key, value), other) == lookup(o, other),
{
    assert(with_member(o, key, value).drop_first() =~= o);
}

/// Dropped by default: a member that is not among the allowed ones has no effect on what
/// is handed over, whatever it holds. The time of the call is such a member.
pub proof fn law_unknown_members_are_dropped(
    o: Seq<(Seq<char>, JsonV)>,
    key: Seq<char>,
    value: JsonV,
)
    requires
        !allowed_member(key),
    ensures
        scrubbed(JsonV::Obj(with_member(o, key, value))) == scrubbed(JsonV::Obj(o)),
{
    assert forall|other: Seq<char>| #[trigger] allowed_member(other) implies lookup(
        with_member(o, key, value),
        other,
    ) == lookup(o, other) by {
        lemma_other_member(o, key, value, other);
    }
    let a = JsonV::Obj(with_member(o, key, value));
    let b = JsonV::Obj(o);
    assert forall|other: Seq<char>| #[trigger] allowed_member(other) implies field(a, other)
        == field(b, other) by {}
    assert(allowed_member("schema_version"@) && allowed_member("tool"@) && allowed_member("query"@)
        && allowed_member("params"@) && allowed_member("wall_ms"@) && allowed_member("stages_ms"@)
        && allowed_member("candidate_count"@) && allowed_member("result_token_estimate"@)
        && allowed_member("cache_hit"@) && allowed_member("daemon_uptime_s"@) && allowed_member(
        "calibration_confidence"@,
    ) && allowed_member("counterfactual_tokens_p50"@) && allowed_member(
        "counterfactual_tokens_p95"@,
    ) && allowed_member("tokens_saved_p50"@) && allowed_member("dollars_saved_p50_usd"@)
        && allowed_member("counterfactual_wall_ms_p50"@) && allowed_member(
        "calibration_model_version"@,
    ) && allowed_member("query_broadened"@) && allowed_member("returned_full_tokens"@)
        && allowed_member("outcome"@) && allowed_member("error"@));
}

/// How long the names of the allowed members are. Only two are of one length with `query`,
/// itself and `error`, and none is of two characters.
proof fn lemma_member_names()
    ensures
        "query"@.len() == 5,
        "error"@.len() == 5,
        "query"@ != "error"@,
        "schema_version"@.len() == 14,
        "tool"@.len() == 4,
        "params"@.len() == 6,
        "wall_ms"@.len() == 7,
        "stages_ms"@.len() == 9,
        "candidate_count"@.len() == 15,
        "result_token_estimate"@.len() == 21,
        "cache_hit"@.len() == 9,
        "daemon_uptime_s"@.len() == 15,
        "calibration_confidence"@.len() == 22,
        "counterfactual_tokens_p50"@.len() == 25,
        "counterfactual_tokens_p95"@.len() == 25,
        "tokens_saved_p50"@.len() == 16,
        "dollars_saved_p50_usd"@.len() == 21,
        "counterfactual_wall_ms_p50"@.len() == 26,
        "calibration_model_version"@.len() == 25,
        "query_broadened"@.len() == 15,
        "returned_full_tokens"@.len() == 20,
        "outcome"@.len() == 7,
{
    reveal_strlit("schema_version");
    reveal_strlit("tool");
    reveal_strlit("query");
    reveal_strlit("params");
    reveal_strlit("wall_ms");
    reveal_strlit("stages_ms");
    reveal_strlit("candidate_count");
    reveal_strlit("result_token_estimate");
    reveal_strlit("cache_hit");
    reveal_strlit("daemon_uptime_s");
    reveal_strlit("calibration_confidence");
    reveal_strlit("counterfactual_tokens_p50");
    reveal_strlit("counterfactual_tokens_p95");
    reveal_strlit("tokens_saved_p50");
    reveal_strlit("dollars_saved_p50_usd");
    reveal_strlit("counterfactual_wall_ms_p50");
    reveal_strlit("calibration_model_version");
    reveal_strlit("query_broadened");
    reveal_strlit("returned_full_tokens");
    reveal_strlit("outcome");
    reveal_strlit("error");
    assert("error"@[0] == 'e' && "query"@[0] == 'q');
}

/// The time is not among the allowed members.
pub proof fn law_the_time_is_dropped(o: Seq<(Seq<char>, JsonV)>, value: JsonV)
    ensures
        scrubbed(JsonV::Obj(with_member(o, "ts"@, value))) == scrubbed(JsonV::Obj(o)),
{
    reveal_strlit("ts");
    assert("ts"@.len() == 2);
    lemma_member_names();
    law_unknown_members_are_dropped(o, "ts"@, value);
}

/// Of a query only its shape is handed over: two queries of the same shape cannot be told
/// apart. Where a length is recorded it is that length that counts, and not the query's.
pub proof fn law_queries_of_one_shape_look_alike(
    o: Seq<(Seq<char>, JsonV)>,
    a: Seq<char>,
    b: Seq<char>,
)
    requires
        ({
            let recorded = i64_of(field2(JsonV::Obj(o), "params"@, "query_len"@));
            &&& bucket(words(a).len() as int) == bucket(words(b).len() as int)
            &&& shape_of(a, recorded, 0).length_bucket == shape_of(b, recorded, 0).length_bucket
            &&& uses_operators(a) == uses_operators(b)
        }),
    ensures
        scrubbed(JsonV::Obj(with_member(o, "query"@, JsonV::Str(a)))) == scrubbed(
            JsonV::Obj(with_member(o, "query"@, JsonV::Str(b))),
        ),
{
    let x = with_member(o, "query"@, JsonV::Str(a));
    let y = with_member(o, "query"@, JsonV::Str(b));
    assert forall|other: Seq<char>| other != "query"@ implies #[trigger] lookup(x, other) == lookup(
        y,
        other,
    ) by {
        lemma_other_member(o, "query"@, JsonV::Str(a), other);
        lemma_other_member(o, "query"@, JsonV::Str(b), other);
    }
    lemma_member_names();
    let p = JsonV::Obj(x);
    let q = JsonV::Obj(y);
    assert forall|other: Seq<char>| other != "query"@ implies #[trigger] field(p, other) == field(
        q,
        other,
    ) by {
        assert(lookup(x, other) == lookup(y, other));
    }
    assert(field(p, "error"@) == field(q, "error"@));
    lemma_other_member(o, "query"@, JsonV::Str(a), "params"@);
    assert(field(p, "params"@) == field(JsonV::Obj(o), "params"@));
    assert(x[0] == ("query"@, JsonV::Str(a)) && y[0] == ("query"@, JsonV::Str(b)));
}

/// Of an error only its bucket is handed over: the text of its message has no effect.
pub proof fn law_error_messages_are_dropped(
    o: Seq<(Seq<char>, JsonV)>,
    e: Seq<(Seq<char>, JsonV)>,
    key: Seq<char>,
    value: JsonV,
)
    requires
        key != "kind"@,
    ensures
        scrubbed(JsonV::Obj(with_member(o, "error"@, JsonV::Obj(with_member(e, key, value)))))
            == scrubbed(JsonV::Obj(with_member(o, "error"@, JsonV::Obj(e)))),
{
    let x = with_member(o, "error"@, JsonV::Obj(with_member(e, key, value)));
    let y = with_member(o, "error"@, JsonV::Obj(e));
    lemma_other_member(e, key, value, "kind"@);
    assert forall|other: Seq<char>| other != "error"@ implies #[trigger] lookup(x, other) == lookup(
        y,
        other,
    ) by {
        lemma_other_member(o, "error"@, JsonV::Obj(with_member(e, key, value)), other);
        lemma_other_member(o, "error"@, JsonV::Obj(e), other);
    }
    lemma_member_names();
    let p = JsonV::Obj(x);
    let q = JsonV::Obj(y);
    assert forall|other: Seq<char>| other != "error"@ implies #[trigger] field(p, other) == field(
        q,
        other,
    ) by {
        assert(lookup(x, other) == lookup(y, other));
    }
    assert(field(p, "query"@) == field(q, "query"@));
    assert(x[0].0 == "error"@ && y[0].0 == "error"@);
}

/// The texts that a row carries come from closed sets, but for the version of the
/// savings model: safe names, buckets, tags, outcomes and kinds of errors.
pub proof fn law_emitted_texts_are_closed(v: JsonV)
    ensures
        ({
            let r = scrubbed(v);
            &&& safe_key(r.tool)
            &&& r.calibration_confidence == "measured"@ || r.calibration_confidence == "derived"@
                || r.calibration_confidence == "estimated"@
            &&& r.outcome matches Some(o) ==> o == "error"@ || o == "degraded"@
            &&& r.error_kind matches Some(k) ==> k == "fts5_syntax"@ || k == "sqlite"@ || k
                == "internal"@ || k == "unknown"@
            &&& r.query_shape matches Some(s) ==> (exists|i: int|
                0 <= i <= 14 && s.term_count == #[trigger] bucket_label(i)) && (exists|i: int|
                0 <= i <= 14 && s.length_bucket == #[trigger] bucket_label(i))
        }),
{
    reveal_strlit("unknown");
    let u = "unknown"@;
    assert forall|i: int| 0 <= i < u.len() implies safe_char(#[trigger] u[i]) by {}
    assert(safe_key(u));
    let r = scrubbed(v);
    if let Some(s) = r.query_shape {
        let q = str_of(field(v, "query"@))->0;
        let n = words(q).len() as int;
        let recorded = i64_of(field2(v, "params"@, "query_len"@));
        let len = match recorded {
            Some(n) => n as int,
            None => q.len() as int,
        };
        assert(s.term_count == bucket_label(bucket_index(n)));
        assert(s.length_bucket == bucket_label(bucket_index(len)));
    }
}

/// A loss survives with its sign.
pub proof fn law_losses_survive(v: JsonV)
    ensures
        scrubbed(v).tokens_saved_p50 == i64_of(field(v, "tokens_saved_p50"@)),
        scrubbed(v).dollars_saved_p50_usd == num_of(field(v, "dollars_saved_p50_usd"@)),
{
}

/// Every figure that is allowed survives with its own value: each comes from the member of
/// its own name, and from no other; a figure that must be there and is not counts as 0, and
/// an optional one stays away.
pub proof fn law_every_allowed_figure_survives(v: JsonV)
    ensures
        ({
            let r = scrubbed(v);
            &&& match u64_of(field(v, "schema_version"@)) {
                Some(n) => r.schema_version == n,
                None => r.schema_version == 0,
            }
            &&& match u64_of(field(v, "wall_ms"@)) {
                Some(n) => r.wall_ms == n,
                None => r.wall_ms == 0,
            }
            &&& match u64_of(field2(v, "stages_ms"@, "fts5_query"@)) {
                Some(n) => r.stages_ms.fts5_query == n,
                None => r.stages_ms.fts5_query == 0,
            }
            &&& match u64_of(field2(v, "stages_ms"@, "rank"@)) {
                Some(n) => r.stages_ms.rank == n,
                None => r.stages_ms.rank == 0,
            }
            &&& match u64_of(field2(v, "stages_ms"@, "join"@)) {
                Some(n) => r.stages_ms.join == n,
                None => r.stages_ms.join == 0,
            }
            &&& match u64_of(field2(v, "stages_ms"@, "shape_response"@)) {
                Some(n) => r.stages_ms.shape_response == n,
                None => r.stages_ms.shape_response == 0,
            }
            &&& match i64_of(field2(v, "candidate_count"@, "fts5"@)) {
                Some(n) => r.candidate_count.fts5 == n,
                None => r.candidate_count.fts5 == 0,
            }
            &&& match i64_of(field2(v, "candidate_count"@, "after_rank"@)) {
                Some(n) => r.candidate_count.after_rank == n,
                None => r.candidate_count.after_rank == 0,
            }
            &&& match u64_of(field(v, "result_token_estimate"@)) {
                Some(n) => r.result_token_estimate == n,
                None => r.result_token_estimate == 0,
            }
            &&& match u64_of(field(v, "daemon_uptime_s"@)) {
                Some(n) => r.daemon_uptime_s == n,
                None => r.daemon_uptime_s == 0,
            }
            &&& r.cache_hit == bool_of(field(v, "cache_hit"@))
            &&& r.counterfactual_tokens_p50 == u64_of(field(v, "counterfactual_tokens_p50"@))
            &&& r.counterfactual_tokens_p95 == u64_of(field(v, "counterfactual_tokens_p95"@))
            &&& r.tokens_saved_p50 == i64_of(field(v, "tokens_saved_p50"@))
            &&& r.dollars_saved_p50_usd == num_of(field(v, "dollars_saved_p50_usd"@))
            &&& r.counterfactual_wall_ms_p50 == u64_of(field(v, "counterfactual_wall_ms_p50"@))
            &&& r.calibration_model_version == str_of(field(v, "calibration_model_version"@))
            &&& r.query_broadened == bool_of(field(v, "query_broadened"@))
            &&& r.returned_full_tokens == u64_of(field(v, "returned_full_tokens"@))
            &&& r.params.filter_set == bool_of(field2(v, "params"@, "filter_set"@))
            &&& r.params.repo_set == bool_of(field2(v, "params"@, "repo_set"@))
            &&& r.params.days == i64_of(field2(v, "params"@, "days"@))
            &&& r.params.limit_requested == i64_of(field2(v, "params"@, "limit_requested"@))
        }),
{
}

/// The words that a row may carry: a safe name of a tool, one of three buckets of errors, of
/// two outcomes and of three tags stay as they are, and anything else is replaced or left
/// out.
pub proof fn law_known_words_stay_and_others_go(v: JsonV)
    ensures
        ({
            let r = scrubbed(v);
            let tool = str_of(field(v, "tool"@));
            let kind = str_of(field2(v, "error"@, "kind"@));
            let outcome = str_of(field(v, "outcome"@));
            let tag = str_of(field(v, "calibration_confidence"@));
            &&& tool matches Some(t) ==> r.tool == if safe_key(t) {
                t
            } else {
                "unknown"@
            }
            &&& tool is None ==> r.tool == "unknown"@
            &&& r.error_kind is Some <==> kind is Some
            &&& kind matches Some(k) ==> r.error_kind == Some(
                if k == "fts5_syntax"@ || k == "sqlite"@ || k == "internal"@ {
                    k
                } else {
                    "unknown"@
                },
            )
            &&& outcome == Some("error"@) || outcome == Some("degraded"@) <==> r.outcome is Some
            &&& r.outcome is Some ==> r.outcome == outcome
            &&& tag == Some("measured"@) || tag == Some("derived"@) ==> Some(
                r.calibration_confidence,
            ) == tag
            &&& tag != Some("measured"@) && tag != Some("derived"@) ==> r.calibration_confidence
                == "estimated"@
        }),
{
}

/// A row has a shape exactly where it had a query, and the shape says four things of it: how
/// many words it has, how long it is, by the recorded length where there is one, whether it
/// uses operators, and whether nothing matched.
pub proof fn law_the_shape_of_a_query(v: JsonV)
    ensures
        ({
            let query = str_of(field(v, "query"@));
            let recorded = i64_of(field2(v, "params"@, "query_len"@));
            let matched = i64_of(field2(v, "candidate_count"@, "fts5"@));
            let r = scrubbed(v);
            &&& r.query_shape is Some <==> query is Some
            &&& query matches Some(q) ==> {
                let s = r.query_shape->0;
                &&& s.term_count == bucket(words(q).len() as int)
                &&& recorded matches Some(n) ==> s.length_bucket == bucket(n as int)
                &&& recorded is None ==> s.length_bucket == bucket(q.len() as int)
                &&& s.had_fts5_operators <==> uses_operators(q)
                &&& s.and_matched_zero <==> matched is None || matched == Some(0i64)
            }
        }),
{
}

// ---- The report ----------------------------------------------------------------------------

/// The counts of the index, bucketed.
#[derive(Debug)]
pub struct ExportIndexer {
    pub documents: Vec<(String, String)>,
    pub session_entries: String,
    pub memory_entries: String,
    pub design_doc_sections: String,
    pub source_chunks: String,
    pub commit_entries: String,
    pub indexed_repos: String,
    pub search_index_total: String,
}

#[derive(Debug)]
pub struct ExportOrphans {
    pub session_entries: String,
    pub memory_entries: String,
    pub design_doc_sections: String,
    pub indexed_repos: String,
}

/// The file watcher without its times and paths.
#[derive(Clone, Copy, Debug, PartialEq, Eq, Structural)]
pub struct ExportFileWatcher {
    pub events_total: i64,
    pub events_coalesced_total: i64,
    pub subscription_count: usize,
}

#[derive(Debug)]
pub struct ExportPerTool {
    pub queries: i64,
    pub tokens_saved_p50: i64,
    pub dollars_saved_p50_usd: u64,
}

#[derive(Debug)]
pub struct ExportWindow {
    pub queries_served: i64,
    pub tokens_returned: i64,
    pub counterfactual_tokens_p50: i64,
    pub tokens_saved_p50: i64,
    pub dollars_saved_p50_usd: u64,
    pub per_tool: Vec<(String, ExportPerTool)>,
}

#[derive(Debug)]
pub struct ExportCostSavings {
    pub calibration_model_version: String,
    pub window_1d: ExportWindow,
    pub window_7d: ExportWindow,
    pub window_30d: ExportWindow,
}

/// The scrubbed health report.
#[derive(Debug)]
pub struct ExportSnapshot {
    pub schema_version: i64,
    pub daemon_uptime_s: i64,
    pub indexer: ExportIndexer,
    pub orphans: ExportOrphans,
    pub shallow_repo_count: usize,
    pub perf_p50_ms: Vec<(String, i64)>,
    pub perf_p95_ms: Vec<(String, i64)>,
    pub file_watcher: Option<ExportFileWatcher>,
    pub extractors_last_run_ms: Vec<(String, i64)>,
    pub cost_savings: Option<ExportCostSavings>,
}

impl ExportSnapshot {
    /// Its tables are ordered maps: each name stands once, and the names are in order.
    pub open spec fn is_ordered(self) -> bool {
        &&& is_map(self.indexer.documents@)
        &&& is_map(self.perf_p50_ms@)
        &&& is_map(self.perf_p95_ms@)
        &&& is_map(self.extractors_last_run_ms@)
        &&& self.cost_savings matches Some(l) ==> is_map(l.window_1d.per_tool@) && is_map(
            l.window_7d.per_tool@,
        ) && is_map(l.window_30d.per_tool@)
    }
}

/// Pairs of a name and a bucket.
pub open spec fn label_pairs(v: Seq<(String, String)>) -> Seq<(Seq<char>, Seq<char>)> {
    Seq::new(v.len(), |i: int| (v[i].0@, v[i].1@))
}

/// Counts as buckets.
pub open spec fn bucketed(m: Seq<(Seq<char>, i64)>) -> Seq<(Seq<char>, Seq<char>)> {
    Seq::new(m.len(), |i: int| (m[i].0, bucket(m[i].1 as int)))
}

/// The savings of a window say what they said.
pub open spec fn window_of(w: ExportWindow, c: CostSavingsWindow) -> bool {
    &&& w.queries_served == c.queries_served
    &&& w.tokens_returned == c.tokens_returned
    &&& w.counterfactual_tokens_p50 == c.counterfactual_tokens_p50
    &&& w.tokens_saved_p50 == c.tokens_saved_p50
    &&& w.dollars_saved_p50_usd == c.dollars_saved_p50_usd
    &&& w.per_tool@.len() == c.per_tool@.len()
    &&& forall|i: int|
        0 <= i < c.per_tool@.len() ==> (#[trigger] w.per_tool@[i]).0@ == c.per_tool@[i].0@
            && w.per_tool@[i].1.queries == c.per_tool@[i].1.queries
            && w.per_tool@[i].1.tokens_saved_p50 == c.per_tool@[i].1.tokens_saved_p50
            && w.per_tool@[i].1.dollars_saved_p50_usd == c.per_tool@[i].1.dollars_saved_p50_usd
}

/// What is left of a health report: counts become buckets, lists of paths become their
/// lengths, entries with unsafe names are gone, and so are times, builds, retired corpora
/// and adoption.
pub open spec fn snapshot_of(s: ExportSnapshot, c: CheckResult) -> bool {
    &&& s.schema_version == c.schema_version
    &&& s.daemon_uptime_s == c.daemon_uptime_s
    &&& label_pairs(s.indexer.documents@) == bucketed(safe_entries(pairs(c.indexer.documents@)))
    &&& s.indexer.session_entries@ == bucket(c.indexer.session_entries as int)
    &&& s.indexer.memory_entries@ == bucket(c.indexer.memory_entries as int)
    &&& s.indexer.design_doc_sections@ == bucket(c.indexer.design_doc_sections as int)
    &&& s.indexer.source_chunks@ == bucket(c.indexer.source_chunks as int)
    &&& s.indexer.commit_entries@ == bucket(c.indexer.commit_entries as int)
    &&& s.indexer.indexed_repos@ == bucket(c.indexer.indexed_repos as int)
    &&& s.indexer.search_index_total@ == bucket(c.indexer.search_index_total as int)
    &&& s.orphans.session_entries@ == bucket(c.orphans.session_entries as int)
    &&& s.orphans.memory_entries@ == bucket(c.orphans.memory_entries as int)
    &&& s.orphans.design_doc_sections@ == bucket(c.orphans.design_doc_sections as int)
    &&& s.orphans.indexed_repos@ == bucket(c.orphans.indexed_repos as int)
    &&& s.shallow_repo_count == c.shallow_repos@.len()
    &&& pairs(s.perf_p50_ms@) == safe_entries(pairs(c.perf_p50_ms@))
    &&& pairs(s.perf_p95_ms@) == safe_entries(pairs(c.perf_p95_ms@))
    &&& pairs(s.extractors_last_run_ms@) == safe_entries(pairs(c.extractors_last_run_ms@))
    &&& match c.file_watcher {
        Some(f) => s.file_watcher == Some(
            (ExportFileWatcher {
                events_total: f.events_total,
                events_coalesced_total: f.events_coalesced_total,
                subscription_count: f.subscriptions@.len() as usize,
            }),
        ),
        None => s.file_watcher is None,
    }
    &&& match c.cost_savings {
        Some(l) => s.cost_savings matches Some(e) && e.calibration_model_version@
            == l.calibration_model_version@ && window_of(e.window_1d, l.window_1d) && window_of(
            e.window_7d,
            l.window_7d,
        ) && window_of(e.window_30d, l.window_30d),
        None => s.cost_savings is None,
    }
}

/// How many entries with unsafe names a report has.
pub open spec fn unsafe_names(c: CheckResult) -> int {
    (c.indexer.documents@.len() - safe_entries(pairs(c.indexer.documents@)).len())
        + (c.perf_p50_ms@.len() - safe_entries(pairs(c.perf_p50_ms@)).len())
        + (c.perf_p95_ms@.len() - safe_entries(pairs(c.perf_p95_ms@)).len())
        + (c.extractors_last_run_ms@.len() - safe_entries(pairs(c.extractors_last_run_ms@)).len())
}

fn export_window(c: &CostSavingsWindow) -> (w: ExportWindow)
    ensures
        window_of(w, *c),
        c.is_ordered() ==> is_map(w.per_tool@),
{
    let mut per_tool: Vec<(String, ExportPerTool)> = Vec::new();
    for i in 0..c.per_tool.len()
        invariant
            per_tool@.len() == i,
            forall|j: int|
                0 <= j < i ==> (#[trigger] per_tool@[j]).0@ == c.per_tool@[j].0@
                    && per_tool@[j].1.queries == c.per_tool@[j].1.queries
                    && per_tool@[j].1.tokens_saved_p50 == c.per_tool@[j].1.tokens_saved_p50
                    && per_tool@[j].1.dollars_saved_p50_usd
                    == c.per_tool@[j].1.dollars_saved_p50_usd,
    {
        let t = &c.per_tool[i];
        per_tool.push(
            (
                t.0.clone(),
                ExportPerTool {
                    queries: t.1.queries,
                    tokens_saved_p50: t.1.tokens_saved_p50,
                    dollars_saved_p50_usd: t.1.dollars_saved_p50_usd,
                },
            ),
        );
    }
    assert(names(pairs(per_tool@)) =~= names(pairs(c.per_tool@)));
    ExportWindow {
        queries_served: c.queries_served,
        tokens_returned: c.tokens_returned,
        counterfactual_tokens_p50: c.counterfactual_tokens_p50,
        tokens_saved_p50: c.tokens_saved_p50,
        dollars_saved_p50_usd: c.dollars_saved_p50_usd,
        per_tool,
    }
}

/// Scrubs the health report, and says how many entries with unsafe names were dropped.
pub fn scrub_snapshot(c: &CheckResult) -> (r: (ExportSnapshot, usize))
    requires
        unsafe_names(*c) <= usize::MAX,
    ensures
        snapshot_of(r.0, *c),
        r.1 == unsafe_names(*c),
        c.is_ordered() ==> r.0.is_ordered(),
{
    let (safe_docs, d_docs) = filter_safe_keys(&c.indexer.documents);
    let (perf_p50_ms, d_p50) = filter_safe_keys(&c.perf_p50_ms);
    let (perf_p95_ms, d_p95) = filter_safe_keys(&c.perf_p95_ms);
    let (extractors_last_run_ms, d_ext) = filter_safe_keys(&c.extractors_last_run_ms);
    assert(safe_docs@.len() == pairs(safe_docs@).len());
    assert(perf_p50_ms@.len() == pairs(perf_p50_ms@).len());
    assert(perf_p95_ms@.len() == pairs(perf_p95_ms@).len());
    assert(extractors_last_run_ms@.len() == pairs(extractors_last_run_ms@).len());
    let dropped: usize = d_docs + d_p50 + d_p95 + d_ext;
    let mut documents: Vec<(String, String)> = Vec::new();
    for i in 0..safe_docs.len()
        invariant
            documents@.len() == i,
            forall|j: int|
                0 <= j < i ==> (#[trigger] documents@[j]).0@ == safe_docs@[j].0@
                    && documents@[j].1@ == bucket(safe_docs@[j].1 as int),
    {
        documents.push((safe_docs[i].0.clone(), count_bucket(safe_docs[i].1)));
    }
    assert(label_pairs(documents@) =~= bucketed(pairs(safe_docs@)));
    assert(names(pairs(documents@)) =~= names(pairs(safe_docs@)));
    let file_watcher = match &c.file_watcher {
        Some(f) => Some(
            ExportFileWatcher {
                events_total: f.events_total,
                events_coalesced_total: f.events_coalesced_total,
                subscription_count: f.subscriptions.len(),
            },
        ),
        None => None,
    };
    let cost_savings = match &c.cost_savings {
        Some(l) => Some(
            ExportCostSavings {
                calibration_model_version: l.calibration_model_version.clone(),
                window_1d: export_window(&l.window_1d),
                window_7d: export_window(&l.window_7d),
                window_30d: export_window(&l.window_30d),
            },
        ),
        None => None,
    };
    let snapshot = ExportSnapshot {
        schema_version: c.schema_version,
        daemon_uptime_s: c.daemon_uptime_s,
        indexer: ExportIndexer {
            documents,
            session_entries: count_bucket(c.indexer.session_entries),
            memory_entries: count_bucket(c.indexer.memory_entries),
            design_doc_sections: count_bucket(c.indexer.design_doc_sections),
            source_chunks: count_bucket(c.indexer.source_chunks),
            commit_entries: count_bucket(c.indexer.commit_entries),
            indexed_repos: count_bucket(c.indexer.indexed_repos),
            search_index_total: count_bucket(c.indexer.search_index_total),
        },
        orphans: ExportOrphans {
            session_entries: count_bucket(c.orphans.session_entries),
            memory_entries: count_bucket(c.orphans.memory_entries),
            design_doc_sections: count_bucket(c.orphans.design_doc_sections),
            indexed_repos: count_bucket(c.orphans.indexed_repos),
        },
        shallow_repo_count: c.shallow_repos.len(),
        perf_p50_ms,
        perf_p95_ms,
        file_watcher,
        extractors_last_run_ms,
        cost_savings,
    };
    (snapshot, dropped)
}

// ---- The legend ----------------------------------------------------------------------------

/// What one member of the payload means.
#[derive(Debug)]
pub struct LegendEntry {
    pub key: String,
    pub what: String,
    pub units: String,
    pub confidence: String,
}

pub open spec fn legend_view(v: Seq<LegendEntry>) -> Seq<
    (Seq<char>, Seq<char>, Seq<char>, Seq<char>),
> {
    Seq::new(v.len(), |i: int| (v[i].key@, v[i].what@, v[i].units@, v[i].confidence@))
}

/// What the members of the payload mean: for each its meaning, its units and how sure the
/// figure is.
pub open spec fn legend() -> Seq<(Seq<char>, Seq<char>, Seq<char>, Seq<char>)> {
    seq![
        (
            "snapshot.daemon_uptime_s"@,
            "daemon uptime; 0 for a CLI-recomputed snapshot (per-call rows carry real uptime)"@,
            "s"@,
            "measured"@,
        ),
        (
            "snapshot.indexer.*"@,
            "corpus counts, mapped to the count_bucket_ladder"@,
            "bucket"@,
            "derived"@,
        ),
        (
            "snapshot.orphans.*"@,
            "index-health orphan counts, bucketed"@,
            "bucket"@,
            "derived"@,
        ),
        (
            "snapshot.shallow_repo_count"@,
            "number of shallow repos (paths dropped, §5.3)"@,
            "count"@,
            "measured"@,
        ),
        (
            "snapshot.file_watcher.subscription_count"@,
            "number of watched paths (paths dropped, §5.3)"@,
            "count"@,
            "measured"@,
        ),
        (
            "calls[].query_shape.term_count"@,
            "whitespace-split token count of the (dropped) query, mapped to count_bucket_ladder"@,
            "bucket"@,
            "derived"@,
        ),
        (
            "calls[].query_shape.length_bucket"@,
            "query length, mapped to count_bucket_ladder"@,
            "bucket"@,
            "derived"@,
        ),
        (
            "calls[].query_shape.had_fts5_operators"@,
            "any FTS5 operator present in the (dropped) query"@,
            "bool"@,
            "derived"@,
        ),
        (
            "calls[].query_shape.and_matched_zero"@,
            "the strict AND query matched nothing (candidate_count.fts5 == 0)"@,
            "bool"@,
            "derived"@,
        ),
        (
            "calls[].query_broadened"@,
            "D-10.13 OR-fallback fired; absent off the FTS5 path"@,
            "bool"@,
            "measured"@,
        ),
        (
            "calls[].wall_ms"@,
            "tool handler wall time"@,
            "ms"@,
            "measured"@,
        ),
        (
            "calls[].stages_ms"@,
            "per-stage handler timing"@,
            "ms"@,
            "measured"@,
        ),
        (
            "calls[].candidate_count"@,
            "FTS5 matched / after-rank counts"@,
            "count"@,
            "measured"@,
        ),
        (
            "calls[].result_token_estimate"@,
            "serialized envelope size ÷ 4"@,
            "tokens"@,
            "measured"@,
        ),
        (
            "calls[].returned_full_tokens"@,
            "summed untruncated size of the returned hits ÷ 4 — the by-hand read size for the grounded counterfactual; absent off the FTS5 path"@,
            "tokens"@,
            "measured"@,
        ),
        (
            "calls[].counterfactual_tokens_p50"@,
            "modelled tokens a non-nibdex baseline would have read"@,
            "tokens"@,
            "estimated"@,
        ),
        (
            "calls[].tokens_saved_p50"@,
            "counterfactual_p50 − result_token_estimate; SIGNED (negative = a loss)"@,
            "tokens"@,
            "estimated"@,
        ),
        (
            "calls[].dollars_saved_p50_usd"@,
            "tokens_saved_p50 priced at the model input rate"@,
            "usd"@,
            "estimated"@,
        ),
        (
            "calls[].error.kind"@,
            "coarse error bucket; the verbatim message is dropped"@,
            "enum"@,
            "measured"@,
        ),
        (
            "snapshot.cost_savings.*.tokens_saved_p50"@,
            "windowed savings; SIGNED, losses included"@,
            "tokens"@,
            "estimated"@,
        ),
    ]
}

fn explain(out: &mut Vec<LegendEntry>, key: &str, what: &str, units: &str, confidence: &str)
    ensures
        legend_view(final(out)@) == legend_view(old(out)@).push(
            (key@, what@, units@, confidence@),
        ),
{
    let ghost before = legend_view(out@);
    out.push(
        LegendEntry {
            key: key.to_owned(),
            what: what.to_owned(),
            units: units.to_owned(),
            confidence: confidence.to_owned(),
        },
    );
    assert(legend_view(out@) =~= before.push((key@, what@, units@, confidence@)));
}

/// What the members of the payload mean, beside [`BUCKET_LADDER`].
pub fn build_legend() -> (r: Vec<LegendEntry>)
    ensures
        legend_view(r@) == legend(),
{
    let mut out: Vec<LegendEntry> = Vec::new();
    explain(
        &mut out,
        "snapshot.daemon_uptime_s",
        "daemon uptime; 0 for a CLI-recomputed snapshot (per-call rows carry real uptime)",
        "s",
        "measured",
    );
    explain(
        &mut out,
        "snapshot.indexer.*",
        "corpus counts, mapped to the count_bucket_ladder",
        "bucket",
        "derived",
    );
    explain(
        &mut out,
        "snapshot.orphans.*",
        "index-health orphan counts, bucketed",
        "bucket",
        "derived",
    );
    explain(
        &mut out,
        "snapshot.shallow_repo_count",
        "number of shallow repos (paths dropped, §5.3)",
        "count",
        "measured",
    );
    explain(
        &mut out,
        "snapshot.file_watcher.subscription_count",
        "number of watched paths (paths dropped, §5.3)",
        "count",
        "measured",
    );
    explain(
        &mut out,
        "calls[].query_shape.term_count",
        "whitespace-split token count of the (dropped) query, mapped to count_bucket_ladder",
        "bucket",
        "derived",
    );
    explain(
        &mut out,
        "calls[].query_shape.length_bucket",
        "query length, mapped to count_bucket_ladder",
        "bucket",
        "derived",
    );
    explain(
        &mut out,
        "calls[].query_shape.had_fts5_operators",
        "any FTS5 operator present in the (dropped) query",
        "bool",
        "derived",
    );
    explain(
        &mut out,
        "calls[].query_shape.and_matched_zero",
        "the strict AND query matched nothing (candidate_count.fts5 == 0)",
        "bool",
        "derived",
    );
    explain(
        &mut out,
        "calls[].query_broadened",
        "D-10.13 OR-fallback fired; absent off the FTS5 path",
        "bool",
        "measured",
    );
    explain(
        &mut out,
        "calls[].wall_ms",
        "tool handler wall time",
        "ms",
        "measured",
    );
    explain(
        &mut out,
        "calls[].stages_ms",
        "per-stage handler timing",
        "ms",
        "measured",
    );
    explain(
        &mut out,
        "calls[].candidate_count",
        "FTS5 matched / after-rank counts",
        "count",
        "measured",
    );
    explain(
        &mut out,
        "calls[].result_token_estimate",
        "serialized envelope size ÷ 4",
        "tokens",
        "measured",
    );
    explain(
        &mut out,
        "calls[].returned_full_tokens",
        "summed untruncated size of the returned hits ÷ 4 — the by-hand read size for the grounded counterfactual; absent off the FTS5 path",
        "tokens",
        "measured",
    );
    explain(
        &mut out,
        "calls[].counterfactual_tokens_p50",
        "modelled tokens a non-nibdex baseline would have read",
        "tokens",
        "estimated",
    );
    explain(
        &mut out,
        "calls[].tokens_saved_p50",
        "counterfactual_p50 − result_token_estimate; SIGNED (negative = a loss)",
        "tokens",
        "estimated",
    );
    explain(
        &mut out,
        "calls[].dollars_saved_p50_usd",
        "tokens_saved_p50 priced at the model input rate",
        "usd",
        "estimated",
    );
    explain(
        &mut out,
        "calls[].error.kind",
        "coarse error bucket; the verbatim message is dropped",
        "enum",
        "measured",
    );
    explain(
        &mut out,
        "snapshot.cost_savings.*.tokens_saved_p50",
        "windowed savings; SIGNED, losses included",
        "tokens",
        "estimated",
    );
    assert(legend_view(out@) =~= legend());
    out
}

// ---- The rows of a stream --------------------------------------------------------------------

/// Where a row stands with respect to the window.
pub enum WindowV {
    Inside,
    Outside,
    /// It says no time, or none that can be read: it is kept, and counted.
    Undated,
}

/// Where a row stands with respect to the window that begins at `cutoff`.
pub open spec fn window_place(doc: JsonV, cutoff: Option<Moment>) -> WindowV {
    match cutoff {
        None => WindowV::Inside,
        Some(c) => match str_of(field(doc, "ts"@)) {
            None => WindowV::Undated,
            Some(t) => match rfc3339_moment(t) {
                None => WindowV::Undated,
                Some(m) => if m.before(c) {
                    WindowV::Outside
                } else {
                    WindowV::Inside
                },
            },
        },
    }
}

pub open spec fn is_error_row(r: ExportRowV) -> bool {
    r.outcome == Some("error"@) || r.error_kind is Some
}

pub open spec fn is_loss_row(r: ExportRowV) -> bool {
    r.tokens_saved_p50 matches Some(n) && n < 0
}

/// What the rows read so far have yielded.
pub struct ExportV {
    pub calls: Seq<ExportRowV>,
    pub rows_total: nat,
    pub rows_unparseable_ts: nat,
    pub error_rows: nat,
    pub loss_rows: nat,
}

pub open spec fn empty_export() -> ExportV {
    ExportV {
        calls: Seq::empty(),
        rows_total: 0,
        rows_unparseable_ts: 0,
        error_rows: 0,
        loss_rows: 0,
    }
}

/// One row more.
pub open spec fn with_row(e: ExportV, doc: JsonV, cutoff: Option<Moment>) -> ExportV {
    let place = window_place(doc, cutoff);
    if place is Outside {
        ExportV { rows_total: e.rows_total + 1, ..e }
    } else {
        let row = scrubbed(doc);
        ExportV {
            calls: e.calls.push(row),
            rows_total: e.rows_total + 1,
            rows_unparseable_ts: if place is Undated {
                e.rows_unparseable_ts + 1
            } else {
                e.rows_unparseable_ts
            },
            error_rows: if is_error_row(row) {
                e.error_rows + 1
            } else {
                e.error_rows
            },
            loss_rows: if is_loss_row(row) {
                e.loss_rows + 1
            } else {
                e.loss_rows
            },
        }
    }
}

/// The rows of a stream: a blank line is passed over, and a line that holds no document
/// makes the whole stream unusable.
pub open spec fn exported(lines: Seq<Seq<char>>, cutoff: Option<Moment>) -> Option<ExportV>
    decreases lines.len(),
{
    if lines.len() == 0 {
        Some(empty_export())
    } else {
        match exported(lines.drop_last(), cutoff) {
            None => None,
            Some(e) => {
                let line = trimmed(lines.last());
                if line.len() == 0 {
                    Some(e)
                } else {
                    match json_document(line) {
                        None => None,
                        Some(doc) => Some(with_row(e, doc, cutoff)),
                    }
                }
            },
        }
    }
}

/// The rows of a stream, with the figures that say what was left out.
#[derive(Debug)]
pub struct ExportRows {
    pub calls: Vec<ExportRow>,
    pub rows_total: usize,
    pub rows_unparseable_ts: usize,
    pub error_rows: usize,
    pub loss_rows: usize,
}

pub open spec fn rows_view(v: Seq<ExportRow>) -> Seq<ExportRowV> {
    Seq::new(v.len(), |i: int| v[i]@)
}

impl View for ExportRows {
    type V = ExportV;

    open spec fn view(&self) -> ExportV {
        ExportV {
            calls: rows_view(self.calls@),
            rows_total: self.rows_total as nat,
            rows_unparseable_ts: self.rows_unparseable_ts as nat,
            error_rows: self.error_rows as nat,
            loss_rows: self.loss_rows as nat,
        }
    }
}

/// A line that holds no document.
#[derive(Debug)]
pub struct BadLine {
    pub line: String,
}

impl ExportRows {
    /// A stream of which nothing has been read.
    pub fn new() -> (r: ExportRows)
        ensures
            r@ == empty_export(),
            r.within(0),
    {
        let r = ExportRows {
            calls: Vec::new(),
            rows_total: 0,
            rows_unparseable_ts: 0,
            error_rows: 0,
            loss_rows: 0,
        };
        assert(r@.calls =~= Seq::empty());
        r
    }

    /// No figure exceeds `n`.
    pub open spec fn within(&self, n: int) -> bool {
        &&& self.rows_total <= n
        &&& self.rows_unparseable_ts <= n
        &&& self.error_rows <= n
        &&& self.loss_rows <= n
    }

    /// Takes in one row.
    pub fn row(&mut self, doc: &Json, cutoff: Option<Moment>)
        requires
            old(self).within(usize::MAX - 1),
        ensures
            final(self)@ == with_row(old(self)@, doc@, cutoff),
            forall|n: int| old(self).within(n) ==> final(self).within(n + 1),
    {
        self.rows_total = self.rows_total + 1;
        let mut undated = false;
        if let Some(c) = cutoff {
            match as_str(doc.get("ts")) {
                None => {
                    undated = true;
                },
                Some(t) => match parse_moment(t) {
                    None => {
                        undated = true;
                    },
                    Some(m) => {
                        if m.is_before(&c) {
                            return;
                        }
                    },
                },
            }
        }
        if undated {
            self.rows_unparseable_ts = self.rows_unparseable_ts + 1;
        }
        let row = scrub_row(doc);
        if crate::text::opt_is(&row.outcome, "error") || row.error.is_some() {
            self.error_rows = self.error_rows + 1;
        }
        let loss = match row.tokens_saved_p50 {
            Some(n) => n < 0,
            None => false,
        };
        if loss {
            self.loss_rows = self.loss_rows + 1;
        }
        let ghost before = rows_view(self.calls@);
        self.calls.push(row);
        assert(rows_view(self.calls@) =~= before.push(row@));
    }
}

proof fn lemma_bad_line_stays(lines: Seq<Seq<char>>, i: int, cutoff: Option<Moment>)
    requires
        0 <= i <= lines.len(),
        exported(lines.take(i), cutoff) is None,
    ensures
        exported(lines, cutoff) is None,
    decreases lines.len() - i,
{
    if i < lines.len() {
        assert(lines.take(i + 1).drop_last() =~= lines.take(i));
        lemma_bad_line_stays(lines, i + 1, cutoff);
    } else {
        assert(lines.take(i) =~= lines);
    }
}

/// `line` is the first line that is not blank and holds no document, without the white
/// space around it.
pub open spec fn first_bad_line(
    lines: Seq<Seq<char>>,
    cutoff: Option<Moment>,
    line: Seq<char>,
) -> bool {
    &&& line.len() > 0
    &&& json_document(line) is None
    &&& exists|i: int|
        0 <= i < lines.len() && line == trimmed(#[trigger] lines[i]) && exported(
            lines.take(i),
            cutoff,
        ) is Some
}

proof fn lemma_bad_line(lines: Seq<Seq<char>>, i: int, cutoff: Option<Moment>)
    requires
        0 <= i < lines.len(),
        exported(lines.take(i), cutoff) is Some,
        trimmed(lines[i]).len() > 0,
        json_document(trimmed(lines[i])) is None,
    ensures
        exported(lines, cutoff) is None,
        first_bad_line(lines, cutoff, trimmed(lines[i])),
{
    assert(lines.take(i + 1).drop_last() =~= lines.take(i));
    lemma_bad_line_stays(lines, i + 1, cutoff);
}

/// Reads and scrubs the rows of a stream, within the window that begins at `cutoff`.
pub fn export_rows(raw: &str, cutoff: Option<Moment>) -> (r: Result<ExportRows, BadLine>)
    ensures
        match r {
            Ok(e) => exported(lines_of(raw@), cutoff) == Some(e@),
            Err(b) => exported(lines_of(raw@), cutoff) is None && first_bad_line(
                lines_of(raw@),
                cutoff,
                b.line@,
            ),
        },
{
    let lines = split_lines(raw);
    let ghost all = strs(lines@);
    let mut out = ExportRows::new();
    assert(all.take(0) =~= Seq::empty());
    for i in 0..lines.len()
        invariant
            all == strs(lines@),
            all == lines_of(raw@),
            exported(all.take(i as int), cutoff) == Some(out@),
            out.within(i as int),
            lines@.len() <= usize::MAX,
    {
        assert(all.take(i + 1).drop_last() =~= all.take(i as int));
        assert(all[i as int] == lines@[i as int]@);
        assert(lines@.len() == lines.len());
        let line = trim(lines[i].as_str());
        if char_count(line.as_str()) > 0 {
            match parse_json(line.as_str()) {
                None => {
                    proof {
                        lemma_bad_line(all, i as int, cutoff);
                    }
                    return Err(BadLine { line });
                },
                Some(doc) => {
                    out.row(&doc, cutoff);
                },
            }
        }
    }
    assert(all.take(all.len() as int) =~= all);
    Ok(out)
}

/// Every row is accounted for: it is kept or it is outside the window, and what is
/// counted as undated, as an error or as a loss is among the kept ones.
pub proof fn law_rows_are_accounted_for(lines: Seq<Seq<char>>, cutoff: Option<Moment>)
    ensures
        exported(lines, cutoff) matches Some(e) ==> {
            &&& e.calls.len() <= e.rows_total <= lines.len()
            &&& cutoff is None ==> e.calls.len() == e.rows_total && e.rows_unparseable_ts == 0
            &&& e.rows_unparseable_ts <= e.calls.len()
            &&& e.error_rows <= e.calls.len()
            &&& e.loss_rows <= e.calls.len()
        },
    decreases lines.len(),
{
    if lines.len() > 0 {
        law_rows_are_accounted_for(lines.drop_last(), cutoff);
    }
}

// ---- The window ------------------------------------------------------------------------------

/// The earliest second that can be told.
pub const EARLIEST_SECOND: i64 = -8334601228800;

/// The beginning of a window of `days` days that ends now.
pub fn window_start(days: Option<u32>, now: Moment) -> (r: Option<Moment>)
    requires
        days matches Some(d) ==> now.secs - d * 86400 >= EARLIEST_SECOND,
    ensures
        match (days, r) {
            (Some(d), Some(m)) => m.secs == now.secs - d * 86400 && m.nanos == now.nanos,
            (None, None) => true,
            _ => false,
        },
{
    match days {
        Some(d) => {
            assert(0 <= d * 86400 <= u32::MAX * 86400) by (nonlinear_arith)
                requires
                    0 <= d <= u32::MAX,
            ;
            let back: i64 = d as i64 * 86400;
            Some(Moment { secs: now.secs - back, nanos: now.nanos })
        },
        None => None,
    }
}

// ---- The payload -----------------------------------------------------------------------------

/// The version of the payload.
pub const FORMAT_VERSION: u32 = 1;

/// The head of the payload.
#[derive(Debug)]
pub struct BundleMeta {
    pub format_version: u32,
    /// Where the payload is described.
    pub scrub_spec: String,
    pub window_days: Option<u32>,
    pub rows_in_window: usize,
}

/// The payload.
#[derive(Debug)]
pub struct Bundle {
    pub nibdex_metrics_export: BundleMeta,
    pub legend: Vec<LegendEntry>,
    pub snapshot: ExportSnapshot,
    pub calls: Vec<ExportRow>,
}

/// What the user is told about an export, so that nothing is left out in silence.
#[derive(Debug)]
pub struct ExportSummary {
    pub out_path: String,
    pub rows_total: usize,
    pub rows_in_window: usize,
    pub rows_unparseable_ts: usize,
    pub error_rows: usize,
    pub loss_rows: usize,
    pub window_days: Option<u32>,
    pub dropped_unsafe_keys: usize,
}

/// Puts the payload and its summary together. `scrub_spec` tells the reader of the payload
/// where it is described.
pub fn run_export(
    check: &CheckResult,
    raw: &str,
    days: Option<u32>,
    now: Moment,
    scrub_spec: &str,
    out_path: &str,
) -> (r: Result<(Bundle, ExportSummary), BadLine>)
    requires
        unsafe_names(*check) <= usize::MAX,
        days matches Some(d) ==> now.secs - d * 86400 >= EARLIEST_SECOND,
    ensures
        ({
            let cutoff = match days {
                Some(d) => Some(
                    Moment { secs: (now.secs - d * 86400) as i64, nanos: now.nanos },
                ),
                None => None,
            };
            let rows = exported(lines_of(raw@), cutoff);
            match r {
                Err(b) => rows is None && first_bad_line(lines_of(raw@), cutoff, b.line@),
                Ok((bundle, summary)) => rows matches Some(e) && {
                    &&& rows_view(bundle.calls@) == e.calls
                    &&& bundle.nibdex_metrics_export.format_version == FORMAT_VERSION
                    &&& bundle.nibdex_metrics_export.scrub_spec@ == scrub_spec@
                    &&& bundle.nibdex_metrics_export.window_days == days
                    &&& bundle.nibdex_metrics_export.rows_in_window == e.calls.len()
                    &&& legend_view(bundle.legend@) == legend()
                    &&& snapshot_of(bundle.snapshot, *check)
                    &&& check.is_ordered() ==> bundle.snapshot.is_ordered()
                    &&& summary.out_path@ == out_path@
                    &&& summary.rows_total == e.rows_total
                    &&& summary.rows_in_window == e.calls.len()
                    &&& summary.rows_unparseable_ts == e.rows_unparseable_ts
                    &&& summary.error_rows == e.error_rows
                    &&& summary.loss_rows == e.loss_rows
                    &&& summary.window_days == days
                    &&& summary.dropped_unsafe_keys == unsafe_names(*check)
                },
            }
        }),
{
    let (snapshot, dropped_unsafe_keys) = scrub_snapshot(check);
    let cutoff = window_start(days, now);
    match export_rows(raw, cutoff) {
        Err(b) => Err(b),
        Ok(rows) => {
            let rows_in_window: usize = rows.calls.len();
            let bundle = Bundle {
                nibdex_metrics_export: BundleMeta {
                    format_version: FORMAT_VERSION,
                    scrub_spec: scrub_spec.to_owned(),
                    window_days: days,
                    rows_in_window,
                },
                legend: build_legend(),
                snapshot,
                calls: rows.calls,
            };
            let summary = ExportSummary {
                out_path: out_path.to_owned(),
                rows_total: rows.rows_total,
                rows_in_window,
                rows_unparseable_ts: rows.rows_unparseable_ts,
                error_rows: rows.error_rows,
                loss_rows: rows.loss_rows,
                window_days: days,
                dropped_unsafe_keys,
            };
            Ok((bundle, summary))
        },
    }
}

} // verus!

//! Scoring the calls of an archived export anew, under the savings model of today.
use vstd::prelude::*;

pub mod line_laws;
pub mod report_laws;
pub mod row_laws;

use crate::cost_ledger::{model_saved, CalibrationModel};
use crate::json::{
    arr_of, as_array, as_i64, as_str, as_u64, field, field2, i64_of, json_document, json_views,
    opt_owned, str_of, u64_of, Json, JsonV,
};
use crate::keys::{
    increasing, insert_key, lemma_ordered, lemma_ordered_exists, lemma_take_contains, ordered,
};
use crate::ranking::{is_ranking, rank_by, ranking, strict_order};
use crate::text::{
    append_chars, append_str, dec, dec_chars, dec_int, dec_int_chars, from_chars, joined,
    join_strings, magnitude, opt_str, str_eq, strs, to_chars,
};

verus! {

// ---- Rows ----------------------------------------------------------------------------------

/// What happened to a call when it was scored anew.
#[derive(Clone, Copy, Debug, PartialEq, Eq, Structural)]
pub enum RowStatus {
    /// The model knows the tool.
    Scored,
    /// The call had failed; a failure saves nothing and is not scored.
    ErrorRow,
    /// The model does not know the tool.
    ToolNotInModel,
}

/// One call: the savings as recorded, beside the savings as scored anew.
#[derive(Debug)]
pub struct RescoredRow {
    /// The position among the calls of the export.
    pub index: usize,
    pub tool: String,
    pub after_rank: i64,
    pub result_token_estimate: u64,
    pub recorded_saved: Option<i64>,
    pub recorded_version: Option<String>,
    pub rescored_saved: Option<i64>,
    pub status: RowStatus,
}

/// What a [`RescoredRow`] holds.
pub struct RowV {
    pub index: int,
    pub tool: Seq<char>,
    pub after_rank: i64,
    pub result_token_estimate: u64,
    pub recorded_saved: Option<i64>,
    pub recorded_version: Option<Seq<char>>,
    pub rescored_saved: Option<i64>,
    pub status: RowStatus,
}

impl View for RescoredRow {
    type V = RowV;

    open spec fn view(&self) -> RowV {
        RowV {
            index: self.index as int,
            tool: self.tool@,
            after_rank: self.after_rank,
            result_token_estimate: self.result_token_estimate,
            recorded_saved: self.recorded_saved,
            recorded_version: opt_str(self.recorded_version),
            rescored_saved: self.rescored_saved,
            status: self.status,
        }
    }
}

pub open spec fn rows_view(v: Seq<RescoredRow>) -> Seq<RowV> {
    Seq::new(v.len(), |i: int| v[i]@)
}

pub open spec fn refs_view(v: Seq<&RescoredRow>) -> Seq<RowV> {
    Seq::new(v.len(), |i: int| v[i]@)
}

/// A number that 64 bits with a sign can hold.
pub open spec fn fits(n: int) -> bool {
    i64::MIN <= n <= i64::MAX
}

/// The change of a row, where both figures exist.
pub open spec fn change(r: RowV) -> Option<int> {
    match (r.recorded_saved, r.rescored_saved) {
        (Some(old_value), Some(new_value)) => Some(new_value - old_value),
        _ => None,
    }
}

/// The change of a row can be told.
pub open spec fn change_fits(r: RowV) -> bool {
    change(r) matches Some(d) ==> fits(d)
}

/// The row's figure moved.
pub open spec fn moved(r: RowV) -> bool {
    change(r) matches Some(d) && d != 0
}

impl RescoredRow {
    /// The change of the row, where both figures exist.
    pub fn delta(&self) -> (r: Option<i64>)
        requires
            change_fits(self@),
        ensures
            match r {
                Some(d) => change(self@) == Some(d as int),
                None => change(self@) is None,
            },
    {
        match (self.recorded_saved, self.rescored_saved) {
            (Some(rec), Some(new)) => Some(new - rec),
            _ => None,
        }
    }
}

/// The result for one export.
#[derive(Debug)]
pub struct RescoreReport {
    pub export_path: String,
    /// The version of the model that scored anew.
    pub model_version: String,
    pub rows: Vec<RescoredRow>,
}

/// The figures of one tool.
#[derive(Debug)]
pub struct ToolRollup {
    pub tool: String,
    pub calls: usize,
    pub recorded_saved: i64,
    pub rescored_saved: i64,
}

pub struct RollupV {
    pub tool: Seq<char>,
    pub calls: int,
    pub recorded_saved: int,
    pub rescored_saved: int,
}

impl View for ToolRollup {
    type V = RollupV;

    open spec fn view(&self) -> RollupV {
        RollupV {
            tool: self.tool@,
            calls: self.calls as int,
            recorded_saved: self.recorded_saved as int,
            rescored_saved: self.rescored_saved as int,
        }
    }
}

pub open spec fn rollups_view(v: Seq<ToolRollup>) -> Seq<RollupV> {
    Seq::new(v.len(), |i: int| v[i]@)
}

impl ToolRollup {
    /// The change of the tool's savings.
    pub fn delta(&self) -> (r: i64)
        requires
            fits(self.rescored_saved - self.recorded_saved),
        ensures
            r == self.rescored_saved - self.recorded_saved,
    {
        self.rescored_saved - self.recorded_saved
    }
}

// ---- Sums ----------------------------------------------------------------------------------

/// A figure, nothing counting as 0.
pub open spec fn figure(n: Option<i64>) -> int {
    match n {
        Some(v) => v as int,
        None => 0,
    }
}

/// What was recorded, added up.
pub open spec fn recorded_sum(rows: Seq<RowV>) -> int
    decreases rows.len(),
{
    if rows.len() == 0 {
        0
    } else {
        recorded_sum(rows.drop_last()) + figure(rows.last().recorded_saved)
    }
}

/// What was scored anew, added up.
pub open spec fn rescored_sum(rows: Seq<RowV>) -> int
    decreases rows.len(),
{
    if rows.len() == 0 {
        0
    } else {
        rescored_sum(rows.drop_last()) + figure(rows.last().rescored_saved)
    }
}

/// The rows of one tool, in order.
pub open spec fn rows_of(rows: Seq<RowV>, tool: Seq<char>) -> Seq<RowV>
    decreases rows.len(),
{
    if rows.len() == 0 {
        Seq::empty()
    } else if rows.last().tool == tool {
        rows_of(rows.drop_last(), tool).push(rows.last())
    } else {
        rows_of(rows.drop_last(), tool)
    }
}

/// Adding up what was recorded, row by row, never leaves the range of a number.
pub open spec fn recorded_fits(rows: Seq<RowV>) -> bool {
    forall|k: int| 0 <= k <= rows.len() ==> fits(#[trigger] recorded_sum(rows.take(k)))
}

/// The same of what was scored anew.
pub open spec fn rescored_fits(rows: Seq<RowV>) -> bool {
    forall|k: int| 0 <= k <= rows.len() ==> fits(#[trigger] rescored_sum(rows.take(k)))
}

/// The same of the rows of every single tool.
pub open spec fn tools_fit(rows: Seq<RowV>) -> bool {
    forall|t: Seq<char>|
        recorded_fits(#[trigger] rows_of(rows, t)) && rescored_fits(rows_of(rows, t))
}

/// How many rows have a status.
pub open spec fn status_count(rows: Seq<RowV>, s: RowStatus) -> nat
    decreases rows.len(),
{
    if rows.len() == 0 {
        0
    } else {
        status_count(rows.drop_last(), s) + if rows.last().status == s {
            1nat
        } else {
            0
        }
    }
}

/// How many rows moved.
pub open spec fn moved_count(rows: Seq<RowV>) -> nat
    decreases rows.len(),
{
    if rows.len() == 0 {
        0
    } else {
        moved_count(rows.drop_last()) + if moved(rows.last()) {
            1nat
        } else {
            0
        }
    }
}

/// The rows that moved, in order.
pub open spec fn moved_rows(rows: Seq<RowV>) -> Seq<RowV>
    decreases rows.len(),
{
    if rows.len() == 0 {
        Seq::empty()
    } else if moved(rows.last()) {
        moved_rows(rows.drop_last()).push(rows.last())
    } else {
        moved_rows(rows.drop_last())
    }
}

/// The tools of the rows.
pub open spec fn tools(rows: Seq<RowV>) -> Seq<Seq<char>> {
    Seq::new(rows.len(), |i: int| rows[i].tool)
}

/// The figures of one tool.
pub open spec fn rollup(rows: Seq<RowV>, tool: Seq<char>) -> RollupV {
    let own = rows_of(rows, tool);
    RollupV {
        tool,
        calls: own.len() as int,
        recorded_saved: recorded_sum(own),
        rescored_saved: rescored_sum(own),
    }
}

/// The figures per tool, in the order of their names.
pub open spec fn rollups(rows: Seq<RowV>) -> Seq<RollupV> {
    let names = ordered(tools(rows));
    Seq::new(names.len(), |i: int| rollup(rows, names[i]))
}

pub open spec fn abs(n: int) -> int {
    if n < 0 {
        -n
    } else {
        n
    }
}

/// The larger change comes first, and of equals the earlier call.
pub open spec fn larger(rows: Seq<RowV>) -> spec_fn(int, int) -> bool {
    |i: int, j: int|
        {
            let a = abs(change(rows[i])->0);
            let b = abs(change(rows[j])->0);
            a > b || (a == b && (rows[i].index < rows[j].index || (rows[i].index == rows[j].index
                && i < j)))
        }
}

/// The `n` largest changes.
pub open spec fn largest(rows: Seq<RowV>, n: int) -> Seq<RowV> {
    let m = moved_rows(rows);
    let order = ranking(m.len() as int, larger(m));
    let len = if (m.len() as int) < n {
        m.len()
    } else {
        n as nat
    };
    Seq::new(len, |k: int| m[order[k]])
}

/// The changes of all rows can be told.
pub open spec fn deltas_fit(rows: Seq<RowV>) -> bool {
    forall|i: int| 0 <= i < rows.len() ==> change_fits(#[trigger] rows[i])
}

/// The changes of all rows can be told, with their magnitudes.
pub open spec fn changes_fit(rows: Seq<RowV>) -> bool {
    forall|i: int|
        0 <= i < rows.len() ==> (change(#[trigger] rows[i]) matches Some(d) ==> i64::MIN < d
            <= i64::MAX)
}

impl RescoreReport {
    /// What was recorded, added up over the rows that have a figure.
    pub fn recorded_total(&self) -> (r: i64)
        requires
            recorded_fits(rows_view(self.rows@)),
        ensures
            r == recorded_sum(rows_view(self.rows@)),
    {
        let ghost all = rows_view(self.rows@);
        let mut sum: i64 = 0;
        for i in 0..self.rows.len()
            invariant
                all == rows_view(self.rows@),
                recorded_fits(all),
                sum == recorded_sum(all.take(i as int)),
        {
            assert(all.take(i + 1).drop_last() =~= all.take(i as int));
            assert(all[i as int] == self.rows@[i as int]@);
            assert(fits(recorded_sum(all.take(i + 1))));
            if let Some(n) = self.rows[i].recorded_saved {
                sum = sum + n;
            }
        }
        assert(all.take(all.len() as int) =~= all);
        sum
    }

    /// What was scored anew, added up over the rows that have a figure.
    pub fn rescored_total(&self) -> (r: i64)
        requires
            rescored_fits(rows_view(self.rows@)),
        ensures
            r == rescored_sum(rows_view(self.rows@)),
    {
        let ghost all = rows_view(self.rows@);
        let mut sum: i64 = 0;
        for i in 0..self.rows.len()
            invariant
                all == rows_view(self.rows@),
                rescored_fits(all),
                sum == rescored_sum(all.take(i as int)),
        {
            assert(all.take(i + 1).drop_last() =~= all.take(i as int));
            assert(all[i as int] == self.rows@[i as int]@);
            assert(fits(rescored_sum(all.take(i + 1))));
            if let Some(n) = self.rows[i].rescored_saved {
                sum = sum + n;
            }
        }
        assert(all.take(all.len() as int) =~= all);
        sum
    }

    fn count_status(&self, s: RowStatus) -> (r: usize)
        ensures
            r == status_count(rows_view(self.rows@), s),
    {
        let ghost all = rows_view(self.rows@);
        let mut n: usize = 0;
        for i in 0..self.rows.len()
            invariant
                all == rows_view(self.rows@),
                n == status_count(all.take(i as int), s),
                n <= i,
        {
            assert(all.take(i + 1).drop_last() =~= all.take(i as int));
            assert(all[i as int] == self.rows@[i as int]@);
            if self.rows[i].status == s {
                n = n + 1;
            }
        }
        assert(all.take(all.len() as int) =~= all);
        n
    }

    /// How many calls had failed.
    pub fn error_rows(&self) -> (r: usize)
        ensures
            r == status_count(rows_view(self.rows@), RowStatus::ErrorRow),
    {
        self.count_status(RowStatus::ErrorRow)
    }

    /// How many calls were of tools that the model does not know.
    pub fn unscored_tool_rows(&self) -> (r: usize)
        ensures
            r == status_count(rows_view(self.rows@), RowStatus::ToolNotInModel),
    {
        self.count_status(RowStatus::ToolNotInModel)
    }

    /// How many figures moved.
    pub fn changed_rows(&self) -> (r: usize)
        requires
            deltas_fit(rows_view(self.rows@)),
        ensures
            r == moved_count(rows_view(self.rows@)),
    {
        let ghost all = rows_view(self.rows@);
        let mut n: usize = 0;
        for i in 0..self.rows.len()
            invariant
                all == rows_view(self.rows@),
                deltas_fit(all),
                n == moved_count(all.take(i as int)),
                n <= i,
        {
            assert(all.take(i + 1).drop_last() =~= all.take(i as int));
            assert(all[i as int] == self.rows@[i as int]@);
            assert(change_fits(all[i as int]));
            let hit = match self.rows[i].delta() {
                Some(d) => d != 0,
                None => false,
            };
            if hit {
                n = n + 1;
            }
        }
        assert(all.take(all.len() as int) =~= all);
        n
    }

    /// The figures per tool, in the order of their names.
    pub fn per_tool(&self) -> (r: Vec<ToolRollup>)
        requires
            tools_fit(rows_view(self.rows@)),
        ensures
            rollups_view(r@) == rollups(rows_view(self.rows@)),
    {
        let ghost all = rows_view(self.rows@);
        let ghost ts = tools(all);
        let mut names: Vec<String> = Vec::new();
        for i in 0..self.rows.len()
            invariant
                all == rows_view(self.rows@),
                ts == tools(all),
                increasing(strs(names@)),
                forall|s: Seq<char>|
                    #[trigger] strs(names@).contains(s) <==> ts.take(i as int).contains(s),
        {
            insert_key(&mut names, self.rows[i].tool.as_str());
            assert(ts[i as int] == self.rows@[i as int].tool@);
            assert forall|s: Seq<char>| #[trigger] strs(names@).contains(s) <==> ts.take(
                i + 1,
            ).contains(s) by {
                lemma_take_contains(ts, i as int, s);
            }
        }
        assert(ts.take(ts.len() as int) =~= ts);
        proof {
            lemma_ordered(strs(names@), ts);
        }
        let mut out: Vec<ToolRollup> = Vec::new();
        for k in 0..names.len()
            invariant
                all == rows_view(self.rows@),
                tools_fit(all),
                out@.len() == k,
                forall|j: int| 0 <= j < k ==> (#[trigger] out@[j])@ == rollup(all, names@[j]@),
        {
            let t = self.roll_up(names[k].as_str());
            out.push(t);
        }
        assert(rollups_view(out@) =~= rollups(all));
        out
    }

    fn roll_up(&self, tool: &str) -> (r: ToolRollup)
        requires
            tools_fit(rows_view(self.rows@)),
        ensures
            r@ == rollup(rows_view(self.rows@), tool@),
    {
        let ghost all = rows_view(self.rows@);
        let ghost own = rows_of(all, tool@);
        let mut calls: usize = 0;
        let mut recorded: i64 = 0;
        let mut rescored: i64 = 0;
        assert(recorded_fits(rows_of(all, tool@)));
        for i in 0..self.rows.len()
            invariant
                all == rows_view(self.rows@),
                own == rows_of(all, tool@),
                recorded_fits(own),
                rescored_fits(own),
                calls == rows_of(all.take(i as int), tool@).len(),
                calls <= i,
                recorded == recorded_sum(rows_of(all.take(i as int), tool@)),
                rescored == rescored_sum(rows_of(all.take(i as int), tool@)),
        {
            assert(all.take(i + 1).drop_last() =~= all.take(i as int));
            assert(all[i as int] == self.rows@[i as int]@);
            if str_eq(self.rows[i].tool.as_str(), tool) {
                let ghost before = rows_of(all.take(i as int), tool@);
                let ghost after = rows_of(all.take(i + 1), tool@);
                proof {
                    assert(after == before.push(all[i as int]));
                    assert(after.drop_last() =~= before);
                    lemma_rows_of_prefix(all, tool@, i + 1);
                    assert(own.take(after.len() as int) =~= after);
                    assert(fits(recorded_sum(own.take(after.len() as int))));
                    assert(fits(rescored_sum(own.take(after.len() as int))));
                }
                calls = calls + 1;
                if let Some(n) = self.rows[i].recorded_saved {
                    recorded = recorded + n;
                }
                if let Some(n) = self.rows[i].rescored_saved {
                    rescored = rescored + n;
                }
            }
        }
        assert(all.take(all.len() as int) =~= all);
        ToolRollup {
            tool: tool.to_owned(),
            calls,
            recorded_saved: recorded,
            rescored_saved: rescored,
        }
    }

    /// The rows with the largest changes, the largest first and of equals the earlier call.
    pub fn largest_corrections(&self, n: usize) -> (r: Vec<&RescoredRow>)
        requires
            changes_fit(rows_view(self.rows@)),
        ensures
            refs_view(r@) == largest(rows_view(self.rows@), n as int),
    {
        let ghost all = rows_view(self.rows@);
        let mut m: Vec<&RescoredRow> = Vec::new();
        assert(refs_view(m@) =~= Seq::empty());
        for i in 0..self.rows.len()
            invariant
                all == rows_view(self.rows@),
                changes_fit(all),
                refs_view(m@) == moved_rows(all.take(i as int)),
                forall|j: int|
                    0 <= j < m@.len() ==> (change((#[trigger] m@[j])@) matches Some(d) && i64::MIN
                        < d <= i64::MAX),
        {
            assert(all.take(i + 1).drop_last() =~= all.take(i as int));
            assert(all[i as int] == self.rows@[i as int]@);
            let hit = match self.rows[i].delta() {
                Some(d) => d != 0,
                None => false,
            };
            if hit {
                let ghost before = refs_view(m@);
                m.push(&self.rows[i]);
                assert(refs_view(m@) =~= before.push(all[i as int]));
            }
        }
        assert(all.take(all.len() as int) =~= all);
        let ghost mv = refs_view(m@);
        assert(strict_order(mv.len() as int, larger(mv)));
        let f = |i: usize, j: usize| -> (b: bool)
            requires
                i < m@.len(),
                j < m@.len(),
                forall|k: int|
                    0 <= k < m@.len() ==> (change((#[trigger] m@[k])@) matches Some(d) && i64::MIN
                        < d <= i64::MAX),
            ensures
                b == larger(refs_view(m@))(i as int, j as int),
            { is_larger(&m, i, j) };
        let order = rank_by(m.len(), f, Ghost(larger(mv)));
        let ghost ord = order@.map_values(|i: usize| i as int);
        let len: usize = if m.len() < n {
            m.len()
        } else {
            n
        };
        let mut out: Vec<&RescoredRow> = Vec::new();
        for k in 0..len
            invariant
                mv == refs_view(m@),
                ord == order@.map_values(|i: usize| i as int),
                is_ranking(ord, mv.len() as int, larger(mv)),
                len <= m@.len(),
                out@.len() == k,
                forall|j: int| 0 <= j < k ==> (#[trigger] out@[j])@ == mv[ord[j]],
        {
            assert(ord[k as int] == order@[k as int] as int);
            assert(0 <= ord[k as int] < mv.len());
            out.push(m[order[k]]);
        }
        assert(refs_view(out@) =~= largest(all, n as int));
        out
    }
}

fn is_larger(m: &Vec<&RescoredRow>, i: usize, j: usize) -> (b: bool)
    requires
        i < m@.len(),
        j < m@.len(),
        forall|k: int|
            0 <= k < m@.len() ==> (change((#[trigger] m@[k])@) matches Some(d) && i64::MIN < d
                <= i64::MAX),
    ensures
        b == larger(refs_view(m@))(i as int, j as int),
{
    let da: i64 = match m[i].delta() {
        Some(d) => d,
        None => 0,
    };
    let db: i64 = match m[j].delta() {
        Some(d) => d,
        None => 0,
    };
    let a: u64 = magnitude(da);
    let b: u64 = magnitude(db);
    if a != b {
        a > b
    } else if m[i].index != m[j].index {
        m[i].index < m[j].index
    } else {
        i < j
    }
}

/// The rows of a tool among the first rows come first among the rows of the tool.
proof fn lemma_rows_of_prefix(rows: Seq<RowV>, tool: Seq<char>, i: int)
    requires
        0 <= i <= rows.len(),
    ensures
        rows_of(rows.take(i), tool).len() <= rows_of(rows, tool).len(),
        rows_of(rows, tool).take(rows_of(rows.take(i), tool).len() as int) == rows_of(
            rows.take(i),
            tool,
        ),
    decreases rows.len() - i,
{
    if i < rows.len() {
        lemma_rows_of_prefix(rows, tool, i + 1);
        assert(rows.take(i + 1).drop_last() =~= rows.take(i));
        let a = rows_of(rows.take(i), tool);
        let b = rows_of(rows.take(i + 1), tool);
        let c = rows_of(rows, tool);
        assert(c.take(b.len() as int) == b);
        assert(c.take(a.len() as int) =~= b.take(a.len() as int));
        assert(b.take(a.len() as int) =~= a);
    } else {
        assert(rows.take(i) =~= rows);
        let c = rows_of(rows, tool);
        assert(c.take(c.len() as int) =~= c);
    }
}

// ---- Reading an export ---------------------------------------------------------------------

/// Why an export cannot be scored anew.
#[derive(Clone, Copy, Debug, PartialEq, Eq, Structural)]
pub enum RescoreError {
    /// The file holds no document.
    NotJson,
    /// The document has no list of calls.
    NoCalls,
}

impl RescoreError {
    /// What the user is told.
    pub fn message(&self, export_path: &str) -> (r: String)
        ensures
            r@ == match *self {
                RescoreError::NotJson => "parse export JSON "@ + export_path@,
                RescoreError::NoCalls => NO_CALLS@,
            },
    {
        match self {
            RescoreError::NotJson => {
                let mut out = to_chars("parse export JSON ");
                append_str(&mut out, export_path);
                from_chars(&out)
            },
            RescoreError::NoCalls => NO_CALLS.to_owned(),
        }
    }
}

pub const NO_CALLS: &'static str =
    "export JSON has no `calls` array — is this a nibdex metrics export?";

pub open spec fn text_or(o: Option<Seq<char>>, default: Seq<char>) -> Seq<char> {
    match o {
        Some(s) => s,
        None => default,
    }
}

/// A call failed: it says an error that is not null.
pub open spec fn failed(call: JsonV) -> bool {
    field(call, "error"@) matches Some(e) && !(e is Null)
}

/// The row of a call. Only a call that did not fail is scored, under the model that is
/// given and from the two figures that the export carries.
pub open spec fn rescored(call: JsonV, index: int, m: CalibrationModel) -> RowV {
    let tool = text_or(str_of(field(call, "tool"@)), "<unknown>"@);
    let after_rank = match i64_of(field2(call, "candidate_count"@, "after_rank"@)) {
        Some(n) => n,
        None => 0,
    };
    let result_tokens = match u64_of(field(call, "result_token_estimate"@)) {
        Some(n) => n,
        None => 0,
    };
    let score = model_saved(m, tool, result_tokens, after_rank);
    RowV {
        index,
        tool,
        after_rank,
        result_token_estimate: result_tokens,
        recorded_saved: i64_of(field(call, "tokens_saved_p50"@)),
        recorded_version: str_of(field(call, "calibration_model_version"@)),
        rescored_saved: if failed(call) {
            None
        } else {
            match score {
                Some(n) => Some(n as i64),
                None => None,
            }
        },
        status: if failed(call) {
            RowStatus::ErrorRow
        } else if score is Some {
            RowStatus::Scored
        } else {
            RowStatus::ToolNotInModel
        },
    }
}

/// The rows of a list of calls.
pub open spec fn rescored_all(calls: Seq<JsonV>, m: CalibrationModel) -> Seq<RowV> {
    Seq::new(calls.len(), |i: int| rescored(calls[i], i, m))
}

fn is_failed(call: &Json) -> (b: bool)
    ensures
        b == failed(call@),
{
    match call.get("error") {
        Some(Json::Null) => false,
        Some(_) => true,
        None => false,
    }
}

/// Scores one call anew.
pub fn rescore_call(call: &Json, index: usize, model: &CalibrationModel) -> (r: RescoredRow)
    ensures
        r@ == rescored(call@, index as int, *model),
{
    let tool = match as_str(call.get("tool")) {
        Some(t) => t.to_owned(),
        None => "<unknown>".to_owned(),
    };
    let after_rank: i64 = match as_i64(call.get2("candidate_count", "after_rank")) {
        Some(n) => n,
        None => 0,
    };
    let result_token_estimate: u64 = match as_u64(call.get("result_token_estimate")) {
        Some(n) => n,
        None => 0,
    };
    let recorded_version = match as_str(call.get("calibration_model_version")) {
        Some(v) => Some(v.to_owned()),
        None => None,
    };
    let recorded_saved = as_i64(call.get("tokens_saved_p50"));
    let score = model.tokens_saved(tool.as_str(), result_token_estimate, after_rank);
    let error = is_failed(call);
    let status = if error {
        RowStatus::ErrorRow
    } else if score.is_some() {
        RowStatus::Scored
    } else {
        RowStatus::ToolNotInModel
    };
    RescoredRow {
        index,
        tool,
        after_rank,
        result_token_estimate,
        recorded_saved,
        recorded_version,
        rescored_saved: if error {
            None
        } else {
            score
        },
        status,
    }
}

/// The calls of an export.
pub open spec fn calls_of(doc: Option<JsonV>) -> Option<Seq<JsonV>> {
    match doc {
        Some(d) => arr_of(field(d, "calls"@)),
        None => None,
    }
}

/// Scores the calls of a document anew.
pub fn rescore_document(
    export_path: &str,
    doc: Option<Json>,
    model: &CalibrationModel,
) -> (r: Result<RescoreReport, RescoreError>)
    ensures
        match r {
            Ok(report) => calls_of(opt_owned(doc)) matches Some(calls) && rows_view(report.rows@)
                == rescored_all(calls, *model) && report.export_path@ == export_path@
                && report.model_version@ == model.version@,
            Err(RescoreError::NotJson) => doc is None,
            Err(RescoreError::NoCalls) => doc is Some && calls_of(opt_owned(doc)) is None,
        },
{
    let d = match doc {
        Some(d) => d,
        None => {
            return Err(RescoreError::NotJson);
        },
    };
    match as_array(d.get("calls")) {
        None => Err(RescoreError::NoCalls),
        Some(calls) => {
            let ghost all = json_views(calls@);
            let mut rows: Vec<RescoredRow> = Vec::new();
            for i in 0..calls.len()
                invariant
                    all == json_views(calls@),
                    rows@.len() == i,
                    forall|j: int|
                        0 <= j < i ==> (#[trigger] rows@[j])@ == rescored(all[j], j, *model),
            {
                assert(all[i as int] == calls@[i as int]@);
                let row = rescore_call(&calls[i], i, model);
                rows.push(row);
            }
            assert(rows_view(rows@) =~= rescored_all(all, *model));
            Ok(
                RescoreReport {
                    export_path: export_path.to_owned(),
                    model_version: model.version.clone(),
                    rows,
                },
            )
        },
    }
}

/// Scores every call of an export anew.
pub fn run_rescore(export_path: &str, raw: &str, model: &CalibrationModel) -> (r: Result<
    RescoreReport,
    RescoreError,
>)
    ensures
        match r {
            Ok(report) => calls_of(json_document(raw@)) matches Some(calls) && rows_view(
                report.rows@,
            ) == rescored_all(calls, *model) && report.export_path@ == export_path@
                && report.model_version@ == model.version@,
            Err(RescoreError::NotJson) => json_document(raw@) is None,
            Err(RescoreError::NoCalls) => json_document(raw@) is Some && calls_of(
                json_document(raw@),
            ) is None,
        },
{
    rescore_document(export_path, Json::parse(raw), model)
}

/// A call that failed, and a call of an unknown tool, is not scored and adds nothing to
/// what is scored anew; every other call is scored as a live call would be.
pub proof fn law_scores_are_those_of_the_model(call: JsonV, index: int, m: CalibrationModel)
    ensures
        ({
            let r = rescored(call, index, m);
            let score = model_saved(m, r.tool, r.result_token_estimate, r.after_rank);
            &&& r.status == RowStatus::ErrorRow <==> failed(call)
            &&& r.status != RowStatus::Scored ==> r.rescored_saved is None && figure(
                r.rescored_saved,
            ) == 0
            &&& r.status == RowStatus::Scored ==> score is Some && r.rescored_saved is Some
                && r.rescored_saved->0 == score->0
        }),
{
}

// ---- Numbers for people --------------------------------------------------------------------

/// Digits in groups of three.
pub open spec fn grouped(d: Seq<char>) -> Seq<char>
    decreases d.len(),
{
    if d.len() <= 3 {
        d
    } else {
        grouped(d.take(d.len() - 3)).push(',') + d.skip(d.len() - 3)
    }
}

/// A number with separators between thousands.
pub open spec fn comma_text(n: int) -> Seq<char> {
    if n < 0 {
        seq!['-'] + grouped(dec((-n) as nat))
    } else {
        grouped(dec(n as nat))
    }
}

/// The same, with a sign in any case.
pub open spec fn signed_text(n: int) -> Seq<char> {
    if n >= 0 {
        seq!['+'] + comma_text(n)
    } else {
        comma_text(n)
    }
}

fn group_digits(d: &[char]) -> (r: Vec<char>)
    ensures
        r@ == grouped(d@),
    decreases d@.len(),
{
    if d.len() <= 3 {
        let r = crate::text::slice_chars(d, 0, d.len());
        assert(r@ =~= d@);
        r
    } else {
        let cut: usize = d.len() - 3;
        let head = crate::text::slice_chars(d, 0, cut);
        assert(head@ =~= d@.take(d@.len() - 3));
        let tail = crate::text::slice_chars(d, cut, d.len());
        assert(tail@ =~= d@.skip(d@.len() - 3));
        let mut r = group_digits(head.as_slice());
        r.push(',');
        append_chars(&mut r, &tail);
        r
    }
}

fn comma_chars(n: i64) -> (r: Vec<char>)
    ensures
        r@ == comma_text(n as int),
{
    let digits = dec_chars(magnitude(n));
    let body = group_digits(digits.as_slice());
    if n < 0 {
        let mut r: Vec<char> = Vec::new();
        r.push('-');
        append_chars(&mut r, &body);
        assert(r@ =~= seq!['-'] + grouped(dec((-n) as nat)));
        r
    } else {
        body
    }
}

fn signed_chars(n: i64) -> (r: Vec<char>)
    ensures
        r@ == signed_text(n as int),
{
    let body = comma_chars(n);
    if n >= 0 {
        let mut r: Vec<char> = Vec::new();
        r.push('+');
        append_chars(&mut r, &body);
        assert(r@ =~= seq!['+'] + comma_text(n as int));
        r
    } else {
        body
    }
}

/// A number with separators between thousands.
pub fn commas(n: i64) -> (r: String)
    ensures
        r@ == comma_text(n as int),
{
    from_chars(&comma_chars(n))
}

/// A number with separators between thousands and a sign.
pub fn signed(n: i64) -> (r: String)
    ensures
        r@ == signed_text(n as int),
{
    from_chars(&signed_chars(n))
}

/// A text without its commas.
pub open spec fn without_commas(s: Seq<char>) -> Seq<char>
    decreases s.len(),
{
    if s.len() == 0 {
        Seq::empty()
    } else if s.last() == ',' {
        without_commas(s.drop_last())
    } else {
        without_commas(s.drop_last()).push(s.last())
    }
}

proof fn lemma_without_commas_concat(a: Seq<char>, b: Seq<char>)
    ensures
        without_commas(a + b) == without_commas(a) + without_commas(b),
    decreases b.len(),
{
    if b.len() == 0 {
        assert(a + b =~= a);
        assert(without_commas(a) + without_commas(b) =~= without_commas(a));
    } else {
        lemma_without_commas_concat(a, b.drop_last());
        assert((a + b).drop_last() =~= a + b.drop_last());
        assert((a + b).last() == b.last());
        if b.last() != ',' {
            assert(without_commas(a + b) =~= without_commas(a) + without_commas(b));
        }
    }
}

proof fn lemma_plain(s: Seq<char>)
    requires
        forall|i: int| 0 <= i < s.len() ==> #[trigger] s[i] != ',',
    ensures
        without_commas(s) == s,
    decreases s.len(),
{
    if s.len() > 0 {
        let init = s.drop_last();
        assert forall|i: int| 0 <= i < init.len() implies #[trigger] init[i] != ',' by {
            assert(init[i] == s[i]);
        }
        lemma_plain(init);
        let last = s[s.len() - 1];
        assert(last != ',');
        assert(init.push(last) =~= s);
    } else {
        assert(s =~= Seq::empty());
    }
}

proof fn lemma_dec_plain(n: nat)
    ensures
        forall|i: int| 0 <= i < dec(n).len() ==> #[trigger] dec(n)[i] != ',',
    decreases n,
{
    if n >= 10 {
        lemma_dec_plain(n / 10);
        let d = dec(n / 10);
        assert forall|i: int| 0 <= i < dec(n).len() implies #[trigger] dec(n)[i] != ',' by {
            if i < d.len() {
                assert(dec(n)[i] == d[i]);
            }
        }
    }
}

proof fn lemma_grouped_plain(d: Seq<char>)
    requires
        forall|i: int| 0 <= i < d.len() ==> #[trigger] d[i] != ',',
    ensures
        without_commas(grouped(d)) == d,
    decreases d.len(),
{
    if d.len() <= 3 {
        lemma_plain(d);
    } else {
        let head = d.take(d.len() - 3);
        let tail = d.skip(d.len() - 3);
        assert forall|i: int| 0 <= i < head.len() implies #[trigger] head[i] != ',' by {
            assert(head[i] == d[i]);
        }
        assert forall|i: int| 0 <= i < tail.len() implies #[trigger] tail[i] != ',' by {
            assert(tail[i] == d[d.len() - 3 + i]);
        }
        lemma_grouped_plain(head);
        lemma_plain(tail);
        lemma_without_commas_concat(grouped(head).push(','), tail);
        assert(grouped(head).push(',').drop_last() =~= grouped(head));
        assert(head + tail =~= d);
    }
}

/// The separators are all that is added: without them a number reads as it does in
/// decimal.
pub proof fn law_commas_only_separate(n: int)
    ensures
        without_commas(comma_text(n)) == dec_int(n),
{
    if n < 0 {
        let d = dec((-n) as nat);
        lemma_dec_plain((-n) as nat);
        lemma_grouped_plain(d);
        let sign = seq!['-'];
        assert forall|i: int| 0 <= i < sign.len() implies #[trigger] sign[i] != ',' by {}
        lemma_plain(sign);
        lemma_without_commas_concat(sign, grouped(d));
    } else {
        lemma_dec_plain(n as nat);
        lemma_grouped_plain(dec(n as nat));
    }
}

// ---- The report for people -----------------------------------------------------------------

/// `n` times a character.
pub open spec fn repeated(c: char, n: int) -> Seq<char> {
    Seq::new(
        if n > 0 {
            n as nat
        } else {
            0
        },
        |i: int| c,
    )
}

/// A text set to the right of a column.
pub open spec fn right(s: Seq<char>, width: int) -> Seq<char> {
    repeated(' ', width - s.len()) + s
}

/// A text set to the left of a column.
pub open spec fn left(s: Seq<char>, width: int) -> Seq<char> {
    s + repeated(' ', width - s.len())
}

fn put_repeated(out: &mut Vec<char>, c: char, n: usize)
    ensures
        final(out)@ == old(out)@ + repeated(c, n as int),
{
    let ghost before = out@;
    assert(before + repeated(c, 0) =~= before);
    for i in 0..n
        invariant
            out@ == before + repeated(c, i as int),
    {
        out.push(c);
        assert(out@ =~= before + repeated(c, i + 1));
    }
}

fn put_right(out: &mut Vec<char>, s: &[char], width: usize)
    ensures
        final(out)@ == old(out)@ + right(s@, width as int),
{
    let ghost before = out@;
    let pad: usize = if s.len() < width {
        width - s.len()
    } else {
        0
    };
    put_repeated(out, ' ', pad);
    append_chars(out, s);
    assert(repeated(' ', pad as int) =~= repeated(' ', width - s@.len()));
    assert(out@ =~= before + right(s@, width as int));
}

fn put_left(out: &mut Vec<char>, s: &[char], width: usize)
    ensures
        final(out)@ == old(out)@ + left(s@, width as int),
{
    let ghost before = out@;
    let pad: usize = if s.len() < width {
        width - s.len()
    } else {
        0
    };
    append_chars(out, s);
    put_repeated(out, ' ', pad);
    assert(repeated(' ', pad as int) =~= repeated(' ', width - s@.len()));
    assert(out@ =~= before + left(s@, width as int));
}

/// Lines, each with its end.
pub open spec fn lines_text(lines: Seq<Seq<char>>) -> Seq<char>
    decreases lines.len(),
{
    if lines.len() == 0 {
        Seq::empty()
    } else {
        lines_text(lines.drop_last()) + lines.last().push('\n')
    }
}

/// One line of the table of calls.
pub open spec fn table_line(
    index: Seq<char>,
    tool: Seq<char>,
    rank: Seq<char>,
    tokens: Seq<char>,
    recorded: Seq<char>,
    new_score: Seq<char>,
    delta: Seq<char>,
) -> Seq<char> {
    "  "@ + right(index, 3) + "  "@ + left(tool, 16) + " "@ + right(rank, 5) + " "@ + right(
        tokens,
        11,
    ) + " "@ + right(recorded, 13) + " "@ + right(new_score, 13) + " "@ + right(delta, 12)
}

fn put_table_line(
    index: &[char],
    tool: &[char],
    rank: &[char],
    tokens: &[char],
    recorded: &[char],
    new_score: &[char],
    delta: &[char],
) -> (r: Vec<char>)
    ensures
        r@ == table_line(index@, tool@, rank@, tokens@, recorded@, new_score@, delta@),
{
    let mut out = to_chars("  ");
    put_right(&mut out, index, 3);
    append_str(&mut out, "  ");
    put_left(&mut out, tool, 16);
    append_str(&mut out, " ");
    put_right(&mut out, rank, 5);
    append_str(&mut out, " ");
    put_right(&mut out, tokens, 11);
    append_str(&mut out, " ");
    put_right(&mut out, recorded, 13);
    append_str(&mut out, " ");
    put_right(&mut out, new_score, 13);
    append_str(&mut out, " ");
    put_right(&mut out, delta, 12);
    out
}

pub open spec fn comma_or(n: Option<i64>, default: Seq<char>) -> Seq<char> {
    match n {
        Some(v) => comma_text(v as int),
        None => default,
    }
}

pub open spec fn signed_or_empty(n: Option<int>) -> Seq<char> {
    match n {
        Some(v) => signed_text(v),
        None => Seq::empty(),
    }
}

/// What the table says of the new score.
pub open spec fn score_text(r: RowV) -> Seq<char> {
    match r.status {
        RowStatus::Scored => comma_or(r.rescored_saved, Seq::empty()),
        RowStatus::ErrorRow => "error"@,
        RowStatus::ToolNotInModel => "not-in-model"@,
    }
}

/// What the table says of the change.
pub open spec fn delta_text(r: RowV) -> Seq<char> {
    match r.status {
        RowStatus::Scored => signed_or_empty(change(r)),
        _ => Seq::empty(),
    }
}

/// The line of a call.
pub open spec fn row_line(r: RowV) -> Seq<char> {
    table_line(
        dec(r.index as nat),
        r.tool,
        dec_int(r.after_rank as int),
        dec(r.result_token_estimate as nat),
        comma_or(r.recorded_saved, "—"@),
        score_text(r),
        delta_text(r),
    )
}

fn comma_or_chars(n: Option<i64>, default: &str) -> (r: Vec<char>)
    ensures
        r@ == comma_or(n, default@),
{
    match n {
        Some(v) => comma_chars(v),
        None => to_chars(default),
    }
}

fn put_row_line(r: &RescoredRow) -> (v: Vec<char>)
    requires
        change_fits(r@),
    ensures
        v@ == row_line(r@),
{
    let score = match r.status {
        RowStatus::Scored => match r.rescored_saved {
            Some(n) => comma_chars(n),
            None => Vec::new(),
        },
        RowStatus::ErrorRow => to_chars("error"),
        RowStatus::ToolNotInModel => to_chars("not-in-model"),
    };
    let delta = match r.status {
        RowStatus::Scored => match r.delta() {
            Some(d) => signed_chars(d),
            None => Vec::new(),
        },
        _ => Vec::new(),
    };
    assert(score@ =~= score_text(r@));
    assert(delta@ =~= delta_text(r@));
    put_table_line(
        &dec_chars(r.index as u64),
        &to_chars(r.tool.as_str()),
        &dec_int_chars(r.after_rank),
        &dec_chars(r.result_token_estimate),
        &comma_or_chars(r.recorded_saved, "—"),
        &score,
        &delta,
    )
}

/// The line of one of the largest changes.
pub open spec fn mover_line(r: RowV) -> Seq<char> {
    "    ["@ + right(dec(r.index as nat), 2) + "] "@ + left(r.tool, 16) + " rank="@ + left(
        dec_int(r.after_rank as int),
        3,
    ) + " result_tok="@ + right(dec(r.result_token_estimate as nat), 7) + "  "@ + right(
        comma_or(r.recorded_saved, Seq::empty()),
        11,
    ) + " → "@ + right(comma_or(r.rescored_saved, Seq::empty()), 11) + "  ("@ + signed_text(
        match change(r) {
            Some(d) => d,
            None => 0,
        },
    ) + ")"@
}

fn opt_comma_chars(n: Option<i64>) -> (r: Vec<char>)
    ensures
        r@ == comma_or(n, Seq::empty()),
{
    match n {
        Some(v) => comma_chars(v),
        None => {
            let none: Vec<char> = Vec::new();
            assert(none@ =~= Seq::empty());
            none
        },
    }
}

fn put_mover_line(r: &RescoredRow) -> (v: Vec<char>)
    requires
        change_fits(r@),
    ensures
        v@ == mover_line(r@),
{
    let delta: i64 = match r.delta() {
        Some(d) => d,
        None => 0,
    };
    let mut out = to_chars("    [");
    put_right(&mut out, &dec_chars(r.index as u64), 2);
    append_str(&mut out, "] ");
    put_left(&mut out, &to_chars(r.tool.as_str()), 16);
    append_str(&mut out, " rank=");
    put_left(&mut out, &dec_int_chars(r.after_rank), 3);
    append_str(&mut out, " result_tok=");
    put_right(&mut out, &dec_chars(r.result_token_estimate), 7);
    append_str(&mut out, "  ");
    put_right(&mut out, &opt_comma_chars(r.recorded_saved), 11);
    append_str(&mut out, " → ");
    put_right(&mut out, &opt_comma_chars(r.rescored_saved), 11);
    append_str(&mut out, "  (");
    append_chars(&mut out, &signed_chars(delta));
    append_str(&mut out, ")");
    out
}

/// One line of the table of tools.
pub open spec fn tool_table_line(
    tool: Seq<char>,
    calls: Seq<char>,
    recorded: Seq<char>,
    new_score: Seq<char>,
    delta: Seq<char>,
) -> Seq<char> {
    "  "@ + left(tool, 16) + " "@ + right(calls, 6) + " "@ + right(recorded, 13) + " "@ + right(
        new_score,
        13,
    ) + " "@ + right(delta, 12)
}

fn put_tool_table_line(
    tool: &[char],
    calls: &[char],
    recorded: &[char],
    new_score: &[char],
    delta: &[char],
) -> (r: Vec<char>)
    ensures
        r@ == tool_table_line(tool@, calls@, recorded@, new_score@, delta@),
{
    let mut out = to_chars("  ");
    put_left(&mut out, tool, 16);
    append_str(&mut out, " ");
    put_right(&mut out, calls, 6);
    append_str(&mut out, " ");
    put_right(&mut out, recorded, 13);
    append_str(&mut out, " ");
    put_right(&mut out, new_score, 13);
    append_str(&mut out, " ");
    put_right(&mut out, delta, 12);
    out
}

/// The line of a tool.
pub open spec fn tool_line(t: RollupV) -> Seq<char> {
    tool_table_line(
        t.tool,
        dec(t.calls as nat),
        comma_text(t.recorded_saved),
        comma_text(t.rescored_saved),
        signed_text(t.rescored_saved - t.recorded_saved),
    )
}

fn put_tool_line(t: &ToolRollup) -> (r: Vec<char>)
    requires
        fits(t.rescored_saved - t.recorded_saved),
    ensures
        r@ == tool_line(t@),
{
    put_tool_table_line(
        &to_chars(t.tool.as_str()),
        &dec_chars(t.calls as u64),
        &comma_chars(t.recorded_saved),
        &comma_chars(t.rescored_saved),
        &signed_chars(t.delta()),
    )
}

/// The versions that the rows were recorded under.
pub open spec fn versions(rows: Seq<RowV>) -> Seq<Seq<char>>
    decreases rows.len(),
{
    if rows.len() == 0 {
        Seq::empty()
    } else {
        match rows.last().recorded_version {
            Some(v) => versions(rows.drop_last()).push(v),
            None => versions(rows.drop_last()),
        }
    }
}

/// The versions, each once and in order.
pub open spec fn versions_label(rows: Seq<RowV>) -> Seq<char> {
    let distinct = ordered(versions(rows));
    if distinct.len() == 0 {
        "(none recorded)"@
    } else {
        joined(distinct, ", "@)
    }
}

fn put_versions_label(rows: &Vec<RescoredRow>) -> (r: String)
    ensures
        r@ == versions_label(rows_view(rows@)),
{
    let ghost all = rows_view(rows@);
    let mut distinct: Vec<String> = Vec::new();
    for i in 0..rows.len()
        invariant
            all == rows_view(rows@),
            increasing(strs(distinct@)),
            forall|s: Seq<char>|
                #[trigger] strs(distinct@).contains(s) <==> versions(all.take(i as int)).contains(
                    s,
                ),
    {
        assert(all.take(i + 1).drop_last() =~= all.take(i as int));
        assert(all[i as int] == rows@[i as int]@);
        if let Some(v) = &rows[i].recorded_version {
            let ghost before = versions(all.take(i as int));
            insert_key(&mut distinct, v.as_str());
            assert forall|s: Seq<char>| #[trigger] strs(distinct@).contains(s) <==> versions(
                all.take(i + 1),
            ).contains(s) by {
                let after = versions(all.take(i + 1));
                assert(after == before.push(v@));
                lemma_take_contains(after, before.len() as int, s);
                assert(after.take(before.len() as int) =~= before);
                assert(after.take(before.len() as int + 1) =~= after);
            }
        }
    }
    assert(all.take(all.len() as int) =~= all);
    proof {
        lemma_ordered(strs(distinct@), versions(all));
    }
    if distinct.len() == 0 {
        "(none recorded)".to_owned()
    } else {
        join_strings(&distinct, ", ")
    }
}

/// The lines of the calls.
pub open spec fn row_lines(rows: Seq<RowV>) -> Seq<Seq<char>> {
    Seq::new(rows.len(), |i: int| row_line(rows[i]))
}

/// The lines of the largest changes, under a heading, where there are any.
pub open spec fn mover_lines(movers: Seq<RowV>) -> Seq<Seq<char>> {
    if movers.len() == 0 {
        Seq::empty()
    } else {
        seq!["  Largest corrections:"@] + Seq::new(movers.len(), |i: int| mover_line(movers[i]))
            + seq![Seq::empty()]
    }
}

pub open spec fn tool_lines(tools: Seq<RollupV>) -> Seq<Seq<char>> {
    Seq::new(tools.len(), |i: int| tool_line(tools[i]))
}

/// The head of the report: where it comes from, the models, and the head of the table.
pub open spec fn head_lines(
    path: Seq<char>,
    model_version: Seq<char>,
    rows: Seq<RowV>,
) -> Seq<Seq<char>> {
    seq![
        "nibdex rescore — "@ + path,
        "  recorded model: "@ + versions_label(rows) + "    →    re-score model: "@ + model_version,
        "  "@ + dec(rows.len()) + " call row(s)"@,
        Seq::empty(),
        table_line("#"@, "tool"@, "rank"@, "result_tok"@, "recorded"@, "re-scored"@, "Δ"@),
        "  "@ + repeated('-', 78),
    ]
}

/// The table of tools.
pub open spec fn tool_section(rows: Seq<RowV>) -> Seq<Seq<char>> {
    seq![
        tool_table_line("per tool"@, "calls"@, "recorded"@, "re-scored"@, "Δ"@),
        "  "@ + repeated('-', 64),
    ] + tool_lines(rollups(rows))
}

/// The last line: how many rows moved and how many were left out.
pub open spec fn counts_line(rows: Seq<RowV>) -> Seq<char> {
    "  "@ + dec(moved_count(rows)) + " row(s) changed · "@ + dec(
        status_count(rows, RowStatus::ErrorRow),
    ) + " error row(s) excluded · "@ + dec(status_count(rows, RowStatus::ToolNotInModel))
        + " tool-not-in-model row(s)"@
}

/// The totals.
pub open spec fn total_lines(rows: Seq<RowV>) -> Seq<Seq<char>> {
    let rec = recorded_sum(rows);
    let new_sum = rescored_sum(rows);
    seq![
        Seq::empty(),
        "  TOTAL tokens_saved_p50"@,
        "    recorded : "@ + right(comma_text(rec), 15),
        "    re-scored: "@ + right(comma_text(new_sum), 15),
        "    Δ        : "@ + right(signed_text(new_sum - rec), 15),
        Seq::empty(),
        counts_line(rows),
    ]
}

/// What the report for people says, line by line.
pub open spec fn report_lines(
    path: Seq<char>,
    model_version: Seq<char>,
    rows: Seq<RowV>,
) -> Seq<Seq<char>> {
    head_lines(path, model_version, rows) + row_lines(rows) + seq![Seq::empty()] + mover_lines(
        largest(rows, 5),
    ) + tool_section(rows) + total_lines(rows)
}

/// Every figure of the report can be told.
pub open spec fn report_fits(rows: Seq<RowV>) -> bool {
    &&& changes_fit(rows)
    &&& recorded_fits(rows)
    &&& rescored_fits(rows)
    &&& tools_fit(rows)
    &&& fits(rescored_sum(rows) - recorded_sum(rows))
    &&& forall|t: Seq<char>|
        fits(
            (#[trigger] rollup(rows, t)).rescored_saved - rollup(rows, t).recorded_saved,
        )
}

/// The magnitudes of all figures of the rows, added up.
pub open spec fn magnitudes(rows: Seq<RowV>) -> int
    decreases rows.len(),
{
    if rows.len() == 0 {
        0
    } else {
        magnitudes(rows.drop_last()) + abs(figure(rows.last().recorded_saved)) + abs(
            figure(rows.last().rescored_saved),
        )
    }
}

proof fn lemma_magnitudes(rows: Seq<RowV>)
    ensures
        abs(recorded_sum(rows)) + abs(rescored_sum(rows)) <= magnitudes(rows),
    decreases rows.len(),
{
    if rows.len() > 0 {
        lemma_magnitudes(rows.drop_last());
    }
}

proof fn lemma_magnitudes_take(rows: Seq<RowV>, k: int)
    requires
        0 <= k <= rows.len(),
    ensures
        0 <= magnitudes(rows.take(k)) <= magnitudes(rows),
    decreases rows.len() - k,
{
    lemma_magnitudes(rows.take(k));
    if k < rows.len() {
        assert(rows.take(k + 1).drop_last() =~= rows.take(k));
        lemma_magnitudes_take(rows, k + 1);
    } else {
        assert(rows.take(k) =~= rows);
    }
}

proof fn lemma_magnitudes_of(rows: Seq<RowV>, tool: Seq<char>)
    ensures
        magnitudes(rows_of(rows, tool)) <= magnitudes(rows),
    decreases rows.len(),
{
    if rows.len() > 0 {
        lemma_magnitudes_of(rows.drop_last(), tool);
        if rows.last().tool == tool {
            assert(rows_of(rows, tool).drop_last() =~= rows_of(rows.drop_last(), tool));
        }
    }
}

proof fn lemma_small_figures_fit(rows: Seq<RowV>)
    requires
        magnitudes(rows) <= i64::MAX,
    ensures
        report_fits(rows),
{
    lemma_sums_fit(rows);
    lemma_magnitudes(rows);
    assert forall|i: int| 0 <= i < rows.len() implies (change(#[trigger] rows[i]) matches Some(d)
        ==> i64::MIN < d <= i64::MAX) by {
        lemma_magnitudes_take(rows, i + 1);
        lemma_magnitudes_take(rows, i);
        assert(rows.take(i + 1).drop_last() =~= rows.take(i));
    }
    assert forall|t: Seq<char>| recorded_fits(#[trigger] rows_of(rows, t)) && rescored_fits(
        rows_of(rows, t),
    ) by {
        lemma_magnitudes_of(rows, t);
        lemma_sums_fit(rows_of(rows, t));
    }
    assert forall|t: Seq<char>| fits(
        (#[trigger] rollup(rows, t)).rescored_saved - rollup(rows, t).recorded_saved,
    ) by {
        lemma_magnitudes_of(rows, t);
        lemma_magnitudes(rows_of(rows, t));
    }
}

proof fn lemma_sums_fit(rows: Seq<RowV>)
    requires
        magnitudes(rows) <= i64::MAX,
    ensures
        recorded_fits(rows),
        rescored_fits(rows),
{
    assert forall|k: int| 0 <= k <= rows.len() implies fits(
        #[trigger] recorded_sum(rows.take(k)),
    ) by {
        lemma_magnitudes_take(rows, k);
        lemma_magnitudes(rows.take(k));
    }
    assert forall|k: int| 0 <= k <= rows.len() implies fits(
        #[trigger] rescored_sum(rows.take(k)),
    ) by {
        lemma_magnitudes_take(rows, k);
        lemma_magnitudes(rows.take(k));
    }
}

impl RescoreReport {
    /// Whether the figures are small enough, all together, for every sum and difference of
    /// the report to be told.
    pub fn figures_are_small(&self) -> (b: bool)
        ensures
            b == (magnitudes(rows_view(self.rows@)) <= i64::MAX),
            b ==> report_fits(rows_view(self.rows@)),
    {
        let ghost all = rows_view(self.rows@);
        let mut sum: u64 = 0;
        for i in 0..self.rows.len()
            invariant
                all == rows_view(self.rows@),
                sum == magnitudes(all.take(i as int)),
                sum <= i64::MAX,
        {
            assert(all.take(i + 1).drop_last() =~= all.take(i as int));
            assert(all[i as int] == self.rows@[i as int]@);
            let a: u64 = match self.rows[i].recorded_saved {
                Some(n) => magnitude(n),
                None => 0,
            };
            let b: u64 = match self.rows[i].rescored_saved {
                Some(n) => magnitude(n),
                None => 0,
            };
            let limit: u64 = i64::MAX as u64;
            proof {
                lemma_magnitudes_take(all, i + 1);
            }
            if a > limit - sum || b > limit - sum - a {
                return false;
            }
            sum = sum + a + b;
        }
        assert(all.take(all.len() as int) =~= all);
        proof {
            lemma_small_figures_fit(all);
        }
        true
    }
}

/// Adds a line to a text.
fn end_line(out: &mut Vec<char>, line: &[char], Ghost(lines): Ghost<Seq<Seq<char>>>)
    requires
        old(out)@ == lines_text(lines),
    ensures
        final(out)@ == lines_text(lines.push(line@)),
{
    append_chars(out, line);
    out.push('\n');
    assert(lines.push(line@).drop_last() =~= lines);
    assert(out@ =~= lines_text(lines) + line@.push('\n'));
}

fn concat2(a: &str, b: &[char]) -> (r: Vec<char>)
    ensures
        r@ == a@ + b@,
{
    let mut out = to_chars(a);
    append_chars(&mut out, b);
    out
}

fn rule(n: usize) -> (r: Vec<char>)
    ensures
        r@ == "  "@ + repeated('-', n as int),
{
    let mut out = to_chars("  ");
    put_repeated(&mut out, '-', n);
    out
}

fn total_line(label: &str, figure: &[char]) -> (r: Vec<char>)
    ensures
        r@ == label@ + right(figure@, 15),
{
    let mut out = to_chars(label);
    put_right(&mut out, figure, 15);
    out
}

/// Adds the lines of the calls.
fn put_rows(out: &mut Vec<char>, rows: &Vec<RescoredRow>, Ghost(lines): Ghost<Seq<Seq<char>>>)
    requires
        old(out)@ == lines_text(lines),
        deltas_fit(rows_view(rows@)),
    ensures
        final(out)@ == lines_text(lines + row_lines(rows_view(rows@))),
{
    let ghost all = row_lines(rows_view(rows@));
    assert(lines + all.take(0) =~= lines);
    for i in 0..rows.len()
        invariant
            all == row_lines(rows_view(rows@)),
            deltas_fit(rows_view(rows@)),
            out@ == lines_text(lines + all.take(i as int)),
    {
        assert(rows_view(rows@)[i as int] == rows@[i as int]@);
        assert(change_fits(rows_view(rows@)[i as int]));
        let line = put_row_line(&rows[i]);
        end_line(out, &line, Ghost(lines + all.take(i as int)));
        assert((lines + all.take(i as int)).push(line@) =~= lines + all.take(i + 1));
    }
    assert(all.take(all.len() as int) =~= all);
}

/// Adds the lines of the largest changes.
fn put_movers(out: &mut Vec<char>, movers: &Vec<&RescoredRow>, Ghost(lines): Ghost<Seq<Seq<char>>>)
    requires
        old(out)@ == lines_text(lines),
        deltas_fit(refs_view(movers@)),
    ensures
        final(out)@ == lines_text(lines + mover_lines(refs_view(movers@))),
{
    let ghost mv = refs_view(movers@);
    if movers.len() == 0 {
        assert(lines + mover_lines(mv) =~= lines);
        return;
    }
    let ghost body = Seq::new(mv.len(), |i: int| mover_line(mv[i]));
    end_line(out, &to_chars("  Largest corrections:"), Ghost(lines));
    let ghost start = lines.push("  Largest corrections:"@);
    assert(start + body.take(0) =~= start);
    for i in 0..movers.len()
        invariant
            mv == refs_view(movers@),
            deltas_fit(mv),
            body == Seq::new(mv.len(), |i: int| mover_line(mv[i])),
            out@ == lines_text(start + body.take(i as int)),
    {
        assert(mv[i as int] == movers@[i as int]@);
        assert(change_fits(mv[i as int]));
        let line = put_mover_line(movers[i]);
        end_line(out, &line, Ghost(start + body.take(i as int)));
        assert((start + body.take(i as int)).push(line@) =~= start + body.take(i + 1));
    }
    assert(body.take(body.len() as int) =~= body);
    let none: Vec<char> = Vec::new();
    end_line(out, &none, Ghost(start + body));
    assert((start + body).push(none@) =~= lines + mover_lines(mv)) by {
        assert(none@ =~= Seq::empty());
    }
}

/// Adds the lines of the tools.
fn put_tools(out: &mut Vec<char>, tools: &Vec<ToolRollup>, Ghost(lines): Ghost<Seq<Seq<char>>>)
    requires
        old(out)@ == lines_text(lines),
        forall|i: int|
            0 <= i < tools@.len() ==> fits(
                (#[trigger] tools@[i]).rescored_saved - tools@[i].recorded_saved,
            ),
    ensures
        final(out)@ == lines_text(lines + tool_lines(rollups_view(tools@))),
{
    let ghost all = tool_lines(rollups_view(tools@));
    assert(lines + all.take(0) =~= lines);
    for i in 0..tools.len()
        invariant
            all == tool_lines(rollups_view(tools@)),
            forall|i: int|
                0 <= i < tools@.len() ==> fits(
                    (#[trigger] tools@[i]).rescored_saved - tools@[i].recorded_saved,
                ),
            out@ == lines_text(lines + all.take(i as int)),
    {
        assert(rollups_view(tools@)[i as int] == tools@[i as int]@);
        let line = put_tool_line(&tools[i]);
        end_line(out, &line, Ghost(lines + all.take(i as int)));
        assert((lines + all.take(i as int)).push(line@) =~= lines + all.take(i + 1));
    }
    assert(all.take(all.len() as int) =~= all);
}

proof fn lemma_largest_fit(rows: Seq<RowV>, n: int)
    requires
        changes_fit(rows),
        n >= 0,
        strict_order(moved_rows(rows).len() as int, larger(moved_rows(rows))),
        exists|o: Seq<int>|
            is_ranking(o, moved_rows(rows).len() as int, larger(moved_rows(rows))),
    ensures
        deltas_fit(largest(rows, n)),
{
    let m = moved_rows(rows);
    lemma_moved_fit(rows);
    let order = ranking(m.len() as int, larger(m));
    assert(is_ranking(order, m.len() as int, larger(m)));
    let l = largest(rows, n);
    assert forall|k: int| 0 <= k < l.len() implies change_fits(#[trigger] l[k]) by {
        assert(0 <= order[k] < m.len());
        assert(change_fits(m[order[k]]));
    }
}

proof fn lemma_moved_fit(rows: Seq<RowV>)
    requires
        changes_fit(rows),
    ensures
        deltas_fit(moved_rows(rows)),
    decreases rows.len(),
{
    if rows.len() > 0 {
        let init = rows.drop_last();
        assert forall|i: int| 0 <= i < init.len() implies (change(
            #[trigger] init[i],
        ) matches Some(d) ==> i64::MIN < d <= i64::MAX) by {
            assert(init[i] == rows[i]);
        }
        lemma_moved_fit(init);
        let last = rows[rows.len() - 1];
        assert(change_fits(last));
        let a = moved_rows(init);
        let b = moved_rows(rows);
        assert forall|i: int| 0 <= i < b.len() implies change_fits(#[trigger] b[i]) by {
            if i < a.len() {
                assert(b[i] == a[i]);
            }
        }
    }
}

fn put_head(out: &mut Vec<char>, report: &RescoreReport)
    requires
        old(out)@.len() == 0,
    ensures
        final(out)@ == lines_text(
            head_lines(report.export_path@, report.model_version@, rows_view(report.rows@)),
        ),
{
    let ghost rows = rows_view(report.rows@);
    let ghost all = head_lines(report.export_path@, report.model_version@, rows);
    let blank: Vec<char> = Vec::new();
    assert(blank@ =~= Seq::empty());
    assert(out@ =~= lines_text(all.take(0)));
    let line = concat2("nibdex rescore — ", &to_chars(report.export_path.as_str()));
    end_line(out, &line, Ghost(all.take(0)));
    assert(all.take(0).push(line@) =~= all.take(1));
    let mut line = to_chars("  recorded model: ");
    append_str(&mut line, put_versions_label(&report.rows).as_str());
    append_str(&mut line, "    →    re-score model: ");
    append_str(&mut line, report.model_version.as_str());
    end_line(out, &line, Ghost(all.take(1)));
    assert(all.take(1).push(line@) =~= all.take(2));
    let mut line = to_chars("  ");
    append_chars(&mut line, &dec_chars(report.rows.len() as u64));
    append_str(&mut line, " call row(s)");
    end_line(out, &line, Ghost(all.take(2)));
    assert(all.take(2).push(line@) =~= all.take(3));
    end_line(out, &blank, Ghost(all.take(3)));
    assert(all.take(3).push(blank@) =~= all.take(4));
    let line = put_table_line(
        &to_chars("#"),
        &to_chars("tool"),
        &to_chars("rank"),
        &to_chars("result_tok"),
        &to_chars("recorded"),
        &to_chars("re-scored"),
        &to_chars("Δ"),
    );
    end_line(out, &line, Ghost(all.take(4)));
    assert(all.take(4).push(line@) =~= all.take(5));
    let line = rule(78);
    end_line(out, &line, Ghost(all.take(5)));
    assert(all.take(5).push(line@) =~= all);
}

fn put_tool_section(
    out: &mut Vec<char>,
    report: &RescoreReport,
    Ghost(lines): Ghost<Seq<Seq<char>>>,
)
    requires
        old(out)@ == lines_text(lines),
        report_fits(rows_view(report.rows@)),
    ensures
        final(out)@ == lines_text(lines + tool_section(rows_view(report.rows@))),
{
    let ghost rows = rows_view(report.rows@);
    let line = put_tool_table_line(
        &to_chars("per tool"),
        &to_chars("calls"),
        &to_chars("recorded"),
        &to_chars("re-scored"),
        &to_chars("Δ"),
    );
    end_line(out, &line, Ghost(lines));
    let ghost first = lines.push(line@);
    let line = rule(64);
    end_line(out, &line, Ghost(first));
    let ghost second = first.push(line@);
    let table = report.per_tool();
    assert forall|i: int| 0 <= i < table@.len() implies fits(
        (#[trigger] table@[i]).rescored_saved - table@[i].recorded_saved,
    ) by {
        assert(rollups_view(table@).len() == rollups(rows).len());
        assert(rollups_view(table@)[i] == table@[i]@);
        let t = rollups(rows)[i].tool;
        assert(rollups(rows)[i] == rollup(rows, t));
    }
    put_tools(out, &table, Ghost(second));
    assert(second + tool_lines(rollups(rows)) =~= lines + tool_section(rows));
}

fn put_totals(out: &mut Vec<char>, report: &RescoreReport, Ghost(lines): Ghost<Seq<Seq<char>>>)
    requires
        old(out)@ == lines_text(lines),
        report_fits(rows_view(report.rows@)),
    ensures
        final(out)@ == lines_text(lines + total_lines(rows_view(report.rows@))),
{
    let ghost rows = rows_view(report.rows@);
    let ghost all = total_lines(rows);
    let blank: Vec<char> = Vec::new();
    assert(blank@ =~= Seq::empty());
    assert(deltas_fit(rows)) by {
        assert forall|i: int| 0 <= i < rows.len() implies change_fits(#[trigger] rows[i]) by {}
    }
    let rec: i64 = report.recorded_total();
    let new: i64 = report.rescored_total();
    end_line(out, &blank, Ghost(lines));
    assert(lines.push(blank@) =~= lines + all.take(1));
    let line = to_chars("  TOTAL tokens_saved_p50");
    end_line(out, &line, Ghost(lines + all.take(1)));
    assert((lines + all.take(1)).push(line@) =~= lines + all.take(2));
    let line = total_line("    recorded : ", &comma_chars(rec));
    end_line(out, &line, Ghost(lines + all.take(2)));
    assert((lines + all.take(2)).push(line@) =~= lines + all.take(3));
    let line = total_line("    re-scored: ", &comma_chars(new));
    end_line(out, &line, Ghost(lines + all.take(3)));
    assert((lines + all.take(3)).push(line@) =~= lines + all.take(4));
    let line = total_line("    Δ        : ", &signed_chars(new - rec));
    end_line(out, &line, Ghost(lines + all.take(4)));
    assert((lines + all.take(4)).push(line@) =~= lines + all.take(5));
    end_line(out, &blank, Ghost(lines + all.take(5)));
    assert((lines + all.take(5)).push(blank@) =~= lines + all.take(6));
    let mut line = to_chars("  ");
    append_chars(&mut line, &dec_chars(report.changed_rows() as u64));
    append_str(&mut line, " row(s) changed · ");
    append_chars(&mut line, &dec_chars(report.error_rows() as u64));
    append_str(&mut line, " error row(s) excluded · ");
    append_chars(&mut line, &dec_chars(report.unscored_tool_rows() as u64));
    append_str(&mut line, " tool-not-in-model row(s)");
    assert(line@ == counts_line(rows));
    end_line(out, &line, Ghost(lines + all.take(6)));
    assert((lines + all.take(6)).push(line@) =~= lines + all);
}

/// Renders the report for people.
pub fn render(report: &RescoreReport) -> (r: String)
    requires
        report_fits(rows_view(report.rows@)),
    ensures
        r@ == lines_text(
            report_lines(report.export_path@, report.model_version@, rows_view(report.rows@)),
        ),
{
    let ghost rows = rows_view(report.rows@);
    let ghost head = head_lines(report.export_path@, report.model_version@, rows);
    let blank: Vec<char> = Vec::new();
    assert(blank@ =~= Seq::empty());
    assert(deltas_fit(rows)) by {
        assert forall|i: int| 0 <= i < rows.len() implies change_fits(#[trigger] rows[i]) by {}
    }
    let mut out: Vec<char> = Vec::new();
    put_head(&mut out, report);
    put_rows(&mut out, &report.rows, Ghost(head));
    let ghost with_rows = head + row_lines(rows);
    end_line(&mut out, &blank, Ghost(with_rows));
    let ghost upper = with_rows.push(blank@);
    proof {
        lemma_moved_order(rows);
        lemma_largest_fit(rows, 5);
    }
    let movers = report.largest_corrections(5);
    put_movers(&mut out, &movers, Ghost(upper));
    let ghost with_movers = upper + mover_lines(largest(rows, 5));
    put_tool_section(&mut out, report, Ghost(with_movers));
    let ghost with_tools = with_movers + tool_section(rows);
    put_totals(&mut out, report, Ghost(with_tools));
    assert(upper =~= with_rows + seq![Seq::<char>::empty()]);
    assert(with_tools + total_lines(rows) =~= report_lines(
        report.export_path@,
        report.model_version@,
        rows,
    ));
    from_chars(&out)
}

/// The changes of the rows that moved have an order.
proof fn lemma_moved_order(rows: Seq<RowV>)
    ensures
        strict_order(moved_rows(rows).len() as int, larger(moved_rows(rows))),
        exists|o: Seq<int>|
            is_ranking(o, moved_rows(rows).len() as int, larger(moved_rows(rows))),
{
    let m = moved_rows(rows);
    let n = m.len() as int;
    let before = larger(m);
    assert(strict_order(n, before));
    crate::ranking::lemma_ranking_exists(n, before);
}

// ---- Laws ----------------------------------------------------------------------------------

/// The savings per tool, added up over the tools.
pub open spec fn rollup_sum(rows: Seq<RowV>, names: Seq<Seq<char>>) -> int
    decreases names.len(),
{
    if names.len() == 0 {
        0
    } else {
        rollup_sum(rows, names.drop_last()) + rollup(rows, names.last()).recorded_saved
    }
}

pub open spec fn rollup_new_sum(rows: Seq<RowV>, names: Seq<Seq<char>>) -> int
    decreases names.len(),
{
    if names.len() == 0 {
        0
    } else {
        rollup_new_sum(rows, names.drop_last()) + rollup(rows, names.last()).rescored_saved
    }
}

pub open spec fn rollup_calls(rows: Seq<RowV>, names: Seq<Seq<char>>) -> int
    decreases names.len(),
{
    if names.len() == 0 {
        0
    } else {
        rollup_calls(rows, names.drop_last()) + rollup(rows, names.last()).calls
    }
}

/// How often a name occurs.
spec fn times(names: Seq<Seq<char>>, t: Seq<char>) -> int
    decreases names.len(),
{
    if names.len() == 0 {
        0
    } else {
        times(names.drop_last(), t) + if names.last() == t {
            1int
        } else {
            0
        }
    }
}

proof fn lemma_times_once(names: Seq<Seq<char>>, t: Seq<char>)
    requires
        increasing(names),
    ensures
        times(names, t) == if names.contains(t) {
            1int
        } else {
            0
        },
    decreases names.len(),
{
    if names.len() > 0 {
        let init = names.drop_last();
        assert forall|i: int, j: int| 0 <= i < j < init.len() implies crate::text::str_lt(
            #[trigger] init[i],
            #[trigger] init[j],
        ) by {
            assert(init[i] == names[i] && init[j] == names[j]);
        }
        lemma_times_once(init, t);
        let last = names[names.len() - 1];
        if init.contains(t) {
            let q = choose|q: int| 0 <= q < init.len() && init[q] == t;
            assert(names[q] == t);
            if last == t {
                assert(crate::text::str_lt(names[q], names[names.len() - 1]));
                crate::text::lemma_str_lt_total(t, t);
            }
        }
        if names.contains(t) && !init.contains(t) {
            let q = choose|q: int| 0 <= q < names.len() && names[q] == t;
            if q < init.len() {
                assert(init[q] == t);
            }
        }
        if last == t {
            assert(names[names.len() - 1] == t);
        }
    }
}

/// One row more adds its figures to the sums of its tool, as often as the tool is named.
proof fn lemma_row_adds(rows: Seq<RowV>, names: Seq<Seq<char>>)
    requires
        rows.len() > 0,
    ensures
        rollup_sum(rows, names) == rollup_sum(rows.drop_last(), names) + times(
            names,
            rows.last().tool,
        ) * figure(rows.last().recorded_saved),
        rollup_new_sum(rows, names) == rollup_new_sum(rows.drop_last(), names) + times(
            names,
            rows.last().tool,
        ) * figure(rows.last().rescored_saved),
        rollup_calls(rows, names) == rollup_calls(rows.drop_last(), names) + times(
            names,
            rows.last().tool,
        ),
    decreases names.len(),
{
    let r = rows.last();
    if names.len() > 0 {
        lemma_row_adds(rows, names.drop_last());
        let t = names.last();
        let before = rows_of(rows.drop_last(), t);
        let after = rows_of(rows, t);
        let n = times(names.drop_last(), r.tool);
        let x = figure(r.recorded_saved);
        let y = figure(r.rescored_saved);
        if r.tool == t {
            assert(after.drop_last() =~= before);
            assert((n + 1) * x == n * x + x) by (nonlinear_arith);
            assert((n + 1) * y == n * y + y) by (nonlinear_arith);
        }
    }
}

proof fn lemma_rollups_cover(rows: Seq<RowV>, names: Seq<Seq<char>>)
    requires
        increasing(names),
        forall|i: int| 0 <= i < rows.len() ==> names.contains((#[trigger] rows[i]).tool),
    ensures
        rollup_sum(rows, names) == recorded_sum(rows),
        rollup_new_sum(rows, names) == rescored_sum(rows),
        rollup_calls(rows, names) == rows.len(),
    decreases rows.len(),
{
    if rows.len() == 0 {
        lemma_no_rows(rows, names);
    } else {
        let init = rows.drop_last();
        assert forall|i: int| 0 <= i < init.len() implies names.contains(
            (#[trigger] init[i]).tool,
        ) by {
            assert(init[i] == rows[i]);
        }
        lemma_rollups_cover(init, names);
        lemma_row_adds(rows, names);
        let last = rows[rows.len() - 1];
        assert(names.contains(last.tool));
        lemma_times_once(names, last.tool);
    }
}

proof fn lemma_no_rows(rows: Seq<RowV>, names: Seq<Seq<char>>)
    requires
        rows.len() == 0,
    ensures
        rollup_sum(rows, names) == 0,
        rollup_new_sum(rows, names) == 0,
        rollup_calls(rows, names) == 0,
    decreases names.len(),
{
    if names.len() > 0 {
        lemma_no_rows(rows, names.drop_last());
    }
}

/// The tools account for everything: their calls together are the rows, and their figures
/// together are the totals.
pub proof fn law_tools_add_up_to_the_totals(rows: Seq<RowV>)
    ensures
        ({
            let names = ordered(tools(rows));
            &&& rollup_calls(rows, names) == rows.len()
            &&& rollup_sum(rows, names) == recorded_sum(rows)
            &&& rollup_new_sum(rows, names) == rescored_sum(rows)
        }),
{
    let ts = tools(rows);
    lemma_ordered_exists(ts);
    let names = ordered(ts);
    assert forall|i: int| 0 <= i < rows.len() implies names.contains((#[trigger] rows[i]).tool) by {
        assert(ts[i] == rows[i].tool);
        assert(ts.contains(rows[i].tool));
    }
    lemma_rollups_cover(rows, names);
}

/// The rows of each status together are all rows.
pub proof fn law_every_row_has_one_status(rows: Seq<RowV>)
    ensures
        status_count(rows, RowStatus::Scored) + status_count(rows, RowStatus::ErrorRow)
            + status_count(rows, RowStatus::ToolNotInModel) == rows.len(),
    decreases rows.len(),
{
    if rows.len() > 0 {
        law_every_row_has_one_status(rows.drop_last());
    }
}

} // verus!

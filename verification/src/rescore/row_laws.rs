//! What holds of the rows that are scored anew and of the sums over them.
use vstd::prelude::*;

use super::{
    calls_of, change, comma_text, grouped, larger, largest, moved, moved_count, moved_rows,
    recorded_sum, rescored, rescored_all, rescored_sum, rollups, rows_of, signed_text, status_count,
    tools, RescoredRow, RowStatus, RowV, ToolRollup,
};
use crate::cost_ledger::{model_saved, CalibrationModel};
use crate::json::{field, field2, i64_of, str_of, u64_of, JsonV};
use crate::keys::{lemma_ordered_exists, ordered};
use crate::ranking::{arranged, lemma_arranging_keeps_the_items, ranking, strict_order};
use crate::text::{dec, str_lt};

verus! {

// ---- Rows ----------------------------------------------------------------------------------

/// Each figure of a row is that of its own member of the call; a call without a tool is that
/// of the tool `<unknown>`, and the two figures that are scored are 0 where they are missing.
pub proof fn law_a_row_says_what_its_call_says(call: JsonV, index: int, m: CalibrationModel)
    ensures
        ({
            let r = rescored(call, index, m);
            let tool = str_of(field(call, "tool"@));
            let rank = i64_of(field2(call, "candidate_count"@, "after_rank"@));
            let tokens = u64_of(field(call, "result_token_estimate"@));
            &&& r.index == index
            &&& tool is Some ==> r.tool == tool->0
            &&& tool is None ==> r.tool == "<unknown>"@
            &&& rank is Some ==> r.after_rank == rank->0
            &&& rank is None ==> r.after_rank == 0
            &&& tokens is Some ==> r.result_token_estimate == tokens->0
            &&& tokens is None ==> r.result_token_estimate == 0
            &&& r.recorded_saved == i64_of(field(call, "tokens_saved_p50"@))
            &&& r.recorded_version == str_of(field(call, "calibration_model_version"@))
        }),
{
}

/// A call fails exactly where it has an error that is not null. A failed call is not scored;
/// any other call is scored exactly where the model knows its tool.
pub proof fn law_which_calls_are_scored(call: JsonV, index: int, m: CalibrationModel)
    ensures
        ({
            let r = rescored(call, index, m);
            let error = field(call, "error"@);
            let score = model_saved(m, r.tool, r.result_token_estimate, r.after_rank);
            let fails = error is Some && error->0 != JsonV::Null;
            &&& fails ==> r.status == RowStatus::ErrorRow && r.rescored_saved is None
            &&& !fails && score is Some ==> r.status == RowStatus::Scored && r.rescored_saved is Some
                && r.rescored_saved->0 == score->0 as i64
            &&& !fails && score is None ==> r.status == RowStatus::ToolNotInModel
                && r.rescored_saved is None
        }),
{
}

/// Every call has its row, at its own position; and the calls are those that the document
/// lists under `calls`.
pub proof fn law_every_call_has_its_row(
    doc: JsonV,
    calls: Seq<JsonV>,
    m: CalibrationModel,
    i: int,
)
    ensures
        rescored_all(calls, m).len() == calls.len(),
        0 <= i < calls.len() ==> rescored_all(calls, m)[i] == rescored(calls[i], i, m)
            && rescored_all(calls, m)[i].index == i,
        calls_of(None) is None,
        field(doc, "calls"@) == Some(JsonV::Arr(calls)) ==> calls_of(Some(doc)) == Some(calls),
        calls_of(Some(doc)) == Some(calls) ==> field(doc, "calls"@) == Some(JsonV::Arr(calls)),
{
}

/// The change of a row, with what was recorded, is what is scored anew; it is known only where
/// both are; and a row moved exactly where the two differ.
pub proof fn law_changes_lead_from_old_to_new(r: RowV)
    ensures
        change(r) is Some <==> r.recorded_saved is Some && r.rescored_saved is Some,
        change(r) matches Some(d) ==> r.recorded_saved->0 + d == r.rescored_saved->0,
        moved(r) <==> r.recorded_saved is Some && r.rescored_saved is Some && r.recorded_saved->0
            != r.rescored_saved->0,
{
}

/// A row and a rollup are seen as they are.
pub proof fn law_rows_are_seen_as_they_are(r: RescoredRow, t: ToolRollup)
    ensures
        r@.index == r.index,
        r@.tool == r.tool@,
        r@.after_rank == r.after_rank,
        r@.result_token_estimate == r.result_token_estimate,
        r@.recorded_saved == r.recorded_saved,
        r@.rescored_saved == r.rescored_saved,
        r@.status == r.status,
        r@.recorded_version is Some <==> r.recorded_version is Some,
        r.recorded_version is Some ==> r@.recorded_version->0 == r.recorded_version->0@,
        t@.tool == t.tool@,
        t@.calls == t.calls,
        t@.recorded_saved == t.recorded_saved,
        t@.rescored_saved == t.rescored_saved,
{
}

// ---- Sums ----------------------------------------------------------------------------------

/// What one row more adds to the totals: its figures, where it has them; one to the count of
/// its status and to no other; and one to the rows that moved, where it moved.
pub proof fn law_what_one_row_adds(rows: Seq<RowV>, r: RowV, s: RowStatus, tool: Seq<char>)
    ensures
        recorded_sum(Seq::<RowV>::empty()) == 0 && rescored_sum(Seq::<RowV>::empty()) == 0,
        status_count(Seq::<RowV>::empty(), s) == 0 && moved_count(Seq::<RowV>::empty()) == 0,
        rows_of(Seq::<RowV>::empty(), tool).len() == 0 && moved_rows(
            Seq::<RowV>::empty(),
        ).len() == 0,
        r.recorded_saved is Some ==> recorded_sum(rows.push(r)) == recorded_sum(rows)
            + r.recorded_saved->0,
        r.recorded_saved is None ==> recorded_sum(rows.push(r)) == recorded_sum(rows),
        r.rescored_saved is Some ==> rescored_sum(rows.push(r)) == rescored_sum(rows)
            + r.rescored_saved->0,
        r.rescored_saved is None ==> rescored_sum(rows.push(r)) == rescored_sum(rows),
        r.status == s ==> status_count(rows.push(r), s) == status_count(rows, s) + 1,
        r.status != s ==> status_count(rows.push(r), s) == status_count(rows, s),
        r.tool == tool ==> rows_of(rows.push(r), tool) == rows_of(rows, tool).push(r),
        r.tool != tool ==> rows_of(rows.push(r), tool) == rows_of(rows, tool),
        moved(r) ==> moved_rows(rows.push(r)) == moved_rows(rows).push(r) && moved_count(
            rows.push(r),
        ) == moved_count(rows) + 1,
        !moved(r) ==> moved_rows(rows.push(r)) == moved_rows(rows) && moved_count(rows.push(r))
            == moved_count(rows),
{
    assert(rows.push(r).drop_last() =~= rows);
}

/// The table of tools has one line for each tool that was called and for no other, in the order
/// of their names; and a line adds up the rows of its tool.
pub proof fn law_each_tool_has_one_line(rows: Seq<RowV>, tool: Seq<char>, i: int, j: int)
    ensures
        ({
            let t = rollups(rows);
            &&& (exists|k: int| 0 <= k < t.len() && (#[trigger] t[k]).tool == tool) <==> (exists|
                k: int,
            |
                0 <= k < rows.len() && (#[trigger] rows[k]).tool == tool)
            &&& 0 <= i < j < t.len() ==> str_lt(t[i].tool, t[j].tool)
            &&& 0 <= i < t.len() ==> t[i].calls == rows_of(rows, t[i].tool).len()
                && t[i].recorded_saved == recorded_sum(rows_of(rows, t[i].tool))
                && t[i].rescored_saved == rescored_sum(rows_of(rows, t[i].tool))
        }),
{
    let names = ordered(tools(rows));
    let t = rollups(rows);
    lemma_ordered_exists(tools(rows));
    assert(t.len() == names.len());
    assert forall|k: int| 0 <= k < t.len() implies (#[trigger] t[k]).tool == names[k] by {}
    if exists|k: int| 0 <= k < t.len() && (#[trigger] t[k]).tool == tool {
        let k = choose|k: int| 0 <= k < t.len() && (#[trigger] t[k]).tool == tool;
        assert(names.contains(names[k]));
        assert(tools(rows).contains(tool));
        let q = choose|q: int| 0 <= q < tools(rows).len() && tools(rows)[q] == tool;
        assert(rows[q].tool == tool);
    }
    if exists|k: int| 0 <= k < rows.len() && (#[trigger] rows[k]).tool == tool {
        let k = choose|k: int| 0 <= k < rows.len() && (#[trigger] rows[k]).tool == tool;
        assert(tools(rows)[k] == tool);
        assert(names.contains(tool));
        let q = choose|q: int| 0 <= q < names.len() && names[q] == tool;
        assert(t[q].tool == tool);
    }
}

// ---- The largest changes -------------------------------------------------------------------

/// The magnitude of a change.
pub open spec fn size(r: RowV) -> int {
    let d = change(r)->0;
    if d < 0 {
        -d
    } else {
        d
    }
}

/// The largest changes come first, and of equal ones that of the earlier call; and all of them
/// together are the rows that moved, each as often as it occurs.
pub proof fn law_the_largest_changes_come_first(rows: Seq<RowV>, n: int, i: int, j: int)
    requires
        0 <= n,
    ensures
        0 <= i < j < largest(rows, n).len() ==> size(largest(rows, n)[i]) > size(
            largest(rows, n)[j],
        ) || (size(largest(rows, n)[i]) == size(largest(rows, n)[j]) && largest(rows, n)[i].index
            <= largest(rows, n)[j].index),
        largest(rows, moved_rows(rows).len() as int).to_multiset() == moved_rows(
            rows,
        ).to_multiset(),
        largest(rows, n).len() == if moved_rows(rows).len() < n {
            moved_rows(rows).len() as int
        } else {
            n
        },
{
    let m = moved_rows(rows);
    let count = m.len() as int;
    let before = larger(m);
    assert(strict_order(count, before));
    lemma_arranging_keeps_the_items(m, before);
    let order = ranking(count, before);
    assert(largest(rows, count) =~= arranged(m, order));
    if 0 <= i < j < largest(rows, n).len() {
        assert(before(order[i], order[j]));
    }
}

// ---- Numbers -------------------------------------------------------------------------------

/// Where a comma stands in a number: after each third digit from the right.
pub proof fn law_commas_stand_between_thousands(d: Seq<char>)
    ensures
        d.len() <= 3 ==> grouped(d) == d,
        d.len() > 3 ==> grouped(d).len() > 4 && grouped(d)[grouped(d).len() - 4] == ',' && grouped(
            d,
        ).take(grouped(d).len() - 4) == grouped(d.take(d.len() - 3)) && grouped(d).skip(
            grouped(d).len() - 3,
        ) == d.skip(d.len() - 3),
{
    if d.len() > 3 {
        let head = grouped(d.take(d.len() - 3));
        let tail = d.skip(d.len() - 3);
        lemma_grouped_len(d.take(d.len() - 3));
        let g = grouped(d);
        assert(g == head.push(',') + tail);
        assert(g.take(g.len() - 4) =~= head);
        assert(g.skip(g.len() - 3) =~= tail);
    }
}

proof fn lemma_grouped_len(d: Seq<char>)
    ensures
        grouped(d).len() >= d.len(),
    decreases d.len(),
{
    if d.len() > 3 {
        lemma_grouped_len(d.take(d.len() - 3));
    }
}

/// A number has a minus sign exactly where it is negative; with a sign in any case, a plus sign
/// stands before every other; and the digits are those of its magnitude.
pub proof fn law_signs_of_numbers(n: nat)
    ensures
        comma_text(n as int) == grouped(dec(n)),
        signed_text(n as int) == seq!['+'] + grouped(dec(n)),
        n > 0 ==> comma_text(-(n as int)) == seq!['-'] + grouped(dec(n)),
        n > 0 ==> signed_text(-(n as int)) == seq!['-'] + grouped(dec(n)),
{
}

} // verus!

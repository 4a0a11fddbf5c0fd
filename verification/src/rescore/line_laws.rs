//! What the lines of the report for people say.
use vstd::prelude::*;

use super::{
    comma_text, counts_line, head_lines, left, lines_text, largest, moved_count, mover_line,
    mover_lines, recorded_sum, report_lines, rescored_sum, right, rollups, row_line, signed_text,
    status_count, tool_line, tool_section, total_lines, versions, versions_label, RollupV,
    RowStatus, RowV,
};
use crate::keys::{lemma_ordered_exists, ordered};
use crate::text::{dec, dec_int, joined, str_lt};

verus! {

/// `n` blanks.
pub open spec fn blanks(n: int) -> Seq<char> {
    Seq::new(
        if n > 0 {
            n as nat
        } else {
            0
        },
        |i: int| ' ',
    )
}

/// A text fills its column with blanks: from the left where it is set to the right, and from
/// the right where it is set to the left. A text that is too wide stands as it is.
pub proof fn law_columns_are_filled_with_blanks(s: Seq<char>, width: int)
    ensures
        right(s, width) == blanks(width - s.len()) + s,
        left(s, width) == s + blanks(width - s.len()),
        s.len() <= width ==> right(s, width).len() == width && left(s, width).len() == width,
        s.len() >= width ==> right(s, width) == s && left(s, width) == s,
{
    assert(right(s, width) =~= blanks(width - s.len()) + s);
    assert(left(s, width) =~= s + blanks(width - s.len()));
    if s.len() >= width {
        assert(right(s, width) =~= s);
        assert(left(s, width) =~= s);
    }
}

/// Each line ends with a line feed, and the lines follow each other.
pub proof fn law_lines_follow_each_other(lines: Seq<Seq<char>>, line: Seq<char>)
    ensures
        lines_text(Seq::<Seq<char>>::empty()) == Seq::<char>::empty(),
        lines_text(lines.push(line)) == lines_text(lines) + line + seq!['\n'],
{
    assert(lines.push(line).drop_last() =~= lines);
    assert(lines_text(lines) + line.push('\n') =~= lines_text(lines) + line + seq!['\n']);
}

/// The line of a call: its position, its tool, its rank, the tokens of its answer, what was
/// recorded or a dash, what is scored anew or why it is not, and the change where it is scored.
pub proof fn law_the_line_of_a_call(r: RowV)
    ensures
        ({
            let recorded = if r.recorded_saved is Some {
                comma_text(r.recorded_saved->0 as int)
            } else {
                "—"@
            };
            let score = if r.status == RowStatus::ErrorRow {
                "error"@
            } else if r.status == RowStatus::ToolNotInModel {
                "not-in-model"@
            } else if r.rescored_saved is Some {
                comma_text(r.rescored_saved->0 as int)
            } else {
                Seq::empty()
            };
            let delta = if r.status == RowStatus::Scored && r.recorded_saved is Some
                && r.rescored_saved is Some {
                signed_text(r.rescored_saved->0 - r.recorded_saved->0)
            } else {
                Seq::empty()
            };
            row_line(r) == "  "@ + right(dec(r.index as nat), 3) + "  "@ + left(r.tool, 16) + " "@
                + right(dec_int(r.after_rank as int), 5) + " "@ + right(
                dec(r.result_token_estimate as nat),
                11,
            ) + " "@ + right(recorded, 13) + " "@ + right(score, 13) + " "@ + right(delta, 12)
        }),
{
}

/// The line of a large change: the position of the call, its tool, its rank, the tokens of its
/// answer, and from which figure to which the savings moved, and by how much.
pub proof fn law_the_line_of_a_large_change(r: RowV)
    requires
        r.recorded_saved is Some,
        r.rescored_saved is Some,
    ensures
        mover_line(r) == "    ["@ + right(dec(r.index as nat), 2) + "] "@ + left(r.tool, 16)
            + " rank="@ + left(dec_int(r.after_rank as int), 3) + " result_tok="@ + right(
            dec(r.result_token_estimate as nat),
            7,
        ) + "  "@ + right(comma_text(r.recorded_saved->0 as int), 11) + " → "@ + right(
            comma_text(r.rescored_saved->0 as int),
            11,
        ) + "  ("@ + signed_text(r.rescored_saved->0 - r.recorded_saved->0) + ")"@,
{
}

/// The line of a tool: its name, its calls, what was recorded, what is scored anew, and the
/// change.
pub proof fn law_the_line_of_a_tool(t: RollupV)
    ensures
        tool_line(t) == "  "@ + left(t.tool, 16) + " "@ + right(dec(t.calls as nat), 6) + " "@
            + right(comma_text(t.recorded_saved), 13) + " "@ + right(
            comma_text(t.rescored_saved),
            13,
        ) + " "@ + right(signed_text(t.rescored_saved - t.recorded_saved), 12),
{
}

/// The versions that rows were recorded under are told each once and in order, with commas
/// between; where no row tells one, that is told.
pub proof fn law_the_recorded_versions(rows: Seq<RowV>, r: RowV, v: Seq<char>, i: int, j: int)
    ensures
        versions(Seq::<RowV>::empty()) == Seq::<Seq<char>>::empty(),
        r.recorded_version == Some(v) ==> versions(rows.push(r)) == versions(rows).push(v),
        r.recorded_version is None ==> versions(rows.push(r)) == versions(rows),
        versions(rows).len() == 0 ==> versions_label(rows) == "(none recorded)"@,
        versions(rows).len() > 0 ==> versions_label(rows) == joined(ordered(versions(rows)), ", "@),
        ordered(versions(rows)).contains(v) <==> versions(rows).contains(v),
        0 <= i < j < ordered(versions(rows)).len() ==> str_lt(
            ordered(versions(rows))[i],
            ordered(versions(rows))[j],
        ),
{
    assert(rows.push(r).drop_last() =~= rows);
    let o = ordered(versions(rows));
    lemma_ordered_exists(versions(rows));
    if versions(rows).len() > 0 {
        assert(versions(rows).contains(versions(rows)[0]));
        assert(o.contains(versions(rows)[0]));
    } else if o.len() > 0 {
        assert(o.contains(o[0]));
    }
}

/// The last line counts the rows that changed, those that failed, and those of tools that the
/// model does not know.
pub proof fn law_the_line_of_the_counts(rows: Seq<RowV>)
    ensures
        counts_line(rows) == "  "@ + dec(moved_count(rows)) + " row(s) changed · "@ + dec(
            status_count(rows, RowStatus::ErrorRow),
        ) + " error row(s) excluded · "@ + dec(status_count(rows, RowStatus::ToolNotInModel))
            + " tool-not-in-model row(s)"@,
{
}

/// The totals are what was recorded, what is scored anew, and by how much that is more.
pub proof fn law_the_lines_of_the_totals(rows: Seq<RowV>)
    ensures
        total_lines(rows).len() == 7,
        total_lines(rows)[0].len() == 0 && total_lines(rows)[5].len() == 0,
        total_lines(rows)[1] == "  TOTAL tokens_saved_p50"@,
        total_lines(rows)[2] == "    recorded : "@ + right(comma_text(recorded_sum(rows)), 15),
        total_lines(rows)[3] == "    re-scored: "@ + right(comma_text(rescored_sum(rows)), 15),
        total_lines(rows)[4] == "    Δ        : "@ + right(
            signed_text(rescored_sum(rows) - recorded_sum(rows)),
            15,
        ),
        total_lines(rows)[6] == counts_line(rows),
{
}

/// The head of the report tells the export, the two models and the number of calls, above the
/// names of the columns.
pub proof fn law_the_head_of_the_report(path: Seq<char>, model: Seq<char>, rows: Seq<RowV>)
    ensures
        ({
            let h = head_lines(path, model, rows);
            &&& h.len() == 6
            &&& h[0] == "nibdex rescore — "@ + path
            &&& h[1] == "  recorded model: "@ + versions_label(rows)
                + "    →    re-score model: "@ + model
            &&& h[2] == "  "@ + dec(rows.len()) + " call row(s)"@
            &&& h[3].len() == 0
            &&& h[4] == "  "@ + right("#"@, 3) + "  "@ + left("tool"@, 16) + " "@ + right(
                "rank"@,
                5,
            ) + " "@ + right("result_tok"@, 11) + " "@ + right("recorded"@, 13) + " "@ + right(
                "re-scored"@,
                13,
            ) + " "@ + right("Δ"@, 12)
            &&& h[5].len() == 80 && h[5][0] == ' ' && h[5][1] == ' ' && forall|i: int|
                2 <= i < 80 ==> h[5][i] == '-'
        }),
{
    reveal_strlit("  ");
}

/// The report is its head, one line for each call in order, an empty line, the five largest
/// changes under their heading where any row moved, the tools and the totals.
pub proof fn law_the_report_is_its_parts(
    path: Seq<char>,
    model: Seq<char>,
    rows: Seq<RowV>,
    i: int,
)
    ensures
        ({
            let lines = report_lines(path, model, rows);
            let movers = largest(rows, 5);
            let calls = rows.len() as int;
            let block = if movers.len() > 0 {
                movers.len() as int + 2
            } else {
                0
            };
            let start = 6 + calls + 1 + block;
            let names = rollups(rows).len() as int;
            let rule = lines[start + 1];
            &&& lines.len() == start + 2 + names + 7
            &&& 0 <= i < 6 ==> lines[i] == head_lines(path, model, rows)[i]
            &&& 0 <= i < rows.len() ==> lines[6 + i] == row_line(rows[i])
            &&& lines[6 + calls].len() == 0
            &&& movers.len() > 0 ==> lines[6 + calls + 1] == "  Largest corrections:"@
                && lines[start - 1].len() == 0
            &&& 0 <= i < movers.len() ==> lines[6 + calls + 2 + i] == mover_line(movers[i])
            &&& lines[start] == "  "@ + left("per tool"@, 16) + " "@ + right("calls"@, 6) + " "@
                + right("recorded"@, 13) + " "@ + right("re-scored"@, 13) + " "@ + right("Δ"@, 12)
            &&& rule.len() == 66 && rule[0] == ' ' && rule[1] == ' ' && forall|k: int|
                2 <= k < 66 ==> #[trigger] rule[k] == '-'
            &&& 0 <= i < names ==> lines[start + 2 + i] == tool_line(rollups(rows)[i])
            &&& 0 <= i < 7 ==> lines[start + 2 + names + i] == total_lines(rows)[i]
        }),
{
    reveal_strlit("  ");
    let movers = largest(rows, 5);
    let block = mover_lines(movers);
    if movers.len() > 0 {
        assert(block.len() == movers.len() + 2);
        assert(block[0] == "  Largest corrections:"@);
        assert(block[movers.len() as int + 1].len() == 0);
        if 0 <= i < movers.len() {
            assert(block[1 + i] == mover_line(movers[i]));
        }
    } else {
        assert(block.len() == 0);
    }
    assert(head_lines(path, model, rows).len() == 6);
    let section = tool_section(rows);
    assert(section.len() == 2 + rollups(rows).len());
    if 0 <= i < rollups(rows).len() {
        assert(section[2 + i] == tool_line(rollups(rows)[i]));
    }
}

} // verus!

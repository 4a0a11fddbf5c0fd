//! What holds of the report for people: where the largest changes stand in it, and how
//! they are chosen.
use vstd::prelude::*;

use super::{
    change, comma_or, comma_text, counts_line, delta_text, grouped, head_lines, largest, larger,
    left, lines_text, moved_count, moved_rows, mover_line, mover_lines, repeated, report_lines,
    right, rollup, rollups, row_line, row_lines, score_text, signed_text, table_line, tool_line,
    tool_lines, tool_section, tool_table_line, tools, total_lines, versions, versions_label,
    RowStatus, RowV,
};
use crate::keys::{lemma_ordered_exists, ordered};
use crate::text::{dec, dec_int, has_sub, joined, occurs_at};

verus! {

// ---- The largest changes -------------------------------------------------------------------

proof fn lemma_moved_rows(rows: Seq<RowV>)
    ensures
        moved_rows(rows).len() == moved_count(rows),
        moved_count(rows) <= rows.len(),
    decreases rows.len(),
{
    if rows.len() > 0 {
        lemma_moved_rows(rows.drop_last());
    }
}

/// Asking for fewer of the largest changes gives a beginning of them; asking for none gives
/// none; and asking for as many as there are rows gives every row that moved.
pub proof fn law_fewer_corrections_are_a_beginning(rows: Seq<RowV>, n: int, m: int)
    requires
        0 <= n <= m,
    ensures
        largest(rows, n).is_prefix_of(largest(rows, m)),
        largest(rows, 0).len() == 0,
        largest(rows, rows.len() as int).len() == moved_count(rows),
        largest(rows, n).len() == if moved_count(rows) < n {
            moved_count(rows) as int
        } else {
            n
        },
{
    lemma_moved_rows(rows);
    let a = largest(rows, n);
    let b = largest(rows, m);
    assert(a =~= b.subrange(0, a.len() as int));
}

// ---- Lines ---------------------------------------------------------------------------------

/// A text of one line.
pub open spec fn one_line(s: Seq<char>) -> bool {
    forall|i: int| 0 <= i < s.len() ==> #[trigger] s[i] != '\n'
}

/// A text ends with another.
pub open spec fn ends_with(s: Seq<char>, end: Seq<char>) -> bool {
    s.len() >= end.len() && s.skip(s.len() - end.len()) == end
}

/// Where the text of some lines holds a line with its end, one of the lines ends so.
proof fn lemma_line_end(lines: Seq<Seq<char>>, end: Seq<char>)
    requires
        forall|i: int| 0 <= i < lines.len() ==> one_line(#[trigger] lines[i]),
        one_line(end),
        has_sub(lines_text(lines), end.push('\n')),
    ensures
        exists|i: int| 0 <= i < lines.len() && ends_with(#[trigger] lines[i], end),
    decreases lines.len(),
{
    let text = lines_text(lines);
    let pat = end.push('\n');
    let at = choose|i: int| occurs_at(text, pat, i);
    assert(pat[end.len() as int] == '\n');
    assert(text.subrange(at, at + pat.len())[end.len() as int] == text[at + end.len()]);
    if lines.len() == 0 {
        assert(false);
    }
    let init = lines.drop_last();
    let before = lines_text(init);
    let last = lines[lines.len() - 1];
    assert(text == before + last.push('\n'));
    assert forall|i: int| 0 <= i < init.len() implies one_line(#[trigger] init[i]) by {
        assert(init[i] == lines[i]);
    }
    if at + pat.len() <= before.len() {
        assert(before.subrange(at, at + pat.len()) =~= text.subrange(at, at + pat.len()));
        assert(occurs_at(before, pat, at));
        lemma_line_end(init, end);
        let i = choose|i: int| 0 <= i < init.len() && ends_with(#[trigger] init[i], end);
        assert(lines[i] == init[i]);
    } else {
        let stop = at + end.len();
        assert(text[stop] == '\n');
        assert(one_line(lines[lines.len() - 1]));
        if stop < text.len() - 1 {
            assert(text[stop] == last[stop - before.len()]);
        }
        assert(stop == text.len() - 1);
        if end.len() > last.len() {
            lemma_text_ends(init);
            let q = before.len() - 1;
            assert(text[q] == '\n');
            assert(text.subrange(at, at + pat.len())[q - at] == text[q]);
            assert(pat[q - at] == end[q - at]);
        }
        assert(last.skip(last.len() - end.len()) =~= end) by {
            assert forall|k: int| 0 <= k < end.len() implies last.skip(
                last.len() - end.len(),
            )[k] == end[k] by {
                assert(text.subrange(at, at + pat.len())[k] == text[at + k]);
                assert(pat[k] == end[k]);
            }
        }
        assert(ends_with(lines[lines.len() - 1], end));
    }
}

/// The text of some lines is empty or ends with the end of a line.
proof fn lemma_text_ends(lines: Seq<Seq<char>>)
    ensures
        lines_text(lines).len() == 0 <==> lines.len() == 0,
        lines.len() > 0 ==> lines_text(lines).last() == '\n',
{
}

/// A line of a text stands in it, with its end.
proof fn lemma_line_stands(lines: Seq<Seq<char>>, i: int)
    requires
        0 <= i < lines.len(),
    ensures
        has_sub(lines_text(lines), lines[i].push('\n')),
    decreases lines.len(),
{
    let text = lines_text(lines);
    let before = lines_text(lines.drop_last());
    let pat = lines[i].push('\n');
    if i == lines.len() - 1 {
        assert(text.subrange(before.len() as int, (before.len() + pat.len()) as int) =~= pat);
        assert(occurs_at(text, pat, before.len() as int));
    } else {
        assert(lines.drop_last()[i] == lines[i]);
        lemma_line_stands(lines.drop_last(), i);
        let at = choose|k: int| occurs_at(before, pat, k);
        assert(text.subrange(at, at + pat.len()) =~= before.subrange(at, at + pat.len()));
        assert(occurs_at(text, pat, at));
    }
}

// ---- Numbers -------------------------------------------------------------------------------

/// A character of a number.
spec fn figure_char(c: char) -> bool {
    '0' <= c <= '9' || c == ',' || c == '-' || c == '+'
}

/// A number: it is not empty, and made of figures and signs.
spec fn numeral(s: Seq<char>) -> bool {
    s.len() > 0 && forall|i: int| 0 <= i < s.len() ==> figure_char(#[trigger] s[i])
}

proof fn lemma_dec_numeral(n: nat)
    ensures
        numeral(dec(n)),
    decreases n,
{
    if n >= 10 {
        lemma_dec_numeral(n / 10);
        let d = dec(n / 10);
        assert forall|i: int| 0 <= i < dec(n).len() implies figure_char(#[trigger] dec(n)[i]) by {
            if i < d.len() {
                assert(dec(n)[i] == d[i]);
            }
        }
    }
}

proof fn lemma_dec_int_numeral(n: int)
    ensures
        numeral(dec_int(n)),
{
    if n < 0 {
        lemma_dec_numeral((-n) as nat);
    } else {
        lemma_dec_numeral(n as nat);
    }
}

proof fn lemma_grouped_numeral(d: Seq<char>)
    requires
        numeral(d),
    ensures
        numeral(grouped(d)),
    decreases d.len(),
{
    if d.len() > 3 {
        let head = d.take(d.len() - 3);
        let tail = d.skip(d.len() - 3);
        assert forall|i: int| 0 <= i < head.len() implies figure_char(#[trigger] head[i]) by {
            assert(head[i] == d[i]);
        }
        assert forall|i: int| 0 <= i < tail.len() implies figure_char(#[trigger] tail[i]) by {
            assert(tail[i] == d[d.len() - 3 + i]);
        }
        lemma_grouped_numeral(head);
        let front = grouped(head).push(',');
        assert forall|i: int| 0 <= i < grouped(d).len() implies figure_char(
            #[trigger] grouped(d)[i],
        ) by {
            if i < grouped(head).len() {
                assert(grouped(d)[i] == grouped(head)[i]);
            } else if i == grouped(head).len() {
                assert(grouped(d)[i] == ',');
            } else {
                assert(grouped(d)[i] == tail[i - front.len()]);
            }
        }
    }
}

proof fn lemma_comma_numeral(n: int)
    ensures
        numeral(comma_text(n)),
        numeral(signed_text(n)),
{
    if n < 0 {
        lemma_dec_numeral((-n) as nat);
        lemma_grouped_numeral(dec((-n) as nat));
    } else {
        lemma_dec_numeral(n as nat);
        lemma_grouped_numeral(dec(n as nat));
    }
}

/// A line that cannot be taken for the heading: it is one line and does not end in a colon.
spec fn quiet(s: Seq<char>) -> bool {
    one_line(s) && (s.len() == 0 || s.last() != ':')
}

proof fn lemma_numeral_quiet(s: Seq<char>)
    requires
        numeral(s),
    ensures
        quiet(s),
{
    assert forall|i: int| 0 <= i < s.len() implies #[trigger] s[i] != '\n' by {
        assert(figure_char(s[i]));
    }
    assert(figure_char(s[s.len() - 1]));
}

proof fn lemma_concat_quiet(a: Seq<char>, b: Seq<char>)
    requires
        one_line(a),
        quiet(b),
        b.len() > 0,
    ensures
        quiet(a + b),
{
    assert forall|i: int| 0 <= i < (a + b).len() implies #[trigger] (a + b)[i] != '\n' by {
        if i < a.len() {
            assert((a + b)[i] == a[i]);
        } else {
            assert((a + b)[i] == b[i - a.len()]);
        }
    }
    assert((a + b).last() == b.last());
}

proof fn lemma_concat_one_line(a: Seq<char>, b: Seq<char>)
    requires
        one_line(a),
        one_line(b),
    ensures
        one_line(a + b),
{
    assert forall|i: int| 0 <= i < (a + b).len() implies #[trigger] (a + b)[i] != '\n' by {
        if i < a.len() {
            assert((a + b)[i] == a[i]);
        } else {
            assert((a + b)[i] == b[i - a.len()]);
        }
    }
}

/// A text set to the right in a column of some width.
proof fn lemma_right_quiet(s: Seq<char>, width: int)
    requires
        quiet(s),
        width > 0,
    ensures
        quiet(right(s, width)),
        right(s, width).len() > 0,
{
    let pad = repeated(' ', width - s.len());
    let all = right(s, width);
    lemma_concat_one_line(pad, s);
    if s.len() > 0 {
        assert(all.last() == s.last());
    } else {
        assert(all.last() == pad.last());
    }
}

proof fn lemma_left_one_line(s: Seq<char>, width: int)
    requires
        one_line(s),
    ensures
        one_line(left(s, width)),
{
    lemma_concat_one_line(s, repeated(' ', width - s.len()));
}

proof fn lemma_tool_table_line_quiet(
    tool: Seq<char>,
    calls: Seq<char>,
    recorded: Seq<char>,
    new_score: Seq<char>,
    delta: Seq<char>,
)
    requires
        one_line(tool),
        quiet(calls),
        quiet(recorded),
        quiet(new_score),
        quiet(delta),
    ensures
        quiet(tool_table_line(tool, calls, recorded, new_score, delta)),
{
    reveal_strlit("  ");
    reveal_strlit(" ");
    lemma_left_one_line(tool, 16);
    lemma_right_quiet(calls, 6);
    lemma_right_quiet(recorded, 13);
    lemma_right_quiet(new_score, 13);
    lemma_right_quiet(delta, 12);
    let a = "  "@ + left(tool, 16);
    lemma_concat_one_line("  "@, left(tool, 16));
    lemma_concat_one_line(a, " "@);
    let b = a + " "@ + right(calls, 6);
    lemma_concat_one_line(a + " "@, right(calls, 6));
    lemma_concat_one_line(b, " "@);
    let c = b + " "@ + right(recorded, 13);
    lemma_concat_one_line(b + " "@, right(recorded, 13));
    lemma_concat_one_line(c, " "@);
    let d = c + " "@ + right(new_score, 13);
    lemma_concat_one_line(c + " "@, right(new_score, 13));
    lemma_concat_one_line(d, " "@);
    lemma_concat_quiet(d + " "@, right(delta, 12));
}

proof fn lemma_table_line_quiet(
    index: Seq<char>,
    tool: Seq<char>,
    rank: Seq<char>,
    tokens: Seq<char>,
    recorded: Seq<char>,
    new_score: Seq<char>,
    delta: Seq<char>,
)
    requires
        quiet(index),
        one_line(tool),
        quiet(rank),
        quiet(tokens),
        quiet(recorded),
        quiet(new_score),
        quiet(delta),
    ensures
        quiet(table_line(index, tool, rank, tokens, recorded, new_score, delta)),
{
    reveal_strlit("  ");
    reveal_strlit(" ");
    lemma_right_quiet(index, 3);
    lemma_left_one_line(tool, 16);
    lemma_right_quiet(rank, 5);
    lemma_right_quiet(tokens, 11);
    lemma_right_quiet(recorded, 13);
    lemma_right_quiet(new_score, 13);
    lemma_right_quiet(delta, 12);
    let a = "  "@ + right(index, 3);
    lemma_concat_one_line("  "@, right(index, 3));
    lemma_concat_one_line(a, "  "@);
    let b = a + "  "@ + left(tool, 16);
    lemma_concat_one_line(a + "  "@, left(tool, 16));
    lemma_concat_one_line(b, " "@);
    let c = b + " "@ + right(rank, 5);
    lemma_concat_one_line(b + " "@, right(rank, 5));
    lemma_concat_one_line(c, " "@);
    let d = c + " "@ + right(tokens, 11);
    lemma_concat_one_line(c + " "@, right(tokens, 11));
    lemma_concat_one_line(d, " "@);
    let e = d + " "@ + right(recorded, 13);
    lemma_concat_one_line(d + " "@, right(recorded, 13));
    lemma_concat_one_line(e, " "@);
    let f = e + " "@ + right(new_score, 13);
    lemma_concat_one_line(e + " "@, right(new_score, 13));
    lemma_concat_one_line(f, " "@);
    lemma_concat_quiet(f + " "@, right(delta, 12));
}

proof fn lemma_signed_quiet(n: int)
    ensures
        quiet(signed_text(n)),
        quiet(comma_text(n)),
        signed_text(n).len() > 0,
        comma_text(n).len() > 0,
{
    lemma_comma_numeral(n);
    lemma_numeral_quiet(signed_text(n));
    lemma_numeral_quiet(comma_text(n));
}

proof fn lemma_dec_quiet(n: nat)
    ensures
        quiet(dec(n)),
        dec(n).len() > 0,
{
    lemma_dec_numeral(n);
    lemma_numeral_quiet(dec(n));
}

proof fn lemma_comma_or_quiet(n: Option<i64>, default: Seq<char>)
    requires
        quiet(default),
    ensures
        quiet(comma_or(n, default)),
{
    if let Some(v) = n {
        lemma_signed_quiet(v as int);
    }
}

proof fn lemma_row_line_quiet(r: RowV)
    requires
        one_line(r.tool),
    ensures
        quiet(row_line(r)),
{
    reveal_strlit("—");
    reveal_strlit("error");
    reveal_strlit("not-in-model");
    lemma_dec_quiet(r.index as nat);
    lemma_dec_quiet(r.result_token_estimate as nat);
    lemma_dec_int_numeral(r.after_rank as int);
    lemma_numeral_quiet(dec_int(r.after_rank as int));
    lemma_comma_or_quiet(r.recorded_saved, "—"@);
    lemma_comma_or_quiet(r.rescored_saved, Seq::empty());
    assert(quiet(score_text(r)));
    match change(r) {
        Some(d) => {
            lemma_signed_quiet(d);
        },
        None => {},
    }
    assert(quiet(delta_text(r)));
    lemma_table_line_quiet(
        dec(r.index as nat),
        r.tool,
        dec_int(r.after_rank as int),
        dec(r.result_token_estimate as nat),
        comma_or(r.recorded_saved, "—"@),
        score_text(r),
        delta_text(r),
    );
}

proof fn lemma_mover_line_quiet(r: RowV)
    requires
        one_line(r.tool),
    ensures
        quiet(mover_line(r)),
{
    reveal_strlit("    [");
    reveal_strlit("] ");
    reveal_strlit(" rank=");
    reveal_strlit(" result_tok=");
    reveal_strlit("  ");
    reveal_strlit(" → ");
    reveal_strlit("  (");
    reveal_strlit(")");
    lemma_dec_quiet(r.index as nat);
    lemma_right_quiet(dec(r.index as nat), 2);
    lemma_left_one_line(r.tool, 16);
    lemma_dec_int_numeral(r.after_rank as int);
    lemma_numeral_quiet(dec_int(r.after_rank as int));
    lemma_left_one_line(dec_int(r.after_rank as int), 3);
    lemma_dec_quiet(r.result_token_estimate as nat);
    lemma_right_quiet(dec(r.result_token_estimate as nat), 7);
    lemma_comma_or_quiet(r.recorded_saved, Seq::empty());
    lemma_comma_or_quiet(r.rescored_saved, Seq::empty());
    let old = right(comma_or(r.recorded_saved, Seq::empty()), 11);
    let new_score = right(comma_or(r.rescored_saved, Seq::empty()), 11);
    lemma_right_quiet(comma_or(r.recorded_saved, Seq::empty()), 11);
    lemma_right_quiet(comma_or(r.rescored_saved, Seq::empty()), 11);
    let d = signed_text(
        match change(r) {
            Some(d) => d,
            None => 0,
        },
    );
    lemma_signed_quiet(
        match change(r) {
            Some(d) => d,
            None => 0,
        },
    );
    let a = "    ["@ + right(dec(r.index as nat), 2);
    lemma_concat_one_line("    ["@, right(dec(r.index as nat), 2));
    let b = a + "] "@;
    lemma_concat_one_line(a, "] "@);
    let c = b + left(r.tool, 16);
    lemma_concat_one_line(b, left(r.tool, 16));
    let e = c + " rank="@;
    lemma_concat_one_line(c, " rank="@);
    let f = e + left(dec_int(r.after_rank as int), 3);
    lemma_concat_one_line(e, left(dec_int(r.after_rank as int), 3));
    let g = f + " result_tok="@;
    lemma_concat_one_line(f, " result_tok="@);
    let h = g + right(dec(r.result_token_estimate as nat), 7);
    lemma_concat_one_line(g, right(dec(r.result_token_estimate as nat), 7));
    let i = h + "  "@;
    lemma_concat_one_line(h, "  "@);
    let j = i + old;
    lemma_concat_one_line(i, old);
    let k = j + " → "@;
    lemma_concat_one_line(j, " → "@);
    let l = k + new_score;
    lemma_concat_one_line(k, new_score);
    let m = l + "  ("@;
    lemma_concat_one_line(l, "  ("@);
    let n = m + d;
    lemma_concat_one_line(m, d);
    lemma_concat_quiet(n, ")"@);
}

// ---- The heading ---------------------------------------------------------------------------

/// The heading of the largest changes.
pub open spec fn heading() -> Seq<char> {
    "  Largest corrections:"@
}

/// Every text that the report takes from its rows is of one line, and the path and the model
/// do not themselves hold the words of the heading.
pub open spec fn plain_texts(path: Seq<char>, model: Seq<char>, rows: Seq<RowV>) -> bool {
    &&& one_line(path)
    &&& one_line(model)
    &&& !has_sub(path, "Largest corrections"@)
    &&& !has_sub(model, "Largest corrections"@)
    &&& forall|i: int|
        0 <= i < rows.len() ==> one_line((#[trigger] rows[i]).tool) && (
        rows[i].recorded_version matches Some(v) ==> one_line(v))
}

/// A text behind a mark that the heading does not have does not end as the heading does.
proof fn lemma_behind_a_mark(front: Seq<char>, s: Seq<char>)
    requires
        front.len() >= 2,
        front[front.len() - 2] == '—' || front[front.len() - 2] == ':',
        !has_sub(s, "Largest corrections"@),
    ensures
        !ends_with(front + s, heading()),
{
    reveal_strlit("  Largest corrections:");
    reveal_strlit("Largest corrections");
    let h = heading();
    let words = "Largest corrections"@;
    let line = front + s;
    assert(h.len() == 22 && words.len() == 19);
    assert(forall|k: int| 0 <= k < 19 ==> words[k] == h[k + 2]) by {
        assert(h.subrange(2, 21) =~= words);
        assert forall|k: int| 0 <= k < 19 implies words[k] == h[k + 2] by {
            assert(h.subrange(2, 21)[k] == h[k + 2]);
        }
    }
    if ends_with(line, h) {
        let tail = line.skip(line.len() - 22);
        if s.len() >= 20 {
            let at = s.len() - 20;
            assert forall|k: int| 0 <= k < 19 implies s.subrange(at, at + 19)[k] == words[k] by {
                assert(s[at + k] == line[front.len() + at + k]);
                assert(tail[k + 2] == line[line.len() - 22 + k + 2]);
                assert(tail[k + 2] == h[k + 2]);
            }
            assert(s.subrange(at, at + 19) =~= words);
            assert(occurs_at(s, words, at));
        } else {
            let j = 20 - s.len();
            assert(tail[j] == line[front.len() - 2]);
            assert(line[front.len() - 2] == front[front.len() - 2]);
            assert(h[j] == tail[j]);
            assert(1 <= j <= 20);
            assert(forall|k: int| 0 <= k <= 20 ==> h[k] != '—' && h[k] != ':');
        }
    }
}

proof fn lemma_versions_one_line(rows: Seq<RowV>, v: Seq<char>)
    requires
        forall|i: int|
            0 <= i < rows.len() ==> ((#[trigger] rows[i]).recorded_version matches Some(v)
                ==> one_line(v)),
        versions(rows).contains(v),
    ensures
        one_line(v),
    decreases rows.len(),
{
    if rows.len() > 0 {
        let init = rows.drop_last();
        let last = rows[rows.len() - 1];
        let all = versions(rows);
        let k = choose|k: int| 0 <= k < all.len() && all[k] == v;
        assert forall|i: int| 0 <= i < init.len() implies ((
        #[trigger] init[i]).recorded_version matches Some(v) ==> one_line(v)) by {
            assert(init[i] == rows[i]);
        }
        assert(last.recorded_version matches Some(w) ==> one_line(w));
        if k < versions(init).len() {
            assert(versions(init)[k] == v);
            lemma_versions_one_line(init, v);
        }
    }
}

proof fn lemma_joined_one_line(v: Seq<Seq<char>>, sep: Seq<char>)
    requires
        forall|i: int| 0 <= i < v.len() ==> one_line(#[trigger] v[i]),
        one_line(sep),
    ensures
        one_line(joined(v, sep)),
    decreases v.len(),
{
    if v.len() == 1 {
        assert(one_line(v[0]));
    } else if v.len() > 1 {
        let init = v.drop_last();
        assert forall|i: int| 0 <= i < init.len() implies one_line(#[trigger] init[i]) by {
            assert(init[i] == v[i]);
        }
        lemma_joined_one_line(init, sep);
        assert(one_line(v[v.len() - 1]));
        lemma_concat_one_line(joined(init, sep), sep);
        lemma_concat_one_line(joined(init, sep) + sep, v.last());
    }
}

proof fn lemma_label_one_line(rows: Seq<RowV>)
    requires
        forall|i: int|
            0 <= i < rows.len() ==> ((#[trigger] rows[i]).recorded_version matches Some(v)
                ==> one_line(v)),
    ensures
        one_line(versions_label(rows)),
{
    reveal_strlit("(none recorded)");
    reveal_strlit(", ");
    let distinct = ordered(versions(rows));
    lemma_ordered_exists(versions(rows));
    assert forall|i: int| 0 <= i < distinct.len() implies one_line(#[trigger] distinct[i]) by {
        assert(distinct.contains(distinct[i]));
        lemma_versions_one_line(rows, distinct[i]);
    }
    lemma_joined_one_line(distinct, ", "@);
}

/// The head of the report is of single lines, none of which ends as the heading does.
proof fn lemma_head(path: Seq<char>, model: Seq<char>, rows: Seq<RowV>)
    requires
        plain_texts(path, model, rows),
    ensures
        head_lines(path, model, rows).len() == 6,
        forall|i: int|
            0 <= i < 6 ==> one_line(#[trigger] head_lines(path, model, rows)[i]) && !ends_with(
                head_lines(path, model, rows)[i],
                heading(),
            ),
{
    let lines = head_lines(path, model, rows);
    reveal_strlit("nibdex rescore — ");
    reveal_strlit("  recorded model: ");
    reveal_strlit("    →    re-score model: ");
    reveal_strlit("  ");
    reveal_strlit(" call row(s)");
    reveal_strlit("#");
    reveal_strlit("tool");
    reveal_strlit("rank");
    reveal_strlit("result_tok");
    reveal_strlit("recorded");
    reveal_strlit("re-scored");
    reveal_strlit("Δ");
    assert(lines[0] == "nibdex rescore — "@ + path);
    lemma_concat_one_line("nibdex rescore — "@, path);
    assert("nibdex rescore — "@.len() == 17);
    assert("nibdex rescore — "@[15] == '—');
    lemma_behind_a_mark("nibdex rescore — "@, path);
    lemma_label_one_line(rows);
    let a = "  recorded model: "@ + versions_label(rows);
    let front = a + "    →    re-score model: "@;
    lemma_concat_one_line("  recorded model: "@, versions_label(rows));
    lemma_concat_one_line(a, "    →    re-score model: "@);
    lemma_concat_one_line(front, model);
    assert("    →    re-score model: "@.len() == 25);
    assert("    →    re-score model: "@[23] == ':');
    assert(front[front.len() - 2] == "    →    re-score model: "@[23]);
    assert(lines[1] == front + model);
    lemma_behind_a_mark(front, model);
    lemma_dec_quiet(rows.len());
    lemma_concat_one_line("  "@, dec(rows.len()));
    assert(" call row(s)"@.len() == 12);
    assert(" call row(s)"@.last() == ')');
    lemma_concat_quiet("  "@ + dec(rows.len()), " call row(s)"@);
    lemma_table_line_quiet("#"@, "tool"@, "rank"@, "result_tok"@, "recorded"@, "re-scored"@, "Δ"@);
    assert(repeated('-', 78).last() == '-');
    lemma_concat_quiet("  "@, repeated('-', 78));
    lemma_quiet_is_no_heading(lines[2]);
    lemma_quiet_is_no_heading(lines[3]);
    lemma_quiet_is_no_heading(lines[4]);
    lemma_quiet_is_no_heading(lines[5]);
}

proof fn lemma_quiet_is_no_heading(s: Seq<char>)
    requires
        quiet(s),
    ensures
        one_line(s),
        !ends_with(s, heading()),
{
    reveal_strlit("  Largest corrections:");
    let h = heading();
    assert(h.len() == 22);
    assert(h[21] == ':');
    if ends_with(s, h) {
        assert(s.skip(s.len() - 22)[21] == s[s.len() - 1]);
    }
}

proof fn lemma_tool_section_quiet(rows: Seq<RowV>)
    requires
        forall|i: int| 0 <= i < rows.len() ==> one_line((#[trigger] rows[i]).tool),
    ensures
        forall|i: int| 0 <= i < tool_section(rows).len() ==> quiet(#[trigger] tool_section(rows)[i]),
{
    reveal_strlit("per tool");
    reveal_strlit("calls");
    reveal_strlit("recorded");
    reveal_strlit("re-scored");
    reveal_strlit("Δ");
    reveal_strlit("  ");
    lemma_tool_table_line_quiet("per tool"@, "calls"@, "recorded"@, "re-scored"@, "Δ"@);
    assert(repeated('-', 64).last() == '-');
    lemma_concat_quiet("  "@, repeated('-', 64));
    let names = ordered(tools(rows));
    lemma_ordered_exists(tools(rows));
    let all = tool_lines(rollups(rows));
    assert forall|i: int| 0 <= i < all.len() implies quiet(#[trigger] all[i]) by {
        let t = rollups(rows)[i];
        assert(t == rollup(rows, names[i]));
        assert(names.contains(names[i]));
        assert(tools(rows).contains(names[i]));
        let k = choose|k: int| 0 <= k < tools(rows).len() && tools(rows)[k] == names[i];
        assert(one_line(rows[k].tool));
        lemma_dec_quiet(t.calls as nat);
        lemma_signed_quiet(t.recorded_saved);
        lemma_signed_quiet(t.rescored_saved);
        lemma_signed_quiet(t.rescored_saved - t.recorded_saved);
        lemma_tool_table_line_quiet(
            t.tool,
            dec(t.calls as nat),
            comma_text(t.recorded_saved),
            comma_text(t.rescored_saved),
            signed_text(t.rescored_saved - t.recorded_saved),
        );
        assert(all[i] == tool_line(t));
    }
    let section = tool_section(rows);
    assert forall|i: int| 0 <= i < section.len() implies quiet(#[trigger] section[i]) by {
        if i >= 2 {
            assert(section[i] == all[i - 2]);
        }
    }
}

proof fn lemma_totals_quiet(rows: Seq<RowV>)
    ensures
        forall|i: int| 0 <= i < total_lines(rows).len() ==> quiet(#[trigger] total_lines(rows)[i]),
{
    reveal_strlit("  TOTAL tokens_saved_p50");
    reveal_strlit("    recorded : ");
    reveal_strlit("    re-scored: ");
    reveal_strlit("    Δ        : ");
    let lines = total_lines(rows);
    let rec = super::recorded_sum(rows);
    let new_sum = super::rescored_sum(rows);
    assert("  TOTAL tokens_saved_p50"@.len() == 24);
    assert("  TOTAL tokens_saved_p50"@.last() == '0');
    assert(quiet("  TOTAL tokens_saved_p50"@));
    lemma_signed_quiet(rec);
    lemma_signed_quiet(new_sum);
    lemma_signed_quiet(new_sum - rec);
    lemma_right_quiet(comma_text(rec), 15);
    lemma_right_quiet(comma_text(new_sum), 15);
    lemma_right_quiet(signed_text(new_sum - rec), 15);
    lemma_concat_quiet("    recorded : "@, right(comma_text(rec), 15));
    lemma_concat_quiet("    re-scored: "@, right(comma_text(new_sum), 15));
    lemma_concat_quiet("    Δ        : "@, right(signed_text(new_sum - rec), 15));
    lemma_counts_quiet(rows);
    assert(lines.len() == 7);
    assert forall|i: int| 0 <= i < lines.len() implies quiet(#[trigger] lines[i]) by {}
}

proof fn lemma_counts_quiet(rows: Seq<RowV>)
    ensures
        quiet(counts_line(rows)),
{
    reveal_strlit("  ");
    reveal_strlit(" row(s) changed · ");
    reveal_strlit(" error row(s) excluded · ");
    reveal_strlit(" tool-not-in-model row(s)");
    let a = moved_count(rows);
    let b = super::status_count(rows, RowStatus::ErrorRow);
    let c = super::status_count(rows, RowStatus::ToolNotInModel);
    lemma_dec_quiet(a);
    lemma_dec_quiet(b);
    lemma_dec_quiet(c);
    let d = "  "@ + dec(a);
    lemma_concat_one_line("  "@, dec(a));
    let e = d + " row(s) changed · "@;
    lemma_concat_one_line(d, " row(s) changed · "@);
    let f = e + dec(b);
    lemma_concat_one_line(e, dec(b));
    let g = f + " error row(s) excluded · "@;
    lemma_concat_one_line(f, " error row(s) excluded · "@);
    let h = g + dec(c);
    lemma_concat_one_line(g, dec(c));
    assert(" tool-not-in-model row(s)"@.len() == 25);
    assert(" tool-not-in-model row(s)"@.last() == ')');
    lemma_concat_quiet(h, " tool-not-in-model row(s)"@);
}

/// The rows that moved are among the rows.
proof fn lemma_moved_members(rows: Seq<RowV>, k: int)
    requires
        0 <= k < moved_rows(rows).len(),
    ensures
        rows.contains(moved_rows(rows)[k]),
    decreases rows.len(),
{
    if rows.len() > 0 {
        let init = rows.drop_last();
        if k < moved_rows(init).len() {
            assert(moved_rows(rows)[k] == moved_rows(init)[k]);
            lemma_moved_members(init, k);
            let q = choose|q: int| 0 <= q < init.len() && init[q] == moved_rows(init)[k];
            assert(rows[q] == moved_rows(rows)[k]);
        } else {
            assert(rows[rows.len() - 1] == moved_rows(rows)[k]);
        }
    }
}

proof fn lemma_largest_members(rows: Seq<RowV>, n: int, k: int)
    requires
        0 <= n,
        0 <= k < largest(rows, n).len(),
    ensures
        rows.contains(largest(rows, n)[k]),
{
    super::lemma_moved_order(rows);
    let m = moved_rows(rows);
    let order = crate::ranking::ranking(m.len() as int, larger(m));
    assert(crate::ranking::is_ranking(order, m.len() as int, larger(m)));
    assert(0 <= order[k] < m.len());
    lemma_moved_members(rows, order[k]);
}

/// The place of the heading: behind the head, the calls and a blank line.
pub open spec fn heading_at(rows: Seq<RowV>) -> int {
    rows.len() as int + 7
}

/// What the report says of the largest changes, line by line. Where some row moved there is
/// the heading, with one line under it for each of the five largest changes, in order, and a
/// blank line; and no other line ends as the heading does. Where no row moved no line does.
pub proof fn law_the_largest_corrections_have_their_block(
    path: Seq<char>,
    model: Seq<char>,
    rows: Seq<RowV>,
)
    requires
        plain_texts(path, model, rows),
    ensures
        ({
            let lines = report_lines(path, model, rows);
            let movers = largest(rows, 5);
            let at = heading_at(rows);
            &&& movers.len() > 0 <==> moved_count(rows) > 0
            &&& forall|i: int|
                0 <= i < lines.len() && ends_with(#[trigger] lines[i], heading()) ==> i == at
                    && moved_count(rows) > 0
            &&& moved_count(rows) > 0 ==> {
                &&& at + 1 + movers.len() < lines.len()
                &&& lines[at] == heading()
                &&& forall|i: int|
                    0 <= i < movers.len() ==> lines[at + 1 + i] == mover_line(#[trigger] movers[i])
                &&& lines[at + 1 + movers.len()].len() == 0
            }
            &&& forall|i: int| 0 <= i < lines.len() ==> one_line(#[trigger] lines[i])
        }),
{
    let lines = report_lines(path, model, rows);
    let head = head_lines(path, model, rows);
    let calls = row_lines(rows);
    let movers = largest(rows, 5);
    let block = mover_lines(movers);
    let section = tool_section(rows);
    let totals = total_lines(rows);
    let at = heading_at(rows);
    law_fewer_corrections_are_a_beginning(rows, 5, 5);
    lemma_head(path, model, rows);
    lemma_tool_section_quiet(rows);
    lemma_totals_quiet(rows);
    reveal_strlit("  Largest corrections:");
    assert(heading().len() == 22);
    assert(one_line(heading()));
    assert(heading().skip(0) =~= heading());
    assert(lines == head + calls + seq![Seq::empty()] + block + section + totals);
    assert forall|i: int| 0 <= i < movers.len() implies quiet(
        #[trigger] mover_line(movers[i]),
    ) by {
        lemma_largest_members(rows, 5, i);
        let q = choose|q: int| 0 <= q < rows.len() && rows[q] == movers[i];
        assert(one_line(rows[q].tool));
        lemma_mover_line_quiet(movers[i]);
    }
    assert forall|i: int| 0 <= i < lines.len() implies one_line(#[trigger] lines[i]) && (ends_with(
        lines[i],
        heading(),
    ) ==> i == at && moved_count(rows) > 0) by {
        let b = at + block.len();
        if i < 6 {
            assert(lines[i] == head[i]);
        } else if i < 6 + rows.len() {
            assert(lines[i] == calls[i - 6]);
            assert(calls[i - 6] == row_line(rows[i - 6]));
            lemma_row_line_quiet(rows[i - 6]);
            lemma_quiet_is_no_heading(lines[i]);
        } else if i < at {
            assert(lines[i] == Seq::<char>::empty());
            lemma_quiet_is_no_heading(lines[i]);
        } else if i < b {
            assert(lines[i] == block[i - at]);
            if i > at {
                if i < at + 1 + movers.len() {
                    assert(block[i - at] == mover_line(movers[i - at - 1]));
                    assert(quiet(mover_line(movers[i - at - 1])));
                } else {
                    assert(block[i - at] == Seq::<char>::empty());
                }
                lemma_quiet_is_no_heading(lines[i]);
            } else {
                assert(block[0] == heading());
            }
        } else if i < b + section.len() {
            assert(lines[i] == section[i - b]);
            lemma_quiet_is_no_heading(lines[i]);
        } else {
            assert(lines[i] == totals[i - b - section.len()]);
            lemma_quiet_is_no_heading(lines[i]);
        }
    }
    if moved_count(rows) > 0 {
        assert(block.len() == movers.len() + 2);
        assert(block[0] == heading());
        assert(lines[at] == block[0]);
        assert forall|i: int| 0 <= i < movers.len() implies lines[at + 1 + i] == mover_line(
            #[trigger] movers[i],
        ) by {
            assert(lines[at + 1 + i] == block[1 + i]);
        }
        assert(lines[at + 1 + movers.len()] == block[movers.len() as int + 1]);
    }
}

/// The report has the heading of the largest changes exactly where a row moved.
pub proof fn law_the_heading_stands_where_a_row_moved(
    path: Seq<char>,
    model: Seq<char>,
    rows: Seq<RowV>,
)
    requires
        plain_texts(path, model, rows),
    ensures
        has_sub(lines_text(report_lines(path, model, rows)), "  Largest corrections:\n"@)
            <==> moved_count(rows) > 0,
{
    let lines = report_lines(path, model, rows);
    law_the_largest_corrections_have_their_block(path, model, rows);
    reveal_strlit("  Largest corrections:");
    reveal_strlit("  Largest corrections:\n");
    assert("  Largest corrections:\n"@ =~= heading().push('\n'));
    if moved_count(rows) > 0 {
        lemma_line_stands(lines, heading_at(rows));
    }
    if has_sub(lines_text(lines), heading().push('\n')) {
        lemma_line_end(lines, heading());
    }
}

} // verus!

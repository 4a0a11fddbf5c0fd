//! What holds of every transcript and of every pass.
use vstd::prelude::*;

use super::scope::{
    admission_of, admissions, admitted_at, clean, visible_to, AdmissionV, PlaceV, WorkspaceV,
};
use super::transcript::{
    assistant_blocks, blank, bounded_rationale, fresh_message, grouped, inherited_text,
    line_context, transcript, with_block, with_blocks, with_message, EdgeV, GroupV, LineV, MessageV,
    TranscriptV, RATIONALE_BYTES,
};
use super::{placement, routed, search_text, with_edges, ContextV, PassV, Placement, RowV};
use crate::json::{field, json_document, str_of, JsonV};
use crate::text::{fit_len, lemma_fit_len_bounds, trimmed, utf8_len, utf8_width, ws};

verus! {

// ---- Rationales --------------------------------------------------------------------------

/// A block is a text block that reads `text`.
pub open spec fn text_block(block: JsonV, text: Seq<char>) -> bool {
    str_of(field(block, "type"@)) == Some("text"@) && str_of(field(block, "text"@)) == Some(text)
}

/// Block `j` of a line reads `text`, and the line is of this session and directory.
pub open spec fn says(
    line: Seq<char>,
    j: int,
    session_id: Seq<char>,
    cwd: Option<Seq<char>>,
    text: Seq<char>,
) -> bool {
    json_document(line) matches Some(d) && assistant_blocks(d) matches Some(blocks) && 0 <= j
        < blocks.len() && text_block(blocks[j], text) && line_context(d).session_id == session_id
        && line_context(d).cwd == cwd
}

/// Some message of this session, written in this directory, reads `text`.
pub open spec fn spoken(
    lines: Seq<Seq<char>>,
    session_id: Seq<char>,
    cwd: Option<Seq<char>>,
    text: Seq<char>,
) -> bool {
    exists|i: int, j: int|
        0 <= i < lines.len() && #[trigger] says(lines[i], j, session_id, cwd, text)
}

/// A rationale that comes from nowhere, or from a message of the edge's own session
/// written in the edge's own directory.
pub open spec fn own_rationale(lines: Seq<Seq<char>>, e: EdgeV) -> bool {
    e.rationale == bounded_rationale(Seq::empty()) || exists|text: Seq<char>|
        spoken(lines, e.session_id, e.cwd, text) && e.rationale == #[trigger] bounded_rationale(
            text,
        )
}

/// Within one message: the text so far, and the rationales of its edges.
spec fn message_ok(line: LineV, inherited: Seq<char>, m: MessageV, blocks: Seq<JsonV>) -> bool {
    &&& m.text.len() == 0 || exists|j: int|
        0 <= j < blocks.len() && text_block(#[trigger] blocks[j], m.text)
    &&& forall|k: int|
        0 <= k < m.edges.len() ==> (#[trigger] m.edges[k]).session_id == line.session_id
            && m.edges[k].cwd == line.cwd && m.edges[k].edge_ordinal == k && m.edges[k].group_id
            == line.group_id && m.edges[k].message_uuid == line.message_uuid && (m.edges[k].tool
            == "Edit"@ || m.edges[k].tool == "Write"@) && m.edges[k].repo_path == line.cwd
            && m.paths.contains(m.edges[k].raw_abs_path)
    &&& forall|k: int|
        0 <= k < m.edges.len() ==> (#[trigger] m.edges[k]).rationale == bounded_rationale(inherited)
            || exists|j: int, text: Seq<char>|
            0 <= j < blocks.len() && #[trigger] text_block(blocks[j], text)
                && m.edges[k].rationale == bounded_rationale(text)
}

proof fn lemma_blocks_ok(line: LineV, inherited: Seq<char>, m0: MessageV, blocks: Seq<JsonV>)
    requires
        m0.edges.len() == 0,
        m0.text.len() == 0,
    ensures
        message_ok(line, inherited, with_blocks(line, inherited, m0, blocks), blocks),
    decreases blocks.len(),
{
    if blocks.len() > 0 {
        let init = blocks.drop_last();
        lemma_blocks_ok(line, inherited, m0, init);
        let m = with_blocks(line, inherited, m0, init);
        let b = blocks[blocks.len() - 1];
        let m2 = with_block(line, inherited, m, b);
        assert(m2 == with_blocks(line, inherited, m0, blocks));
        assert forall|j: int| 0 <= j < init.len() implies init[j] == #[trigger] blocks[j] by {}
        assert(m2.text.len() == 0 || exists|j: int|
            0 <= j < blocks.len() && text_block(#[trigger] blocks[j], m2.text)) by {
            if m2.text == m.text {
                if m.text.len() > 0 {
                    let j = choose|j: int|
                        0 <= j < init.len() && text_block(#[trigger] init[j], m.text);
                    assert(text_block(blocks[j], m2.text));
                }
            } else {
                assert(text_block(b, m2.text));
                assert(text_block(blocks[blocks.len() - 1], m2.text));
            }
        }
        assert forall|k: int| 0 <= k < m2.edges.len() implies (
        #[trigger] m2.edges[k]).session_id == line.session_id && m2.edges[k].cwd == line.cwd
            && m2.edges[k].edge_ordinal == k && m2.edges[k].group_id == line.group_id
            && m2.edges[k].message_uuid == line.message_uuid && (m2.edges[k].tool == "Edit"@
            || m2.edges[k].tool == "Write"@) && m2.edges[k].repo_path == line.cwd
            && m2.paths.contains(m2.edges[k].raw_abs_path) by {
            let e = m2.edges[k];
            if k < m.edges.len() {
                assert(e == m.edges[k]);
                let q = choose|q: int| 0 <= q < m.paths.len() && m.paths[q] == e.raw_abs_path;
                assert(m2.paths[q] == e.raw_abs_path);
            } else {
                assert(m2.paths[m.paths.len() as int] == e.raw_abs_path);
            }
        }
        assert forall|k: int| 0 <= k < m2.edges.len() implies (
        #[trigger] m2.edges[k]).rationale == bounded_rationale(inherited) || exists|
            j: int,
            text: Seq<char>,
        |
            0 <= j < blocks.len() && #[trigger] text_block(blocks[j], text)
                && m2.edges[k].rationale == bounded_rationale(text) by {
            let e = m2.edges[k];
            if k < m.edges.len() {
                assert(e == m.edges[k]);
                if e.rationale != bounded_rationale(inherited) {
                    let (j, text) = choose|j: int, text: Seq<char>|
                        0 <= j < init.len() && #[trigger] text_block(init[j], text) && e.rationale
                            == bounded_rationale(text);
                    assert(text_block(blocks[j], text));
                }
            } else if !blank(m.text) {
                assert(m.text.len() > 0) by {
                    if m.text.len() == 0 {
                        assert(trimmed(m.text) =~= Seq::empty());
                    }
                }
                let j = choose|j: int|
                    0 <= j < init.len() && text_block(#[trigger] init[j], m.text);
                assert(text_block(blocks[j], m.text));
            }
        }
    }
}

proof fn lemma_spoken_grows(
    lines: Seq<Seq<char>>,
    session_id: Seq<char>,
    cwd: Option<Seq<char>>,
    text: Seq<char>,
)
    requires
        lines.len() > 0,
        spoken(lines.drop_last(), session_id, cwd, text),
    ensures
        spoken(lines, session_id, cwd, text),
{
    let init = lines.drop_last();
    let (i, j) = choose|i: int, j: int|
        0 <= i < init.len() && #[trigger] says(init[i], j, session_id, cwd, text);
    assert(says(lines[i], j, session_id, cwd, text));
}

/// What the induction over the lines carries along.
spec fn transcript_ok(lines: Seq<Seq<char>>, t: TranscriptV) -> bool {
    &&& t.last_text.len() == 0 || spoken(lines, t.last_session, t.last_cwd, t.last_text)
    &&& forall|k: int| 0 <= k < t.edges.len() ==> own_rationale(lines, #[trigger] t.edges[k])
    &&& forall|k: int|
        0 <= k < t.edges.len() ==> in_some_group(t.groups, #[trigger] t.edges[k])
    &&& forall|k: int|
        0 <= k < t.edges.len() ==> ((#[trigger] t.edges[k]).tool == "Edit"@ || t.edges[k].tool
            == "Write"@)
}

/// The target of an edge is among the paths of its group.
pub open spec fn in_some_group(groups: Seq<GroupV>, e: EdgeV) -> bool {
    exists|g: int|
        0 <= g < groups.len() && (#[trigger] groups[g]).session_id == e.session_id
            && groups[g].group_id == e.group_id && groups[g].paths.contains(e.raw_abs_path)
}

proof fn lemma_grouped_keeps(groups: Seq<GroupV>, line: LineV, paths: Seq<Seq<char>>, e: EdgeV)
    requires
        in_some_group(groups, e),
    ensures
        in_some_group(grouped(groups, line, paths), e),
{
    let g = choose|g: int|
        0 <= g < groups.len() && (#[trigger] groups[g]).session_id == e.session_id
            && groups[g].group_id == e.group_id && groups[g].paths.contains(e.raw_abs_path);
    let after = grouped(groups, line, paths);
    let q = choose|q: int|
        0 <= q < groups[g].paths.len() && groups[g].paths[q] == e.raw_abs_path;
    assert(after[g].paths[q] == e.raw_abs_path);
    assert(after[g].session_id == e.session_id);
}

proof fn lemma_grouped_adds(groups: Seq<GroupV>, line: LineV, paths: Seq<Seq<char>>, e: EdgeV)
    requires
        e.session_id == line.session_id,
        e.group_id == line.group_id,
        paths.contains(e.raw_abs_path),
    ensures
        in_some_group(grouped(groups, line, paths), e),
{
    let after = grouped(groups, line, paths);
    let last = after[after.len() - 1];
    let q = choose|q: int| 0 <= q < paths.len() && paths[q] == e.raw_abs_path;
    if groups.len() > 0 && groups.last().session_id == line.session_id && groups.last().group_id
        == line.group_id {
        assert(last.paths[groups.last().paths.len() + q] == e.raw_abs_path);
    } else {
        assert(last.paths[q] == e.raw_abs_path);
    }
    assert(after[after.len() - 1].session_id == e.session_id);
}

proof fn lemma_message_ok(
    lines: Seq<Seq<char>>,
    t: TranscriptV,
    d: JsonV,
    blocks: Seq<JsonV>,
)
    requires
        lines.len() > 0,
        transcript_ok(lines.drop_last(), t),
        json_document(lines.last()) == Some(d),
        assistant_blocks(d) == Some(blocks),
    ensures
        transcript_ok(lines, with_message(t, line_context(d), blocks)),
{
    let line = line_context(d);
    let inherited = inherited_text(t, line);
    let m0 = fresh_message(t.activity);
    let m = with_blocks(line, inherited, m0, blocks);
    let after = with_message(t, line, blocks);
    let n = lines.len() - 1;
    lemma_blocks_ok(line, inherited, m0, blocks);
    assert(inherited.len() == 0 || spoken(lines, line.session_id, line.cwd, inherited)) by {
        if inherited.len() > 0 {
            lemma_spoken_grows(lines, t.last_session, t.last_cwd, t.last_text);
        }
    }
    assert(after.last_text.len() == 0 || spoken(
        lines,
        after.last_session,
        after.last_cwd,
        after.last_text,
    )) by {
        if !blank(m.text) {
            assert(m.text.len() > 0) by {
                if m.text.len() == 0 {
                    assert(trimmed(m.text) =~= Seq::empty());
                }
            }
            let j = choose|j: int| 0 <= j < blocks.len() && text_block(#[trigger] blocks[j], m.text);
            assert(says(lines[n], j, line.session_id, line.cwd, m.text));
        }
    }
    assert forall|k: int| 0 <= k < after.edges.len() implies own_rationale(
        lines,
        #[trigger] after.edges[k],
    ) by {
        let e = after.edges[k];
        if k < t.edges.len() {
            assert(e == t.edges[k]);
            if e.rationale != bounded_rationale(Seq::empty()) {
                let text = choose|text: Seq<char>|
                    spoken(lines.drop_last(), e.session_id, e.cwd, text) && e.rationale
                        == #[trigger] bounded_rationale(text);
                lemma_spoken_grows(lines, e.session_id, e.cwd, text);
            }
        } else {
            assert(e == m.edges[k - t.edges.len()]);
            if e.rationale == bounded_rationale(inherited) {
                if inherited.len() == 0 {
                    assert(inherited =~= Seq::empty());
                } else {
                    assert(spoken(lines, e.session_id, e.cwd, inherited));
                }
            } else {
                let (j, text) = choose|j: int, text: Seq<char>|
                    0 <= j < blocks.len() && #[trigger] text_block(blocks[j], text) && e.rationale
                        == bounded_rationale(text);
                assert(says(lines[n], j, line.session_id, line.cwd, text));
                assert(spoken(lines, e.session_id, e.cwd, text));
            }
        }
    }
    assert forall|k: int| 0 <= k < after.edges.len() implies in_some_group(
        after.groups,
        #[trigger] after.edges[k],
    ) by {
        let e = after.edges[k];
        if k < t.edges.len() {
            assert(e == t.edges[k]);
            lemma_grouped_keeps(t.groups, line, m.paths, e);
        } else {
            assert(e == m.edges[k - t.edges.len()]);
            lemma_grouped_adds(t.groups, line, m.paths, e);
        }
    }
    assert forall|k: int| 0 <= k < after.edges.len() implies ((
    #[trigger] after.edges[k]).tool == "Edit"@ || after.edges[k].tool == "Write"@) by {
        if k < t.edges.len() {
            assert(after.edges[k] == t.edges[k]);
        } else {
            assert(after.edges[k] == m.edges[k - t.edges.len()]);
        }
    }
}

proof fn lemma_transcript_ok(lines: Seq<Seq<char>>)
    ensures
        transcript_ok(lines, transcript(lines)),
    decreases lines.len(),
{
    if lines.len() > 0 {
        let init = lines.drop_last();
        lemma_transcript_ok(init);
        let t = transcript(init);
        let last = lines.last();
        let seen = TranscriptV { lines_total: t.lines_total + 1, ..t };
        let after = transcript(lines);
        if !blank(last) && json_document(last) is Some && assistant_blocks(
            json_document(last)->0,
        ) is Some {
            let d = json_document(last)->0;
            lemma_message_ok(lines, seen, d, assistant_blocks(d)->0);
        } else {
            assert(after.edges == t.edges && after.last_text == t.last_text && after.groups
                == t.groups);
            if t.last_text.len() > 0 {
                lemma_spoken_grows(lines, t.last_session, t.last_cwd, t.last_text);
            }
            assert forall|k: int| 0 <= k < after.edges.len() implies own_rationale(
                lines,
                #[trigger] after.edges[k],
            ) by {
                let e = t.edges[k];
                if e.rationale != bounded_rationale(Seq::empty()) {
                    let text = choose|text: Seq<char>|
                        spoken(init, e.session_id, e.cwd, text) && e.rationale
                            == #[trigger] bounded_rationale(text);
                    lemma_spoken_grows(lines, e.session_id, e.cwd, text);
                }
            }
        }
    }
}

/// An inherited rationale never crosses from one session, or from one working directory,
/// into another: the rationale of every edge is empty or is the text of a message of the
/// edge's own session, written in the edge's own directory.
pub proof fn law_rationales_stay_in_their_session_and_directory(lines: Seq<Seq<char>>)
    ensures
        forall|k: int|
            0 <= k < transcript(lines).edges.len() ==> own_rationale(
                lines,
                #[trigger] transcript(lines).edges[k],
            ),
{
    lemma_transcript_ok(lines);
}

/// The target of every edge is among the paths that its logical message touched, so the
/// ratchet cannot overlook it.
pub proof fn law_targets_are_touched_by_their_group(lines: Seq<Seq<char>>)
    ensures
        forall|k: int|
            0 <= k < transcript(lines).edges.len() ==> in_some_group(
                transcript(lines).groups,
                #[trigger] transcript(lines).edges[k],
            ),
{
    lemma_transcript_ok(lines);
}

/// Every edge is an edit or a write.
pub proof fn law_edges_are_edits_and_writes(lines: Seq<Seq<char>>)
    ensures
        forall|k: int|
            0 <= k < transcript(lines).edges.len() ==> ((
            #[trigger] transcript(lines).edges[k]).tool == "Edit"@ || transcript(
                lines,
            ).edges[k].tool == "Write"@),
{
    lemma_transcript_ok(lines);
}

/// The edges of one line are numbered from 0 in order, so that the message identifier and
/// the number together tell them apart.
pub proof fn law_edges_of_a_message_are_numbered(
    line: LineV,
    inherited: Seq<char>,
    activity: Seq<super::transcript::ActivityV>,
    blocks: Seq<JsonV>,
)
    ensures
        ({
            let edges = with_blocks(line, inherited, fresh_message(activity), blocks).edges;
            forall|k: int|
                0 <= k < edges.len() ==> (#[trigger] edges[k]).edge_ordinal == k
                    && edges[k].message_uuid == line.message_uuid
        }),
{
    lemma_blocks_ok(line, inherited, fresh_message(activity), blocks);
}

/// A last line that is cut off costs that line alone: everything that the complete lines
/// yield is kept, and the loss is counted.
pub proof fn law_a_torn_line_costs_only_itself(lines: Seq<Seq<char>>, torn: Seq<char>)
    requires
        !blank(torn),
        json_document(torn) is None,
    ensures
        transcript(lines.push(torn)) == (TranscriptV {
            lines_total: transcript(lines).lines_total + 1,
            lines_parse_err: transcript(lines).lines_parse_err + 1,
            ..transcript(lines)
        }),
{
    assert(lines.push(torn).drop_last() =~= lines);
}

/// Reading further lines never takes an edge back: the edges of a transcript begin with
/// the edges of its beginning.
pub proof fn law_reading_on_keeps_the_edges(lines: Seq<Seq<char>>, line: Seq<char>)
    ensures
        transcript(lines).edges.is_prefix_of(transcript(lines.push(line)).edges),
        transcript(lines).groups.len() <= transcript(lines.push(line)).groups.len(),
{
    let t = transcript(lines);
    let u = transcript(lines.push(line));
    assert(lines.push(line).drop_last() =~= lines);
    assert(u.edges.subrange(0, t.edges.len() as int) =~= t.edges);
}

/// A stored rationale takes at most 500 bytes and an ellipsis.
pub proof fn law_rationales_are_bounded(s: Seq<char>)
    ensures
        utf8_len(bounded_rationale(s)) <= RATIONALE_BYTES + 3,
{
    let t = trimmed(s);
    if utf8_len(t) > RATIONALE_BYTES {
        lemma_fit_len_bounds(t, RATIONALE_BYTES as nat);
        let head = t.take(fit_len(t, RATIONALE_BYTES as nat) as int);
        assert(head.push('…').drop_last() =~= head);
        assert(utf8_width('…') == 3);
    }
}

// ---- The ratchet -------------------------------------------------------------------------

/// The ratchet never turns back: once a group of a session is refused, every later group
/// of that session is.
pub proof fn law_the_ratchet_is_permanent(
    groups: Seq<GroupV>,
    i: int,
    k: int,
    ws: WorkspaceV,
    survey: Seq<PlaceV>,
)
    requires
        0 <= i <= k < groups.len(),
        groups[i].session_id == groups[k].session_id,
        !admitted_at(groups, i, ws, survey),
    ensures
        !admitted_at(groups, k, ws, survey),
{
    let j = choose|j: int|
        0 <= j <= i && (#[trigger] groups[j]).session_id == groups[i].session_id && !clean(
            groups[j],
            ws,
            survey,
        );
    assert(groups[j].session_id == groups[k].session_id);
}

/// Sessions ratchet independently: a group of another session does not matter.
pub proof fn law_sessions_ratchet_independently(
    groups: Seq<GroupV>,
    other: GroupV,
    i: int,
    j: int,
    ws: WorkspaceV,
    survey: Seq<PlaceV>,
)
    requires
        0 <= i < groups.len(),
        0 <= j < groups.len(),
        groups[j].session_id != groups[i].session_id,
        other.session_id == groups[j].session_id,
    ensures
        admitted_at(groups, i, ws, survey) == admitted_at(groups.update(j, other), i, ws, survey),
{
    let changed = groups.update(j, other);
    assert(changed[i] == groups[i]);
    if admitted_at(groups, i, ws, survey) {
        assert forall|q: int|
            0 <= q <= i && (#[trigger] changed[q]).session_id == changed[i].session_id implies clean(
            changed[q],
            ws,
            survey,
        ) by {
            assert(changed[q] == groups[q]);
        }
    }
    if admitted_at(changed, i, ws, survey) {
        assert forall|q: int|
            0 <= q <= i && (#[trigger] groups[q]).session_id == groups[i].session_id implies clean(
            groups[q],
            ws,
            survey,
        ) by {
            assert(changed[q] == groups[q]);
        }
    }
}

/// The latest word on a group is that on the last group of its name.
proof fn lemma_latest_word(
    groups: Seq<GroupV>,
    n: int,
    session_id: Seq<char>,
    group_id: Seq<char>,
    ws: WorkspaceV,
    survey: Seq<PlaceV>,
)
    requires
        0 <= n <= groups.len(),
        admission_of(admissions(groups, ws, survey).take(n), session_id, group_id) == Some(true),
    ensures
        forall|j: int, k: int|
            0 <= j <= k < n && (#[trigger] groups[k]).session_id == session_id && groups[k].group_id
                == group_id && (#[trigger] groups[j]).session_id == session_id ==> clean(
                groups[j],
                ws,
                survey,
            ),
    decreases n,
{
    let all = admissions(groups, ws, survey);
    let here = all.take(n);
    if n > 0 {
        let last = all[n - 1];
        assert(here.last() == last);
        assert(here.drop_last() =~= all.take(n - 1));
        if last.session_id == session_id && last.group_id == group_id {
            assert(admitted_at(groups, n - 1, ws, survey));
            assert forall|j: int, k: int|
                0 <= j <= k < n && (#[trigger] groups[k]).session_id == session_id
                    && groups[k].group_id == group_id && (#[trigger] groups[j]).session_id
                    == session_id implies clean(groups[j], ws, survey) by {
                assert(groups[j].session_id == groups[n - 1].session_id);
            }
        } else {
            lemma_latest_word(groups, n - 1, session_id, group_id, ws, survey);
        }
    }
}

/// Prose is kept only of a session that stayed at home: where the rationale of an edge is
/// kept in the index of a domain, no group of the edge's session, up to and including the
/// groups of the edge's message, touched a path that taints.
pub proof fn law_kept_prose_is_of_a_clean_session(
    e: EdgeV,
    groups: Seq<GroupV>,
    ws: WorkspaceV,
    survey: Seq<PlaceV>,
)
    requires
        ({
            let row = routed(e, true, survey, admissions(groups, ws, survey));
            row is Some && row->0.searchable
        }),
    ensures
        forall|j: int, k: int|
            0 <= j <= k < groups.len() && (#[trigger] groups[k]).session_id == e.session_id
                && groups[k].group_id == e.group_id && (#[trigger] groups[j]).session_id
                == e.session_id ==> clean(groups[j], ws, survey),
{
    let all = admissions(groups, ws, survey);
    assert(all.take(groups.len() as int) =~= all);
    lemma_latest_word(groups, groups.len() as int, e.session_id, e.group_id, ws, survey);
}

/// A path that is relative, or whose `..` cannot be resolved, is foreign in every respect:
/// it is not in the workspace, not neutral, not visible, and it taints.
pub proof fn law_unplaceable_paths_are_foreign(
    raw: Seq<char>,
    ws: WorkspaceV,
    survey: Seq<PlaceV>,
)
    requires
        super::scope::target(raw) is None,
    ensures
        !super::scope::in_workspace(raw, ws, survey),
        !super::scope::neutral(raw, ws, survey),
        !visible_to(raw, survey),
        super::scope::taints_session(raw, ws, survey),
{
}

/// A rationale that is withheld leaves no trace: neither the stored row nor the searched
/// text depends on it.
pub proof fn law_a_withheld_rationale_leaves_no_trace(
    e: EdgeV,
    other: Seq<char>,
    survey: Seq<PlaceV>,
    words: Seq<AdmissionV>,
)
    requires
        admission_of(words, e.session_id, e.group_id) != Some(true),
    ensures
        ({
            let row = routed(e, true, survey, words);
            let twin = routed(EdgeV { rationale: other, ..e }, true, survey, words);
            &&& row == twin
            &&& row matches Some(r) ==> r.rationale == super::WITHHELD_MARKER@ && search_text(
                r,
                e.file_path,
            ) == e.file_path
        }),
{
}

/// An edge whose target the domain does not claim is stored nowhere, and a working
/// directory that it does not claim takes repository and branch out of the row.
pub proof fn law_foreign_ground_is_not_stored(
    e: EdgeV,
    survey: Seq<PlaceV>,
    words: Seq<AdmissionV>,
)
    ensures
        !visible_to(e.raw_abs_path, survey) ==> routed(e, true, survey, words) is None,
        !super::cwd_visible(e.cwd, survey) ==> (routed(e, true, survey, words) matches Some(r)
            ==> r.repo_path is None && r.git_branch is None),
{
}

// ---- A pass ------------------------------------------------------------------------------

pub(crate) open spec fn pass_ok(
    p0: PassV,
    c: ContextV,
    words: Seq<AdmissionV>,
    edges: Seq<EdgeV>,
) -> bool {
    let p = with_edges(p0, c, words, edges);
    &&& forall|a: int|
        0 <= a < p.actions.len() ==> 0 <= (#[trigger] p.actions[a]).edge < edges.len()
            && placement(edges[p.actions[a].edge], c) == Placement::InScope && p.actions[a].row
            == routed(edges[p.actions[a].edge], c.domain, c.survey, words) && p.sessions.contains(
            edges[p.actions[a].edge].session_id,
        )
    &&& forall|a: int, b: int|
        0 <= a < b < p.actions.len() ==> (#[trigger] p.actions[a]).edge < (
        #[trigger] p.actions[b]).edge
    &&& forall|a: int, b: int|
        0 <= a < b < p.actions.len() && edges[(#[trigger] p.actions[a]).edge].session_id == edges[(
        #[trigger] p.actions[b]).edge].session_id ==> !p.actions[b].wipe
    &&& forall|a: int|
        0 <= a < p.actions.len() && p0.sessions.contains(
            edges[(#[trigger] p.actions[a]).edge].session_id,
        ) ==> !p.actions[a].wipe
    &&& p0.sessions.is_prefix_of(p.sessions)
}

pub(crate) proof fn lemma_pass_ok(p0: PassV, c: ContextV, words: Seq<AdmissionV>, edges: Seq<EdgeV>)
    requires
        p0.actions.len() == 0,
    ensures
        pass_ok(p0, c, words, edges),
    decreases edges.len(),
{
    if edges.len() > 0 {
        let init = edges.drop_last();
        lemma_pass_ok(p0, c, words, init);
        let p = with_edges(p0, c, words, init);
        let q = with_edges(p0, c, words, edges);
        let e = edges[edges.len() - 1];
        let n = p.actions.len() as int;
        assert(p0.sessions =~= p.sessions.subrange(0, p0.sessions.len() as int));
        assert forall|s: Seq<char>| p.sessions.contains(s) implies q.sessions.contains(s) by {
            let i = choose|i: int| 0 <= i < p.sessions.len() && p.sessions[i] == s;
            assert(q.sessions[i] == s);
        }
        assert forall|s: Seq<char>| p0.sessions.contains(s) implies p.sessions.contains(s) by {
            let i = choose|i: int| 0 <= i < p0.sessions.len() && p0.sessions[i] == s;
            assert(p.sessions[i] == s);
        }
        assert forall|a: int| 0 <= a < n implies q.actions[a] == #[trigger] p.actions[a]
            && edges[p.actions[a].edge] == init[p.actions[a].edge] by {}
        if placement(e, c) == Placement::InScope {
            assert(q.sessions.contains(e.session_id)) by {
                if !p.sessions.contains(e.session_id) {
                    assert(q.sessions[p.sessions.len() as int] == e.session_id);
                }
            }
        }
        assert(p0.sessions =~= q.sessions.subrange(0, p0.sessions.len() as int));
        assert forall|a: int| 0 <= a < q.actions.len() implies 0 <= (
        #[trigger] q.actions[a]).edge < edges.len() && placement(edges[q.actions[a].edge], c)
            == Placement::InScope && q.actions[a].row == routed(
            edges[q.actions[a].edge],
            c.domain,
            c.survey,
            words,
        ) && q.sessions.contains(edges[q.actions[a].edge].session_id) by {
            if a < n {
                assert(q.actions[a] == p.actions[a]);
            }
        }
        assert forall|a: int, b: int| 0 <= a < b < q.actions.len() implies (
        #[trigger] q.actions[a]).edge < (#[trigger] q.actions[b]).edge by {
            assert(q.actions[a] == p.actions[a]);
            if b < n {
                assert(q.actions[b] == p.actions[b]);
            }
        }
        assert forall|a: int, b: int|
            0 <= a < b < q.actions.len() && edges[(#[trigger] q.actions[a]).edge].session_id
                == edges[(#[trigger] q.actions[b]).edge].session_id implies !q.actions[b].wipe by {
            assert(q.actions[a] == p.actions[a]);
            if b < n {
                assert(q.actions[b] == p.actions[b]);
            } else {
                assert(p.sessions.contains(e.session_id));
            }
        }
        assert forall|a: int|
            0 <= a < q.actions.len() && p0.sessions.contains(
                edges[(#[trigger] q.actions[a]).edge].session_id,
            ) implies !q.actions[a].wipe by {
            if a < n {
                assert(q.actions[a] == p.actions[a]);
            }
        }
    }
}

/// Nothing out of scope is acted upon: every action is for an edge both ends of which are
/// in scope, the actions follow the order of the edges, and each edge has at most one.
pub proof fn law_actions_are_for_edges_in_scope(
    sessions: Seq<Seq<char>>,
    c: ContextV,
    words: Seq<AdmissionV>,
    edges: Seq<EdgeV>,
)
    ensures
        ({
            let actions = with_edges(super::pass_start(sessions), c, words, edges).actions;
            &&& forall|a: int|
                0 <= a < actions.len() ==> 0 <= (#[trigger] actions[a]).edge < edges.len()
                    && placement(edges[actions[a].edge], c) == Placement::InScope
            &&& forall|a: int, b: int|
                0 <= a < b < actions.len() ==> (#[trigger] actions[a]).edge < (
                #[trigger] actions[b]).edge
        }),
{
    lemma_pass_ok(super::pass_start(sessions), c, words, edges);
}

/// What is stored of a session is dropped at most once in a pass, before the first of its
/// edges, however many transcripts carry the session: a second drop would erase what the
/// pass has just stored.
pub proof fn law_a_session_is_dropped_at_most_once(
    sessions: Seq<Seq<char>>,
    c: ContextV,
    words: Seq<AdmissionV>,
    edges: Seq<EdgeV>,
)
    ensures
        ({
            let p = with_edges(super::pass_start(sessions), c, words, edges);
            &&& forall|a: int, b: int|
                0 <= a < b < p.actions.len() && edges[(#[trigger] p.actions[a]).edge].session_id
                    == edges[(#[trigger] p.actions[b]).edge].session_id ==> !p.actions[b].wipe
            &&& forall|a: int|
                0 <= a < p.actions.len() && sessions.contains(
                    edges[(#[trigger] p.actions[a]).edge].session_id,
                ) ==> !p.actions[a].wipe
            &&& forall|a: int|
                0 <= a < p.actions.len() ==> p.sessions.contains(
                    edges[(#[trigger] p.actions[a]).edge].session_id,
                )
            &&& sessions.is_prefix_of(p.sessions)
        }),
{
    lemma_pass_ok(super::pass_start(sessions), c, words, edges);
}

/// A rationale was written by a session that, up to the edge's message, touched nothing
/// that taints.
pub open spec fn clean_so_far(e: EdgeV, groups: Seq<GroupV>, c: ContextV) -> bool {
    forall|j: int, k: int|
        0 <= j <= k < groups.len() && (#[trigger] groups[k]).session_id == e.session_id
            && groups[k].group_id == e.group_id && (#[trigger] groups[j]).session_id
            == e.session_id ==> clean(groups[j], c.ws, c.survey)
}

/// A row holds nothing that is not the domain's: the target is, repository and branch are
/// there only where the working directory is, and the rationale is the constant marker or
/// was written by a session that had stayed at home.
pub open spec fn domain_owns(r: RowV, e: EdgeV, groups: Seq<GroupV>, c: ContextV) -> bool {
    &&& visible_to(e.raw_abs_path, c.survey)
    &&& r.repo_path is Some || r.git_branch is Some ==> super::cwd_visible(e.cwd, c.survey)
    &&& r.rationale == super::WITHHELD_MARKER@ || (r.rationale == e.rationale && clean_so_far(
        e,
        groups,
        c,
    ))
    &&& search_text(r, e.file_path) == e.file_path || clean_so_far(e, groups, c)
}

/// The index of a domain holds only what is the domain's: whatever a pass over a transcript
/// stores, the domain owns.
pub proof fn law_a_domain_holds_only_its_own(
    sessions: Seq<Seq<char>>,
    c: ContextV,
    t: TranscriptV,
)
    requires
        c.domain,
    ensures
        ({
            let words = super::pass_admissions(c, t);
            let actions = with_edges(super::pass_start(sessions), c, words, t.edges).actions;
            forall|a: int|
                0 <= a < actions.len() && (#[trigger] actions[a]).row is Some ==> domain_owns(
                    actions[a].row->0,
                    t.edges[actions[a].edge],
                    t.groups,
                    c,
                )
        }),
{
    let words = super::pass_admissions(c, t);
    let p0 = super::pass_start(sessions);
    lemma_pass_ok(p0, c, words, t.edges);
    let actions = with_edges(p0, c, words, t.edges).actions;
    assert forall|a: int| 0 <= a < actions.len() && (
    #[trigger] actions[a]).row is Some implies domain_owns(
        actions[a].row->0,
        t.edges[actions[a].edge],
        t.groups,
        c,
    ) by {
        let e = t.edges[actions[a].edge];
        let r = actions[a].row->0;
        assert(actions[a].row == routed(e, true, c.survey, words));
        if r.searchable {
            law_kept_prose_is_of_a_clean_session(e, t.groups, c.ws, c.survey);
        }
    }
}

/// Without a domain nothing is held back: every edge in scope is stored as it is, and where
/// the scope is not the workspace every edge is in scope.
pub proof fn law_without_a_domain_edges_are_stored_whole(
    sessions: Seq<Seq<char>>,
    c: ContextV,
    t: TranscriptV,
)
    requires
        !c.domain,
    ensures
        ({
            let words = super::pass_admissions(c, t);
            let p = with_edges(super::pass_start(sessions), c, words, t.edges);
            &&& forall|a: int|
                0 <= a < p.actions.len() ==> (#[trigger] p.actions[a]).row == Some(
                    RowV {
                        repo_path: t.edges[p.actions[a].edge].repo_path,
                        git_branch: t.edges[p.actions[a].edge].git_branch,
                        rationale: t.edges[p.actions[a].edge].rationale,
                        searchable: true,
                    },
                )
            &&& p.foreign_domain == 0 && p.withheld == 0
            &&& !c.workspace_only ==> p.actions.len() == t.edges.len()
        }),
{
    let words = super::pass_admissions(c, t);
    lemma_pass_ok(super::pass_start(sessions), c, words, t.edges);
    lemma_unpartitioned(super::pass_start(sessions), c, words, t.edges);
}

proof fn lemma_unpartitioned(p0: PassV, c: ContextV, words: Seq<AdmissionV>, edges: Seq<EdgeV>)
    requires
        !c.domain,
        p0.actions.len() == 0,
        p0.foreign_domain == 0,
        p0.withheld == 0,
    ensures
        ({
            let p = with_edges(p0, c, words, edges);
            &&& p.foreign_domain == 0 && p.withheld == 0
            &&& !c.workspace_only ==> p.actions.len() == edges.len()
        }),
    decreases edges.len(),
{
    if edges.len() > 0 {
        lemma_unpartitioned(p0, c, words, edges.drop_last());
    }
}

} // verus!

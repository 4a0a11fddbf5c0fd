//! What holds of the decisions of a pass, stated of paths, groups and edges themselves.
use vstd::prelude::*;

use super::activity::earlier;
use super::binding::{
    bare_root, commit_path, counted_edge, follow_up, forward_slashes, has_room, innermost,
    law_innermost_root_is_the_longest, lookup_path, root_and_rel, root_contains, AfterV,
    EdgeOutcome,
};
use super::scope::{
    admission_of, admissions, admitted_at, clean, in_scope, in_workspace, neutral, place_of,
    taints_session, temp_paths, visible_to, AdmissionV, PlaceV, WorkspaceV,
};
use super::transcript::{slash, stored_path, EdgeV, GroupV};
use super::{
    placement, routed, search_text, transcript_name, ContextV, Placement, RowV, SessionIndexStats,
};
use crate::paths::{child_of, normalized, path_text, under, PathV};
use crate::text::{trim_end_by, trim_start_by};
use crate::text_laws::{
    cut_at_the_end, law_trimming_takes_off_the_longest_stretch,
};

verus! {

// ---- Stored paths ----------------------------------------------------------------------------

proof fn lemma_no_slash_at_the_end(s: Seq<char>)
    requires
        s.len() == 0 || s.last() != '/',
    ensures
        trim_end_by(s, slash()) == s,
{
}

/// A file below the working directory is stored by its path from there, slashes at the end
/// of the directory or not; a file anywhere else, in a sibling whose name merely goes on from
/// that of the directory too, is stored as it was written.
pub proof fn law_files_are_stored_relative_to_their_directory(
    dir: Seq<char>,
    rel: Seq<char>,
    abs: Seq<char>,
)
    requires
        dir.len() == 0 || dir.last() != '/',
        rel.len() > 0,
        rel[0] != '/',
        !(dir + seq!['/']).is_prefix_of(abs),
    ensures
        stored_path(dir + seq!['/'] + rel, Some(dir)) == rel,
        stored_path(dir + seq!['/'] + rel, Some(dir.push('/'))) == rel,
        stored_path(abs, Some(dir)) == abs,
        stored_path(abs, None) == abs,
{
    let full = dir + seq!['/'] + rel;
    let p = slash();
    lemma_no_slash_at_the_end(dir);
    assert(dir.push('/').drop_last() =~= dir);
    assert(trim_end_by(dir.push('/'), p) == dir);
    assert(dir =~= full.subrange(0, dir.len() as int));
    let rest = full.skip(dir.len() as int);
    assert(rest =~= seq!['/'] + rel);
    assert(rest.drop_first() =~= rel);
    assert(trim_start_by(rel, p) == rel);
    assert(trim_start_by(rest, p) == rel);
    if dir.is_prefix_of(abs) {
        let other = abs.skip(dir.len() as int);
        if other.len() > 0 && other[0] == '/' {
            assert(dir + seq!['/'] =~= abs.subrange(0, dir.len() as int + 1));
        }
        if other.len() == 0 {
            assert(trim_start_by(other, p).len() == 0);
        }
    }
}

// ---- In the workspace ------------------------------------------------------------------------

/// The path that a text is known to name: resolved as far as it exists where it was looked
/// up, else as it reads.
pub open spec fn resolved_path(raw: Seq<char>, survey: Seq<PlaceV>) -> PathV {
    match place_of(survey, raw) {
        Some(p) => p.resolved,
        None => normalized(raw)->0,
    }
}

/// The canonical path of a text, or the path as it reads where it does not exist.
pub open spec fn canonical_path(raw: Seq<char>, survey: Seq<PlaceV>) -> PathV {
    match place_of(survey, raw) {
        Some(p) => match p.canonical {
            Some(c) => c,
            None => normalized(raw)->0,
        },
        None => normalized(raw)->0,
    }
}

/// The text names a path from the root, and its dots can be resolved.
pub open spec fn placeable(raw: Seq<char>) -> bool {
    raw.len() > 0 && raw[0] == '/' && normalized(raw) is Some
}

/// What is in the workspace: what can be placed and lies under its root, as it is given or
/// resolved.
pub proof fn law_what_is_in_the_workspace(raw: Seq<char>, ws: WorkspaceV, survey: Seq<PlaceV>)
    ensures
        in_workspace(raw, ws, survey) <==> placeable(raw) && (under(
            resolved_path(raw, survey),
            ws.root,
        ) || under(resolved_path(raw, survey), ws.resolved)),
{
}

/// The entry of a text in a survey is the first of its name.
pub proof fn law_the_first_entry_of_a_survey_counts(survey: Seq<PlaceV>, raw: Seq<char>, k: int)
    requires
        0 <= k < survey.len(),
        survey[k].raw == raw,
        forall|j: int| 0 <= j < k ==> (#[trigger] survey[j]).raw != raw,
    ensures
        place_of(survey, raw) == Some(survey[k]),
    decreases k,
{
    if k > 0 {
        assert(survey[0].raw != raw);
        let rest = survey.drop_first();
        assert forall|j: int| 0 <= j < k - 1 implies (#[trigger] rest[j]).raw != raw by {
            assert(survey[j + 1].raw != raw);
        }
        law_the_first_entry_of_a_survey_counts(rest, raw, k - 1);
    }
}

/// A text that a survey does not have has no entry.
pub proof fn law_no_entry_for_an_unknown_text(survey: Seq<PlaceV>, raw: Seq<char>)
    requires
        forall|j: int| 0 <= j < survey.len() ==> (#[trigger] survey[j]).raw != raw,
    ensures
        place_of(survey, raw) is None,
    decreases survey.len(),
{
    if survey.len() > 0 {
        assert(survey[0].raw != raw);
        let rest = survey.drop_first();
        assert forall|j: int| 0 <= j < rest.len() implies (#[trigger] rest[j]).raw != raw by {
            assert(survey[j + 1].raw != raw);
        }
        law_no_entry_for_an_unknown_text(rest, raw);
    }
}

/// Inside the workspace a path is neutral only where it is a regular file directly in the
/// root; a directory, and anything further down, is not.
pub proof fn law_inside_the_workspace_only_loose_files_are_neutral(
    raw: Seq<char>,
    ws: WorkspaceV,
    survey: Seq<PlaceV>,
)
    requires
        placeable(raw),
        under(canonical_path(raw, survey), ws.root),
    ensures
        neutral(raw, ws, survey) <==> canonical_path(raw, survey).parts.len()
            == ws.root.parts.len() + 1 && place_of(survey, raw) is Some && place_of(
            survey,
            raw,
        )->0.is_file,
{
}

/// Outside the workspace everything in its own agent directory is neutral; in a directory for
/// temporary files so is what lies below a component named like the agent directory, and a
/// regular file directly in there; and nothing else is.
pub proof fn law_outside_the_workspace_little_is_neutral(
    raw: Seq<char>,
    ws: WorkspaceV,
    survey: Seq<PlaceV>,
)
    requires
        placeable(raw),
        !under(canonical_path(raw, survey), ws.root),
    ensures
        ({
            let p = canonical_path(raw, survey);
            let is_file = place_of(survey, raw) is Some && place_of(survey, raw)->0.is_file;
            &&& ws.slug is None ==> !neutral(raw, ws, survey)
            &&& ws.slug matches Some(slug) ==> {
                let own = under(p, slug.path) || (slug.canonical is Some && under(
                    p,
                    slug.canonical->0,
                ));
                let named = slug.path.parts.len() > 0 && slug.path.parts.last() != ".."@;
                let in_temp = exists|i: int|
                    0 <= i < ws.temps.len() && (under(p, (#[trigger] ws.temps[i]).path) || (
                    ws.temps[i].canonical is Some && under(p, ws.temps[i].canonical->0)));
                let loose = exists|i: int|
                    0 <= i < ws.temps.len() && (child_of(p, (#[trigger] ws.temps[i]).path) || (
                    ws.temps[i].canonical is Some && child_of(p, ws.temps[i].canonical->0)));
                neutral(raw, ws, survey) <==> own || (named && in_temp && (p.parts.contains(
                    slug.path.parts.last(),
                ) || (loose && is_file)))
            }
        }),
{
    let p = canonical_path(raw, survey);
    assert(super::scope::canonical_form(survey, raw, normalized(raw)->0) == p);
    if let Some(slug) = ws.slug {
        let in_temp = exists|i: int|
            0 <= i < ws.temps.len() && (under(p, (#[trigger] ws.temps[i]).path) || (
            ws.temps[i].canonical is Some && under(p, ws.temps[i].canonical->0)));
        let loose = exists|i: int|
            0 <= i < ws.temps.len() && (child_of(p, (#[trigger] ws.temps[i]).path) || (
            ws.temps[i].canonical is Some && child_of(p, ws.temps[i].canonical->0)));
        if in_temp {
            let i = choose|i: int|
                0 <= i < ws.temps.len() && (under(p, (#[trigger] ws.temps[i]).path) || (
                ws.temps[i].canonical is Some && under(p, ws.temps[i].canonical->0)));
            assert(super::scope::under_either(p, ws.temps[i].path, ws.temps[i].canonical));
            assert(super::scope::in_temp(p, ws.temps));
        }
        if super::scope::in_temp(p, ws.temps) {
            let i = choose|i: int|
                0 <= i < ws.temps.len() && super::scope::under_either(
                    p,
                    (#[trigger] ws.temps[i]).path,
                    ws.temps[i].canonical,
                );
            assert(under(p, ws.temps[i].path) || (ws.temps[i].canonical is Some && under(
                p,
                ws.temps[i].canonical->0,
            )));
        }
        if loose {
            let i = choose|i: int|
                0 <= i < ws.temps.len() && (child_of(p, (#[trigger] ws.temps[i]).path) || (
                ws.temps[i].canonical is Some && child_of(p, ws.temps[i].canonical->0)));
            assert(super::scope::child_of_either(p, ws.temps[i].path, ws.temps[i].canonical));
            assert(super::scope::loose_in_temp(p, ws.temps));
        }
        if super::scope::loose_in_temp(p, ws.temps) {
            let i = choose|i: int|
                0 <= i < ws.temps.len() && super::scope::child_of_either(
                    p,
                    (#[trigger] ws.temps[i]).path,
                    ws.temps[i].canonical,
                );
            assert(child_of(p, ws.temps[i].path) || (ws.temps[i].canonical is Some && child_of(
                p,
                ws.temps[i].canonical->0,
            )));
        }
    }
}

/// The usual directories for temporary files are known, and the one that the environment
/// names comes on top.
pub proof fn law_temporary_directories(tmpdir: Seq<char>)
    ensures
        temp_paths(None) == seq!["/tmp"@, "/private/tmp"@, "/var/folders"@],
        temp_paths(Some(tmpdir)) == temp_paths(None).push(tmpdir),
{
}

/// The index of a domain sees exactly what the domain claims and can be placed, and a path
/// taints exactly where it is neither seen nor neutral.
pub proof fn law_what_taints(raw: Seq<char>, ws: WorkspaceV, survey: Seq<PlaceV>)
    ensures
        visible_to(raw, survey) <==> placeable(raw) && place_of(survey, raw) is Some && place_of(
            survey,
            raw,
        )->0.included,
        taints_session(raw, ws, survey) <==> !visible_to(raw, survey) && !neutral(raw, ws, survey),
{
}

/// What a session may write into the workspace's index: what is in the workspace, what is
/// neutral, and what lies in the agent directory of its own working directory.
pub proof fn law_what_is_in_scope(
    raw: Seq<char>,
    ws: WorkspaceV,
    cwd: Option<Seq<char>>,
    survey: Seq<PlaceV>,
)
    ensures
        in_workspace(raw, ws, survey) ==> in_scope(raw, ws, cwd, survey),
        neutral(raw, ws, survey) ==> in_scope(raw, ws, cwd, survey),
        in_scope(raw, ws, None, survey) ==> in_workspace(raw, ws, survey) || neutral(
            raw,
            ws,
            survey,
        ),
        cwd is Some && place_of(survey, cwd->0) is Some && place_of(survey, cwd->0)->0.slug is Some
            ==> ({
            let slug = place_of(survey, cwd->0)->0.slug->0;
            in_scope(raw, ws, cwd, survey) <==> in_workspace(raw, ws, survey) || neutral(
                raw,
                ws,
                survey,
            ) || (placeable(raw) && (under(resolved_path(raw, survey), slug.path) || under(
                resolved_path(raw, survey),
                slug.resolved,
            )))
        }),
        cwd is Some && (place_of(survey, cwd->0) is None || place_of(survey, cwd->0)->0.slug
            is None) && in_scope(raw, ws, cwd, survey) ==> in_workspace(raw, ws, survey) || neutral(
            raw,
            ws,
            survey,
        ),
{
}

/// An edge is judged by its session first and by its target then, and only where the scope is
/// the workspace.
pub proof fn law_where_an_edge_stands(e: EdgeV, c: ContextV)
    ensures
        !c.workspace_only ==> placement(e, c) == Placement::InScope,
        c.workspace_only ==> {
            let home = e.cwd is Some && in_workspace(e.cwd->0, c.ws, c.survey);
            let target = in_scope(e.raw_abs_path, c.ws, e.cwd, c.survey);
            &&& !home <==> placement(e, c) == Placement::ForeignWorkspace
            &&& home && !target <==> placement(e, c) == Placement::ForeignTarget
            &&& home && target <==> placement(e, c) == Placement::InScope
        },
{
}

// ---- The ratchet -----------------------------------------------------------------------------

/// A path of a group taints.
pub open spec fn touched_foreign_ground(
    g: GroupV,
    ws: WorkspaceV,
    survey: Seq<PlaceV>,
) -> bool {
    exists|k: int| 0 <= k < g.paths.len() && taints_session(#[trigger] g.paths[k], ws, survey)
}

/// A group is admitted exactly where neither it nor an earlier group of its session touched
/// foreign ground.
pub proof fn law_the_ratchet(groups: Seq<GroupV>, i: int, ws: WorkspaceV, survey: Seq<PlaceV>)
    requires
        0 <= i < groups.len(),
    ensures
        admissions(groups, ws, survey).len() == groups.len(),
        admissions(groups, ws, survey)[i].session_id == groups[i].session_id,
        admissions(groups, ws, survey)[i].group_id == groups[i].group_id,
        admissions(groups, ws, survey)[i].admitted <==> forall|j: int|
            0 <= j <= i && (#[trigger] groups[j]).session_id == groups[i].session_id
                ==> !touched_foreign_ground(groups[j], ws, survey),
{
    assert(admissions(groups, ws, survey)[i].admitted == admitted_at(groups, i, ws, survey));
    assert forall|j: int| 0 <= j < groups.len() implies (clean(#[trigger] groups[j], ws, survey)
        <==> !touched_foreign_ground(groups[j], ws, survey)) by {
        let g = groups[j];
        if !clean(g, ws, survey) {
            let k = choose|k: int|
                0 <= k < g.paths.len() && taints_session(#[trigger] g.paths[k], ws, survey);
            assert(taints_session(g.paths[k], ws, survey));
        }
    }
}

proof fn lemma_last_word(v: Seq<AdmissionV>, session: Seq<char>, group: Seq<char>)
    requires
        forall|i: int|
            0 <= i < v.len() && (#[trigger] v[i]).session_id == session && v[i].group_id == group
                ==> v[i].admitted,
        exists|i: int|
            0 <= i < v.len() && (#[trigger] v[i]).session_id == session && v[i].group_id == group,
    ensures
        admission_of(v, session, group) == Some(true),
    decreases v.len(),
{
    let i = choose|i: int|
        0 <= i < v.len() && (#[trigger] v[i]).session_id == session && v[i].group_id == group;
    let last = v[v.len() - 1];
    if !(last.session_id == session && last.group_id == group) {
        let init = v.drop_last();
        assert(init[i] == v[i]);
        assert forall|k: int|
            0 <= k < init.len() && (#[trigger] init[k]).session_id == session && init[k].group_id
                == group implies init[k].admitted by {
            assert(init[k] == v[k]);
        }
        lemma_last_word(init, session, group);
    }
}

/// What is the domain's is kept: an edge whose target the domain sees is stored; where its
/// session touched no foreign ground its rationale is stored and searched; and where the
/// domain sees the working directory, repository and branch are stored too.
pub proof fn law_what_is_the_domains_is_kept(
    e: EdgeV,
    groups: Seq<GroupV>,
    ws: WorkspaceV,
    survey: Seq<PlaceV>,
)
    requires
        visible_to(e.raw_abs_path, survey),
        exists|g: int|
            0 <= g < groups.len() && (#[trigger] groups[g]).session_id == e.session_id
                && groups[g].group_id == e.group_id,
        forall|g: int|
            0 <= g < groups.len() && (#[trigger] groups[g]).session_id == e.session_id
                ==> !touched_foreign_ground(groups[g], ws, survey),
    ensures
        ({
            let row = routed(e, true, survey, admissions(groups, ws, survey));
            &&& row is Some
            &&& row->0.rationale == e.rationale
            &&& row->0.searchable
            &&& e.cwd is Some && visible_to(e.cwd->0, survey) ==> row->0.repo_path == e.repo_path
                && row->0.git_branch == e.git_branch
        }),
{
    let v = admissions(groups, ws, survey);
    assert forall|i: int|
        0 <= i < v.len() && (#[trigger] v[i]).session_id == e.session_id && v[i].group_id
            == e.group_id implies v[i].admitted by {
        law_the_ratchet(groups, i, ws, survey);
    }
    let g = choose|g: int|
        0 <= g < groups.len() && (#[trigger] groups[g]).session_id == e.session_id
            && groups[g].group_id == e.group_id;
    assert(v[g].session_id == e.session_id && v[g].group_id == e.group_id);
    lemma_last_word(v, e.session_id, e.group_id);
}

/// The searched text of a row: its rationale and its path with a space between, where the
/// rationale may be searched, and the path alone where it may not.
pub proof fn law_what_is_searched(row: RowV, path: Seq<char>)
    ensures
        row.searchable ==> search_text(row, path) == row.rationale.push(' ') + path,
        !row.searchable ==> search_text(row, path) == path,
{
    assert(row.rationale + seq![' '] + path =~= row.rationale.push(' ') + path);
}

// ---- Binding ---------------------------------------------------------------------------------

/// The repository of a file is one that contains it, at a component boundary; the path in it
/// is the rest; where some known root contains the file there is one; and no other root that
/// contains it is longer.
pub proof fn law_a_file_is_found_in_its_repository(
    roots: Seq<Seq<char>>,
    abs: Seq<char>,
    j: int,
    rel: Seq<char>,
)
    requires
        0 <= j < roots.len(),
        normalized(abs) is Some,
        bare_root(roots[j]).len() > 0,
        rel.len() > 0,
        forward_slashes(path_text(normalized(abs)->0)) == bare_root(roots[j]).push('/') + rel,
    ensures
        root_and_rel(roots, abs) matches Some((root, found)) && {
            &&& roots.contains(root)
            &&& found.len() > 0
            &&& bare_root(root).push('/') + found == bare_root(roots[j]).push('/') + rel
            &&& bare_root(root).len() >= bare_root(roots[j]).len()
        },
{
    let path = bare_root(roots[j]).push('/') + rel;
    assert(commit_path(abs) == Some(path));
    let r = bare_root(roots[j]);
    assert(r =~= path.subrange(0, r.len() as int));
    assert(root_contains(roots[j], path));
    law_innermost_root_is_the_longest(roots, path);
    let i = innermost(roots, path)->0;
    let b = bare_root(roots[i]);
    assert(b =~= path.subrange(0, b.len() as int));
    assert(b.push('/') + path.skip(b.len() as int + 1) =~= path);
    assert(roots.contains(roots[i]));
}

/// A file that no known root contains has no repository, and neither has one whose path
/// cannot be resolved.
pub proof fn law_a_file_outside_all_roots_has_no_repository(
    roots: Seq<Seq<char>>,
    abs: Seq<char>,
)
    requires
        normalized(abs) matches Some(p) ==> forall|j: int|
            0 <= j < roots.len() ==> !(bare_root(#[trigger] roots[j]).len() > 0 && bare_root(
                roots[j],
            ).push('/').is_prefix_of(forward_slashes(path_text(p)))),
    ensures
        root_and_rel(roots, abs) is None,
{
    if let Some(p) = normalized(abs) {
        let path = forward_slashes(path_text(p));
        law_innermost_root_is_the_longest(roots, path);
        if let Some(i) = innermost(roots, path) {
            let b = bare_root(roots[i]);
            assert(b.push('/') =~= path.subrange(0, b.len() as int + 1)) by {
                assert(b =~= path.subrange(0, b.len() as int));
                assert forall|k: int| 0 <= k < b.len() implies b[k] == path[k] by {
                    assert(path.subrange(0, b.len() as int)[k] == path[k]);
                }
            }
        }
    }
}

/// Only slashes are taken off the end of a root, and all of them.
pub proof fn law_roots_are_read_without_slashes_at_the_end(root: Seq<char>)
    ensures
        bare_root(root.push('/')) == bare_root(root),
        bare_root(root).len() > 0 ==> bare_root(root).last() != '/',
        root.len() > 0 && root.last() != '/' ==> bare_root(root) == root,
{
    assert(root.push('/').drop_last() =~= root);
    law_trimming_takes_off_the_longest_stretch(root, slash());
    let n = choose|n: int| cut_at_the_end(root, n, trim_end_by(root, slash()), slash());
    if n > 0 {
        assert(!slash()(root[n - 1]));
    }
}

/// Backslashes become slashes, and every other character stays.
pub proof fn law_backslashes_become_slashes(s: Seq<char>, k: int)
    requires
        0 <= k < s.len(),
    ensures
        forward_slashes(s).len() == s.len(),
        s[k] == '\\' ==> forward_slashes(s)[k] == '/',
        s[k] != '\\' ==> forward_slashes(s)[k] == s[k],
{
}

/// The commit of an edit is looked up by the path that the call gave, where that is absolute;
/// else by the stored path below the working directory; and not at all where there is none.
pub proof fn law_the_path_that_is_looked_up(e: EdgeV)
    ensures
        e.raw_abs_path.len() > 0 && e.raw_abs_path[0] == '/' ==> lookup_path(e) == Some(
            e.raw_abs_path,
        ),
        (e.raw_abs_path.len() == 0 || e.raw_abs_path[0] != '/') && e.cwd is None ==> lookup_path(
            e,
        ) is None,
        (e.raw_abs_path.len() == 0 || e.raw_abs_path[0] != '/') && e.cwd is Some ==> lookup_path(
            e,
        ) == Some(bare_root(e.cwd->0).push('/') + e.file_path),
{
    if let Some(c) = e.cwd {
        assert(trim_end_by(c, slash()) + seq!['/'] + e.file_path =~= bare_root(c).push('/')
            + e.file_path);
    }
}

/// A new row is searched for by its text; a row that was there is offered the commit, if one
/// was found, and nothing else.
pub proof fn law_what_follows_an_insertion(e: EdgeV, row: RowV, commit: Option<i64>)
    ensures
        follow_up(e, row, true, commit) == AfterV::IndexBody(search_text(row, e.file_path)),
        commit matches Some(id) ==> follow_up(e, row, false, commit) == AfterV::LateBind(id),
        commit is None ==> follow_up(e, row, false, commit) is Nothing,
{
}

/// Every counter counts what its name says, and no other changes.
pub proof fn law_counters_count_what_they_say(s: SessionIndexStats, tool: Seq<char>)
    requires
        has_room(s),
    ensures
        counted_edge(s, tool, EdgeOutcome::SkippedNoUuid) == (SessionIndexStats {
            edges_skipped_no_uuid: (s.edges_skipped_no_uuid + 1) as usize,
            ..s
        }),
        counted_edge(s, tool, EdgeOutcome::Duplicate { late_bound: false }) == (SessionIndexStats {
            edges_duplicate: (s.edges_duplicate + 1) as usize,
            ..s
        }),
        counted_edge(s, tool, EdgeOutcome::Duplicate { late_bound: true }) == (SessionIndexStats {
            edges_duplicate: (s.edges_duplicate + 1) as usize,
            edges_late_bound: (s.edges_late_bound + 1) as usize,
            ..s
        }),
        tool == "Edit"@ ==> counted_edge(s, tool, EdgeOutcome::Stored { bound: true }) == (
        SessionIndexStats {
            edges_indexed: (s.edges_indexed + 1) as usize,
            commit_bound: (s.commit_bound + 1) as usize,
            edits: (s.edits + 1) as usize,
            ..s
        }),
        tool == "Write"@ ==> counted_edge(s, tool, EdgeOutcome::Stored { bound: false }) == (
        SessionIndexStats {
            edges_indexed: (s.edges_indexed + 1) as usize,
            commit_unbound: (s.commit_unbound + 1) as usize,
            writes: (s.writes + 1) as usize,
            ..s
        }),
{
    reveal_strlit("Edit");
    reveal_strlit("Write");
    assert("Edit"@.len() != "Write"@.len());
}

// ---- Tallies ---------------------------------------------------------------------------------

/// The earlier of two times is the smaller, where a time of 0 is none.
pub proof fn law_the_earlier_time(a: i64, b: i64)
    ensures
        a == 0 ==> earlier(a, b) == b,
        b == 0 ==> earlier(a, b) == a,
        a != 0 && b != 0 ==> earlier(a, b) <= a && earlier(a, b) <= b && (earlier(a, b) == a
            || earlier(a, b) == b),
{
}

/// A name is that of a transcript exactly where something stands before `.jsonl` at its end.
pub proof fn law_transcripts_end_in_jsonl(stem: Seq<char>, name: Seq<char>)
    ensures
        stem.len() > 0 ==> transcript_name(stem + ".jsonl"@),
        transcript_name(name) ==> name.len() > 6 && name.skip(name.len() - 6) == ".jsonl"@,
        !transcript_name(".jsonl"@),
{
    reveal_strlit(".jsonl");
    let full = stem + ".jsonl"@;
    assert(".jsonl"@.len() == 6);
    assert(full.skip(full.len() - 6) =~= ".jsonl"@);
}

/// The latest word on a group of a session counts; words on other groups and other sessions do
/// not; and without a word there is none.
pub proof fn law_the_latest_word_counts(
    v: Seq<AdmissionV>,
    session: Seq<char>,
    group: Seq<char>,
    w: AdmissionV,
)
    ensures
        admission_of(Seq::<AdmissionV>::empty(), session, group) is None,
        w.session_id == session && w.group_id == group ==> admission_of(v.push(w), session, group)
            == Some(w.admitted),
        w.session_id != session || w.group_id != group ==> admission_of(v.push(w), session, group)
            == admission_of(v, session, group),
{
    assert(v.push(w).drop_last() =~= v);
}

/// How an edge is stored. Without domains it is stored whole. For a domain it is stored exactly
/// where the domain claims its file; with its repository and branch exactly where the domain
/// claims its working directory too; and with its rationale, to be searched, exactly where its
/// group was let in, a fixed text standing in its place otherwise.
pub proof fn law_how_an_edge_is_stored(e: EdgeV, survey: Seq<PlaceV>, words: Seq<AdmissionV>)
    ensures
        routed(e, false, survey, words) == Some(
            RowV {
                repo_path: e.repo_path,
                git_branch: e.git_branch,
                rationale: e.rationale,
                searchable: true,
            },
        ),
        ({
            let row = routed(e, true, survey, words);
            let home = e.cwd is Some && visible_to(e.cwd->0, survey);
            let let_in = admission_of(words, e.session_id, e.group_id) == Some(true);
            &&& row is Some <==> visible_to(e.raw_abs_path, survey)
            &&& row is Some && home ==> row->0.repo_path == e.repo_path && row->0.git_branch
                == e.git_branch
            &&& row is Some && !home ==> row->0.repo_path is None && row->0.git_branch is None
            &&& row is Some ==> (row->0.searchable <==> let_in)
            &&& row is Some && let_in ==> row->0.rationale == e.rationale
            &&& row is Some && !let_in ==> row->0.rationale
                == "[rationale withheld: cross-domain session]"@
        }),
{
}

/// However many slashes stand at the end of the directory and before the rest, a file below the
/// directory is stored by the rest; and the directory itself is stored as it was written.
pub proof fn law_repeated_slashes_do_not_count(
    dir: Seq<char>,
    ending: Seq<char>,
    between: Seq<char>,
    rel: Seq<char>,
)
    requires
        dir.len() == 0 || dir.last() != '/',
        forall|i: int| 0 <= i < ending.len() ==> #[trigger] ending[i] == '/',
        forall|i: int| 0 <= i < between.len() ==> #[trigger] between[i] == '/',
        between.len() > 0,
        rel.len() > 0,
        rel[0] != '/',
    ensures
        stored_path(dir + between + rel, Some(dir + ending)) == rel,
        stored_path(dir + between, Some(dir + ending)) == dir + between,
        stored_path(dir, Some(dir + ending)) == dir,
{
    let p = slash();
    lemma_slashes_at_the_end(dir, ending);
    let cwd = dir + ending;
    let full = dir + between + rel;
    assert(dir =~= full.subrange(0, dir.len() as int));
    let rest = full.skip(dir.len() as int);
    assert(rest =~= between + rel);
    lemma_slashes_in_front(between, rel);
    assert(rest[0] == between[0]);
    let bare = dir + between;
    assert(bare.skip(dir.len() as int) =~= between);
    lemma_slashes_in_front(between, Seq::empty());
    assert(between + Seq::<char>::empty() =~= between);
    assert(dir.skip(dir.len() as int) =~= Seq::<char>::empty());
    assert(trim_start_by(Seq::<char>::empty(), p).len() == 0);
}

proof fn lemma_slashes_at_the_end(dir: Seq<char>, ending: Seq<char>)
    requires
        dir.len() == 0 || dir.last() != '/',
        forall|i: int| 0 <= i < ending.len() ==> #[trigger] ending[i] == '/',
    ensures
        trim_end_by(dir + ending, slash()) == dir,
    decreases ending.len(),
{
    if ending.len() == 0 {
        assert(dir + ending =~= dir);
    } else {
        let init = ending.drop_last();
        assert((dir + ending).drop_last() =~= dir + init);
        assert((dir + ending).last() == ending[ending.len() - 1]);
        assert forall|i: int| 0 <= i < init.len() implies #[trigger] init[i] == '/' by {
            assert(ending[i] == '/');
        }
        lemma_slashes_at_the_end(dir, init);
    }
}

proof fn lemma_slashes_in_front(front: Seq<char>, rest: Seq<char>)
    requires
        rest.len() == 0 || rest[0] != '/',
        forall|i: int| 0 <= i < front.len() ==> #[trigger] front[i] == '/',
    ensures
        trim_start_by(front + rest, slash()) == rest,
    decreases front.len(),
{
    if front.len() == 0 {
        assert(front + rest =~= rest);
    } else {
        let tail = front.drop_first();
        assert((front + rest)[0] == front[0]);
        assert((front + rest).drop_first() =~= tail + rest);
        assert forall|i: int| 0 <= i < tail.len() implies #[trigger] tail[i] == '/' by {
            assert(front[i + 1] == '/');
        }
        lemma_slashes_in_front(tail, rest);
    }
}

/// A stored edge counts as bound exactly where its commit was found, as an edit or a write by
/// its tool, and as indexed in any case.
pub proof fn law_stored_edges_are_counted(s: SessionIndexStats, tool: Seq<char>, bound: bool)
    requires
        has_room(s),
    ensures
        ({
            let t = counted_edge(s, tool, EdgeOutcome::Stored { bound });
            &&& t.edges_indexed == s.edges_indexed + 1
            &&& t.commit_bound == s.commit_bound + if bound {
                1int
            } else {
                0
            }
            &&& t.commit_unbound == s.commit_unbound + if bound {
                0int
            } else {
                1
            }
            &&& t.edits == s.edits + if tool == "Edit"@ {
                1int
            } else {
                0
            }
            &&& t.writes == s.writes + if tool == "Write"@ {
                1int
            } else {
                0
            }
            &&& t == (SessionIndexStats {
                edges_indexed: t.edges_indexed,
                commit_bound: t.commit_bound,
                commit_unbound: t.commit_unbound,
                edits: t.edits,
                writes: t.writes,
                ..s
            })
        }),
{
}

} // verus!

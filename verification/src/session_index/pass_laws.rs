//! What a pass does with one edge, with one tally and with its store, and what the types of
//! the index hold.
use vstd::prelude::*;

use super::activity::{
    counted_total, lemma_session_index, scoped, session_index, tally_total,
    law_scoped_tallies_have_distinct_sessions, SessionTally, TallyV,
};
use super::binding::{AfterInsert, AfterV, EdgeOutcome};
use super::scope::{
    admissions, in_workspace, visible_to, Admission, Place, SlugDir, Survey, TempRoot, Workspace,
};
use super::store::{key_of, offered, tallied, without_session, StoreV, StoredV};
use super::transcript::{
    ActivityV, EdgeV, GroupTaint, SessionActivity, SessionEdge, TranscriptParse, TranscriptV,
};
use super::{
    pass_admissions, pass_start, placement, routed, search_text, with_edges, ContextV, EdgeAction,
    EdgeRow, PassContext, Placement, RowV,
};
use super::scope::AdmissionV;
use crate::paths::{LexPath, PathV};

verus! {

// ---- A pass over one transcript ------------------------------------------------------------

/// A pass over a transcript begins with the sessions that it is given and has decided nothing
/// and counted nothing.
pub proof fn law_a_pass_begins_with_nothing(
    sessions: Seq<Seq<char>>,
    c: ContextV,
    words: Seq<AdmissionV>,
)
    ensures
        ({
            let p = with_edges(pass_start(sessions), c, words, Seq::<EdgeV>::empty());
            &&& p.sessions == sessions
            &&& p.actions.len() == 0
            &&& p.foreign_workspace == 0
            &&& p.foreign_target == 0
            &&& p.foreign_domain == 0
            &&& p.withheld == 0
        }),
{
}

/// What one edge more does to a pass. An edge out of scope is counted as what it is and does
/// nothing else. An edge in scope gets its action: its session is dropped first exactly where
/// the pass rebuilds and has not seen the session; the edge is stored as it is routed; and it
/// is counted where it is stored nowhere, and where its rationale is withheld.
pub proof fn law_what_one_edge_does(
    sessions: Seq<Seq<char>>,
    c: ContextV,
    words: Seq<AdmissionV>,
    edges: Seq<EdgeV>,
    e: EdgeV,
)
    ensures
        ({
            let p = with_edges(pass_start(sessions), c, words, edges);
            let q = with_edges(pass_start(sessions), c, words, edges.push(e));
            let place = placement(e, c);
            let row = routed(e, c.domain, c.survey, words);
            let seen = p.sessions.contains(e.session_id);
            &&& q.foreign_workspace == p.foreign_workspace + if place
                == Placement::ForeignWorkspace {
                1nat
            } else {
                0
            }
            &&& q.foreign_target == p.foreign_target + if place == Placement::ForeignTarget {
                1nat
            } else {
                0
            }
            &&& place != Placement::InScope ==> q.sessions == p.sessions && q.actions == p.actions
                && q.foreign_domain == p.foreign_domain && q.withheld == p.withheld
            &&& place == Placement::InScope ==> {
                &&& q.actions.len() == p.actions.len() + 1
                &&& q.actions.drop_last() == p.actions
                &&& q.actions.last().edge == edges.len()
                &&& q.actions.last().wipe <==> c.rebuild && !seen
                &&& q.actions.last().row == row
                &&& seen ==> q.sessions == p.sessions
                &&& !seen ==> q.sessions == p.sessions.push(e.session_id)
                &&& q.foreign_domain == p.foreign_domain + if row is None {
                    1nat
                } else {
                    0
                }
                &&& q.withheld == p.withheld + if row is Some && !row->0.searchable {
                    1nat
                } else {
                    0
                }
            }
        }),
{
    assert(edges.push(e).drop_last() =~= edges);
    let p = with_edges(pass_start(sessions), c, words, edges);
    let q = with_edges(pass_start(sessions), c, words, edges.push(e));
    if placement(e, c) == Placement::InScope {
        assert(q.actions.drop_last() =~= p.actions);
    }
}

/// The ratchet speaks only where a domain is written.
pub proof fn law_whose_words_count(c: ContextV, t: TranscriptV)
    ensures
        c.domain ==> pass_admissions(c, t) == admissions(t.groups, c.ws, c.survey),
        !c.domain ==> pass_admissions(c, t).len() == 0,
{
}

// ---- Tallies -------------------------------------------------------------------------------

/// What one tally more adds. It counts exactly where its working directory is in the workspace,
/// where only that is in scope, and is the domain's, where one is written. Where it counts, its
/// calls are added to the tally of its session, the earlier time staying, or begin one; every
/// other tally stays.
pub proof fn law_what_one_tally_adds(v: Seq<ActivityV>, a: ActivityV, c: ContextV, i: int)
    ensures
        ({
            let s = scoped(v, c);
            let t = scoped(v.push(a), c);
            let home = a.cwd is Some && in_workspace(a.cwd->0, c.ws, c.survey);
            let own = a.cwd is Some && visible_to(a.cwd->0, c.survey);
            let counted = (c.workspace_only ==> home) && (c.domain ==> own);
            let known = exists|k: int|
                0 <= k < s.len() && (#[trigger] s[k]).session_id == a.session_id;
            &&& scoped(Seq::<ActivityV>::empty(), c).len() == 0
            &&& !counted ==> t == s
            &&& counted && !known ==> t.len() == s.len() + 1 && t.drop_last() == s
                && t.last().session_id == a.session_id && t.last().first_seen == a.first_seen
                && t.last().retrieval_calls == a.retrieval_calls && t.last().nibdex_calls
                == a.nibdex_calls
            &&& counted && known ==> t.len() == s.len()
            &&& counted && 0 <= i < s.len() && s[i].session_id != a.session_id ==> t[i] == s[i]
            &&& counted && 0 <= i < s.len() && s[i].session_id == a.session_id ==> {
                &&& t[i].session_id == a.session_id
                &&& t[i].retrieval_calls == s[i].retrieval_calls + a.retrieval_calls
                &&& t[i].nibdex_calls == s[i].nibdex_calls + a.nibdex_calls
                &&& s[i].first_seen == 0 ==> t[i].first_seen == a.first_seen
                &&& a.first_seen == 0 ==> t[i].first_seen == s[i].first_seen
                &&& s[i].first_seen != 0 && a.first_seen != 0 ==> t[i].first_seen
                    <= s[i].first_seen && t[i].first_seen <= a.first_seen && (t[i].first_seen
                    == s[i].first_seen || t[i].first_seen == a.first_seen)
            }
        }),
{
    assert(v.push(a).drop_last() =~= v);
    let s = scoped(v, c);
    let t = scoped(v.push(a), c);
    lemma_session_index(s, a.session_id);
    law_scoped_tallies_have_distinct_sessions(v, c);
    if session_index(s, a.session_id) is None {
        if t.len() == s.len() + 1 {
            assert(t.drop_last() =~= s);
        }
    } else {
        let k = session_index(s, a.session_id)->0;
        assert(s[k].session_id == a.session_id);
        if 0 <= i < s.len() && s[i].session_id == a.session_id {
            if i < k {
                assert(s[i].session_id != s[k].session_id);
            } else if k < i {
                assert(s[k].session_id != s[i].session_id);
            }
            assert(i == k);
        }
    }
}

/// The totals add up both kinds of calls, of every tally and of every tally that counts.
pub proof fn law_totals_of_tallies(v: Seq<TallyV>, t: TallyV, w: Seq<ActivityV>, a: ActivityV, c: ContextV)
    ensures
        tally_total(Seq::<TallyV>::empty()) == 0,
        tally_total(v.push(t)) == tally_total(v) + t.retrieval_calls + t.nibdex_calls,
        counted_total(Seq::<ActivityV>::empty(), c) == 0,
        !c.workspace_only && !c.domain ==> counted_total(w.push(a), c) == counted_total(w, c)
            + a.retrieval_calls + a.nibdex_calls,
{
    assert(v.push(t).drop_last() =~= v);
    assert(w.push(a).drop_last() =~= w);
}

// ---- The store -----------------------------------------------------------------------------

/// What becomes of an edge that is offered to the store. An edge without a message is skipped.
/// A new edge is stored under its message and number, with its row, its commit and its searched
/// text. An edge that is there gets a commit where it had none and one was found, and stays as
/// it is otherwise.
pub proof fn law_what_becomes_of_an_edge(
    s: StoreV,
    e: EdgeV,
    row: RowV,
    commit_id: Option<i64>,
    other: (Seq<char>, int),
)
    ensures
        ({
            let (t, outcome) = offered(s, e, row, commit_id);
            let key = (e.message_uuid, e.edge_ordinal);
            let there = s.edges.contains_key(key);
            let late = there && commit_id is Some && s.edges[key].commit_id is None;
            &&& key_of(e) == key
            &&& t.tallies == s.tallies
            &&& e.message_uuid.len() == 0 ==> t == s && outcome == EdgeOutcome::SkippedNoUuid
            &&& e.message_uuid.len() > 0 ==> {
                &&& t.edges.contains_key(key)
                &&& other != key ==> (t.edges.contains_key(other) <==> s.edges.contains_key(other))
                    && t.edges[other] == s.edges[other] && (t.texts.contains_key(other)
                    <==> s.texts.contains_key(other)) && t.texts[other] == s.texts[other]
                &&& !there ==> t.edges[key] == (StoredV { edge: e, row, commit_id })
                    && t.texts.contains_key(key) && t.texts[key] == search_text(row, e.file_path)
                    && outcome == (EdgeOutcome::Stored { bound: commit_id is Some })
                &&& late ==> t.edges[key] == (StoredV {
                    edge: s.edges[key].edge,
                    row: s.edges[key].row,
                    commit_id,
                }) && t.texts == s.texts && outcome == (EdgeOutcome::Duplicate { late_bound: true })
                &&& there && !late ==> t == s && outcome == (EdgeOutcome::Duplicate {
                    late_bound: false,
                })
            }
        }),
{
}

/// Dropping a session takes out its edges with their texts, and nothing else.
pub proof fn law_dropping_a_session(s: StoreV, session: Seq<char>, key: (Seq<char>, int))
    ensures
        ({
            let t = without_session(s, session);
            let stays = s.edges.contains_key(key) && s.edges[key].edge.session_id != session;
            &&& t.tallies == s.tallies
            &&& t.edges.contains_key(key) <==> stays
            &&& stays ==> t.edges[key] == s.edges[key]
            &&& t.texts.contains_key(key) <==> stays && s.texts.contains_key(key)
            &&& stays && s.texts.contains_key(key) ==> t.texts[key] == s.texts[key]
        }),
{
}

/// A tally is stored under its session; where there is one, the earlier time and the larger
/// counts stay. Nothing else changes.
pub proof fn law_stored_tallies(s: StoreV, v: Seq<TallyV>, t: TallyV, other: Seq<char>)
    ensures
        ({
            let a = tallied(s, v);
            let b = tallied(s, v.push(t));
            let old = a.tallies[t.session_id];
            let new = b.tallies[t.session_id];
            &&& tallied(s, Seq::<TallyV>::empty()) == s
            &&& b.edges == a.edges && b.texts == a.texts
            &&& b.tallies.contains_key(t.session_id)
            &&& other != t.session_id ==> (b.tallies.contains_key(other)
                <==> a.tallies.contains_key(other)) && b.tallies[other] == a.tallies[other]
            &&& !a.tallies.contains_key(t.session_id) ==> new == t
            &&& a.tallies.contains_key(t.session_id) ==> {
                &&& new.session_id == old.session_id
                &&& new.first_seen <= old.first_seen && new.first_seen <= t.first_seen
                &&& new.first_seen == old.first_seen || new.first_seen == t.first_seen
                &&& new.retrieval_calls >= old.retrieval_calls && new.retrieval_calls
                    >= t.retrieval_calls
                &&& new.retrieval_calls == old.retrieval_calls || new.retrieval_calls
                    == t.retrieval_calls
                &&& new.nibdex_calls >= old.nibdex_calls && new.nibdex_calls >= t.nibdex_calls
                &&& new.nibdex_calls == old.nibdex_calls || new.nibdex_calls == t.nibdex_calls
            }
        }),
{
    assert(v.push(t).drop_last() =~= v);
}

// ---- What the types hold -------------------------------------------------------------------

/// The view of an optional text is that of its text.
pub open spec fn same_text(o: Option<String>, v: Option<Seq<char>>) -> bool {
    &&& o is Some <==> v is Some
    &&& o is Some ==> o->0@ == v->0
}

/// The view of an optional path is that of its path.
pub open spec fn same_path(o: Option<LexPath>, v: Option<PathV>) -> bool {
    &&& o is Some <==> v is Some
    &&& o is Some ==> o->0@ == v->0
}

/// An edge is seen as it is.
pub proof fn law_edges_are_seen_as_they_are(e: SessionEdge)
    ensures
        e@.session_id == e.session_id@,
        e@.message_uuid == e.message_uuid@,
        e@.edge_ordinal == e.edge_ordinal,
        e@.tool == e.tool@,
        e@.file_path == e.file_path@,
        same_text(e.repo_path, e@.repo_path),
        same_text(e.git_branch, e@.git_branch),
        e@.edited_at == e.edited_at,
        e@.rationale == e.rationale@,
        e@.raw_abs_path == e.raw_abs_path@,
        same_text(e.cwd, e@.cwd),
        e@.group_id == e.group_id@,
{
}

/// A parse and its parts are seen as they are.
pub proof fn law_parses_are_seen_as_they_are(
    p: TranscriptParse,
    g: GroupTaint,
    a: SessionActivity,
    i: int,
)
    ensures
        p@.edges.len() == p.edges@.len(),
        0 <= i < p.edges@.len() ==> p@.edges[i] == p.edges@[i]@,
        p@.groups.len() == p.groups@.len(),
        0 <= i < p.groups@.len() ==> p@.groups[i] == p.groups@[i]@,
        p@.activity.len() == p.activity@.len(),
        0 <= i < p.activity@.len() ==> p@.activity[i] == p.activity@[i]@,
        p@.last_text == p.last_text@,
        p@.last_session == p.last_session@,
        same_text(p.last_cwd, p@.last_cwd),
        p@.lines_total == p.lines_total,
        p@.lines_parse_err == p.lines_parse_err,
        p@.undated == p.undated,
        g@.session_id == g.session_id@,
        g@.group_id == g.group_id@,
        g@.paths.len() == g.paths@.len(),
        0 <= i < g.paths@.len() ==> g@.paths[i] == g.paths@[i]@,
        a@.session_id == a.session_id@,
        same_text(a.cwd, a@.cwd),
        a@.first_seen == a.first_seen,
        a@.retrieval_calls == a.retrieval_calls,
        a@.nibdex_calls == a.nibdex_calls,
{
}

/// What is known of the surroundings is seen as it is.
pub proof fn law_surroundings_are_seen_as_they_are(
    d: SlugDir,
    t: TempRoot,
    w: Workspace,
    p: Place,
    s: Survey,
    path: LexPath,
    i: int,
)
    ensures
        d@.path == d.path@ && d@.resolved == d.resolved@,
        same_path(d.canonical, d@.canonical),
        t@.path == t.path@,
        same_path(t.canonical, t@.canonical),
        w@.root == w.root@ && w@.resolved == w.resolved@,
        w@.slug is Some <==> w.slug is Some,
        w.slug is Some ==> w@.slug->0 == w.slug->0@,
        w@.temps.len() == w.temps@.len(),
        0 <= i < w.temps@.len() ==> w@.temps[i] == w.temps@[i]@,
        p@.raw == p.raw@ && p@.resolved == p.resolved@,
        same_path(p.canonical, p@.canonical),
        p@.is_file == p.is_file && p@.included == p.included,
        p@.slug is Some <==> p.slug is Some,
        p.slug is Some ==> p@.slug->0 == p.slug->0@,
        s@.len() == s.places@.len(),
        0 <= i < s.places@.len() ==> s@[i] == s.places@[i]@,
        path@.absolute == path.absolute,
        path@.parts.len() == path.parts@.len(),
        0 <= i < path.parts@.len() ==> path@.parts[i] == path.parts@[i]@,
{
}

/// What a pass decides is seen as it is, and only the scope of the workspace filters.
pub proof fn law_passes_are_seen_as_they_are(
    c: PassContext,
    a: EdgeAction,
    r: EdgeRow,
    t: SessionTally,
    w: Admission,
    after: AfterInsert,
)
    ensures
        c@.workspace_only <==> c.scope is Workspace,
        c@.rebuild == c.rebuild,
        c@.domain == c.domain,
        c@.ws == c.workspace@,
        c@.survey == c.survey@,
        a@.edge == a.edge,
        a@.wipe == a.wipe,
        a@.row is Some <==> a.row is Some,
        a.row is Some ==> a@.row->0 == a.row->0@,
        same_text(r.repo_path, r@.repo_path),
        same_text(r.git_branch, r@.git_branch),
        r@.rationale == r.rationale@,
        r@.searchable == r.searchable,
        t@.session_id == t.session_id@,
        t@.first_seen == t.first_seen,
        t@.retrieval_calls == t.retrieval_calls,
        t@.nibdex_calls == t.nibdex_calls,
        w@.session_id == w.session_id@,
        w@.group_id == w.group_id@,
        w@.admitted == w.admitted,
        after matches AfterInsert::IndexBody(body) ==> after@ == AfterV::IndexBody(body@),
        after matches AfterInsert::LateBind(id) ==> after@ == AfterV::LateBind(id),
        after is Nothing ==> after@ is Nothing,
{
}

} // verus!

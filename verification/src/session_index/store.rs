//! What passes leave behind: the stored edges, their searched texts and the tallies, as the
//! keyed tables that they are. An edge that is there already is not stored again, and a
//! tally is merged into the one that is there.
use vstd::prelude::*;

use super::activity::{scoped, TallyV};
use super::binding::{counted_edge, follow_up, AfterV, EdgeOutcome};
use super::laws::lemma_pass_ok;
use super::transcript::{EdgeV, TranscriptV};
use super::{
    pass_admissions, pass_start, placement, routed, with_edges, ActionV, ContextV, Placement, RowV,
    SessionIndexStats,
};

verus! {

/// A stored edge.
pub struct StoredV {
    pub edge: EdgeV,
    pub row: RowV,
    pub commit_id: Option<i64>,
}

/// The key of an edge: its message and its number there.
pub open spec fn key_of(e: EdgeV) -> (Seq<char>, int) {
    (e.message_uuid, e.edge_ordinal)
}

/// Everything that passes store.
pub struct StoreV {
    pub edges: Map<(Seq<char>, int), StoredV>,
    pub texts: Map<(Seq<char>, int), Seq<char>>,
    pub tallies: Map<Seq<char>, TallyV>,
}

/// A store with what became of the edges that were offered to it.
pub struct ProgressV {
    pub store: StoreV,
    pub outcomes: Seq<EdgeOutcome>,
}

/// The store after an edge was offered, with the commit that was found for it, and what
/// became of the edge.
pub open spec fn offered(
    s: StoreV,
    e: EdgeV,
    row: RowV,
    commit_id: Option<i64>,
) -> (StoreV, EdgeOutcome) {
    let key = key_of(e);
    if e.message_uuid.len() == 0 {
        (s, EdgeOutcome::SkippedNoUuid)
    } else {
        match follow_up(e, row, !s.edges.contains_key(key), commit_id) {
            AfterV::IndexBody(text) => (
                StoreV {
                    edges: s.edges.insert(key, StoredV { edge: e, row, commit_id }),
                    texts: s.texts.insert(key, text),
                    ..s
                },
                EdgeOutcome::Stored { bound: commit_id is Some },
            ),
            AfterV::LateBind(id) => if s.edges[key].commit_id is None {
                (
                    StoreV {
                        edges: s.edges.insert(
                            key,
                            StoredV { commit_id: Some(id), ..s.edges[key] },
                        ),
                        ..s
                    },
                    EdgeOutcome::Duplicate { late_bound: true },
                )
            } else {
                (s, EdgeOutcome::Duplicate { late_bound: false })
            },
            AfterV::Nothing => (s, EdgeOutcome::Duplicate { late_bound: false }),
        }
    }
}

/// The store without what it holds of a session.
pub open spec fn without_session(s: StoreV, session_id: Seq<char>) -> StoreV {
    let kept = s.edges.dom().filter(
        |k: (Seq<char>, int)| s.edges[k].edge.session_id != session_id,
    );
    StoreV { edges: s.edges.restrict(kept), texts: s.texts.restrict(kept), ..s }
}

/// After one action. `found` is the commit that is found for an edge.
pub open spec fn acted(
    p: ProgressV,
    a: ActionV,
    e: EdgeV,
    found: spec_fn(EdgeV) -> Option<i64>,
) -> ProgressV {
    let s = if a.wipe {
        without_session(p.store, e.session_id)
    } else {
        p.store
    };
    match a.row {
        Some(row) => {
            let (store, outcome) = offered(s, e, row, found(e));
            ProgressV { store, outcomes: p.outcomes.push(outcome) }
        },
        None => ProgressV { store: s, ..p },
    }
}

/// After the actions of one transcript, in order.
pub open spec fn acted_all(
    p: ProgressV,
    actions: Seq<ActionV>,
    edges: Seq<EdgeV>,
    found: spec_fn(EdgeV) -> Option<i64>,
) -> ProgressV
    decreases actions.len(),
{
    if actions.len() == 0 {
        p
    } else {
        acted(
            acted_all(p, actions.drop_last(), edges, found),
            actions.last(),
            edges[actions.last().edge],
            found,
        )
    }
}

/// Two tallies of a session: the earlier time and the larger counts.
pub open spec fn joined_tally(old: TallyV, t: TallyV) -> TallyV {
    TallyV {
        first_seen: if t.first_seen < old.first_seen {
            t.first_seen
        } else {
            old.first_seen
        },
        retrieval_calls: if t.retrieval_calls > old.retrieval_calls {
            t.retrieval_calls
        } else {
            old.retrieval_calls
        },
        nibdex_calls: if t.nibdex_calls > old.nibdex_calls {
            t.nibdex_calls
        } else {
            old.nibdex_calls
        },
        ..old
    }
}

/// After the tallies of one transcript.
pub open spec fn tallied(s: StoreV, tallies: Seq<TallyV>) -> StoreV
    decreases tallies.len(),
{
    if tallies.len() == 0 {
        s
    } else {
        let before = tallied(s, tallies.drop_last());
        let t = tallies.last();
        StoreV {
            tallies: before.tallies.insert(
                t.session_id,
                if before.tallies.contains_key(t.session_id) {
                    joined_tally(before.tallies[t.session_id], t)
                } else {
                    t
                },
            ),
            ..before
        }
    }
}

/// A pass, as far as it has come: what it has stored, and the sessions that it has seen.
pub struct PassedV {
    pub progress: ProgressV,
    pub sessions: Seq<Seq<char>>,
}

/// A pass over transcripts, each in its own context.
pub open spec fn passed(
    s: StoreV,
    transcripts: Seq<(ContextV, TranscriptV)>,
    found: spec_fn(EdgeV) -> Option<i64>,
) -> PassedV
    decreases transcripts.len(),
{
    if transcripts.len() == 0 {
        PassedV {
            progress: ProgressV { store: s, outcomes: Seq::empty() },
            sessions: Seq::empty(),
        }
    } else {
        let before = passed(s, transcripts.drop_last(), found);
        let (c, t) = transcripts.last();
        let p = with_edges(pass_start(before.sessions), c, pass_admissions(c, t), t.edges);
        let start = ProgressV {
            store: tallied(before.progress.store, scoped(t.activity, c)),
            ..before.progress
        };
        PassedV { progress: acted_all(start, p.actions, t.edges, found), sessions: p.sessions }
    }
}

// ---- Only adding -------------------------------------------------------------------------

/// `b` holds everything that `a` does: the edges and their texts as they are, but that an
/// edge without a commit may have got one, and tallies that are no smaller.
pub open spec fn holds_all_of(b: StoreV, a: StoreV) -> bool {
    &&& forall|k: (Seq<char>, int)| #[trigger]
        a.edges.contains_key(k) ==> b.edges.contains_key(k) && b.edges[k].edge == a.edges[k].edge
            && b.edges[k].row == a.edges[k].row && (a.edges[k].commit_id is Some
            ==> b.edges[k].commit_id == a.edges[k].commit_id)
    &&& forall|k: (Seq<char>, int)|
        a.edges.contains_key(k) && #[trigger] a.texts.contains_key(k) ==> b.texts.contains_key(k)
            && b.texts[k] == a.texts[k]
    &&& forall|k: Seq<char>| #[trigger]
        a.tallies.contains_key(k) ==> b.tallies.contains_key(k) && covers(
            b.tallies[k],
            a.tallies[k],
        )
}

/// A tally that another, merged into it, does not change.
pub open spec fn covers(big: TallyV, small: TallyV) -> bool {
    &&& big.first_seen <= small.first_seen
    &&& big.retrieval_calls >= small.retrieval_calls
    &&& big.nibdex_calls >= small.nibdex_calls
}

proof fn lemma_holds_trans(c: StoreV, b: StoreV, a: StoreV)
    requires
        holds_all_of(c, b),
        holds_all_of(b, a),
    ensures
        holds_all_of(c, a),
{
    assert forall|k: (Seq<char>, int)| #[trigger] a.edges.contains_key(k) implies c.edges.contains_key(
        k,
    ) && c.edges[k].edge == a.edges[k].edge && c.edges[k].row == a.edges[k].row && (
    a.edges[k].commit_id is Some ==> c.edges[k].commit_id == a.edges[k].commit_id) by {
        assert(b.edges.contains_key(k));
    }
    assert forall|k: (Seq<char>, int)|
        a.edges.contains_key(k) && #[trigger] a.texts.contains_key(k) implies c.texts.contains_key(k)
        && c.texts[k] == a.texts[k] by {
        assert(b.edges.contains_key(k));
        assert(b.texts.contains_key(k));
    }
    assert forall|k: Seq<char>| #[trigger] a.tallies.contains_key(k) implies c.tallies.contains_key(
        k,
    ) && covers(c.tallies[k], a.tallies[k]) by {
        assert(b.tallies.contains_key(k));
    }
}

proof fn lemma_tallied_adds(s: StoreV, tallies: Seq<TallyV>)
    ensures
        holds_all_of(tallied(s, tallies), s),
        forall|i: int|
            0 <= i < tallies.len() ==> tallied(s, tallies).tallies.contains_key(
                (#[trigger] tallies[i]).session_id,
            ) && covers(tallied(s, tallies).tallies[tallies[i].session_id], tallies[i]),
    decreases tallies.len(),
{
    if tallies.len() > 0 {
        let init = tallies.drop_last();
        lemma_tallied_adds(s, init);
        let before = tallied(s, init);
        let after = tallied(s, tallies);
        assert(holds_all_of(after, before));
        lemma_holds_trans(after, before, s);
        assert forall|i: int| 0 <= i < tallies.len() implies after.tallies.contains_key(
            (#[trigger] tallies[i]).session_id,
        ) && covers(after.tallies[tallies[i].session_id], tallies[i]) by {
            if i < init.len() {
                assert(init[i] == tallies[i]);
                assert(before.tallies.contains_key(init[i].session_id));
            }
        }
    }
}

// ---- Repeating ---------------------------------------------------------------------------

/// Offering the edge again would change nothing.
pub open spec fn settled(s: StoreV, e: EdgeV, commit_id: Option<i64>) -> bool {
    e.message_uuid.len() > 0 ==> s.edges.contains_key(key_of(e)) && (commit_id is Some
        ==> s.edges[key_of(e)].commit_id is Some)
}

/// The edge is one that a pass stores.
pub open spec fn due(e: EdgeV, c: ContextV, t: TranscriptV) -> bool {
    placement(e, c) == Placement::InScope && routed(e, c.domain, c.survey, pass_admissions(c, t))
        is Some
}

/// Everything of a transcript is there.
pub open spec fn transcript_settled(
    s: StoreV,
    c: ContextV,
    t: TranscriptV,
    found: spec_fn(EdgeV) -> Option<i64>,
) -> bool {
    &&& forall|k: int|
        0 <= k < t.edges.len() && due(#[trigger] t.edges[k], c, t) ==> settled(
            s,
            t.edges[k],
            found(t.edges[k]),
        )
    &&& forall|i: int|
        0 <= i < scoped(t.activity, c).len() ==> s.tallies.contains_key(
            (#[trigger] scoped(t.activity, c)[i]).session_id,
        ) && covers(s.tallies[scoped(t.activity, c)[i].session_id], scoped(t.activity, c)[i])
}

/// Nothing was stored and nothing was bound.
pub open spec fn nothing_new(o: EdgeOutcome) -> bool {
    o == EdgeOutcome::SkippedNoUuid || o == (EdgeOutcome::Duplicate { late_bound: false })
}

proof fn lemma_offered(s: StoreV, e: EdgeV, row: RowV, commit_id: Option<i64>)
    ensures
        holds_all_of(offered(s, e, row, commit_id).0, s),
        settled(offered(s, e, row, commit_id).0, e, commit_id),
        settled(s, e, commit_id) ==> offered(s, e, row, commit_id).0 == s && nothing_new(
            offered(s, e, row, commit_id).1,
        ),
{
}

proof fn lemma_settled_stays(a: StoreV, b: StoreV, e: EdgeV, commit_id: Option<i64>)
    requires
        holds_all_of(b, a),
        settled(a, e, commit_id),
    ensures
        settled(b, e, commit_id),
{
}

proof fn lemma_acted_prefix(
    p: ProgressV,
    actions: Seq<ActionV>,
    edges: Seq<EdgeV>,
    found: spec_fn(EdgeV) -> Option<i64>,
)
    requires
        edges.len() > 0,
        forall|a: int| 0 <= a < actions.len() ==> 0 <= (#[trigger] actions[a]).edge < edges.len() - 1,
    ensures
        acted_all(p, actions, edges, found) == acted_all(p, actions, edges.drop_last(), found),
    decreases actions.len(),
{
    if actions.len() > 0 {
        let init = actions.drop_last();
        assert forall|a: int| 0 <= a < init.len() implies 0 <= (#[trigger] init[a]).edge
            < edges.len() - 1 by {
            assert(init[a] == actions[a]);
        }
        lemma_acted_prefix(p, init, edges, found);
        assert(actions.last() == actions[actions.len() - 1]);
    }
}

/// The edges of a transcript, without a rebuild: the store only grows, and every edge that
/// was due is there afterwards. Where all of them were there, nothing changes.
proof fn lemma_transcript(
    p: ProgressV,
    sessions: Seq<Seq<char>>,
    c: ContextV,
    t: TranscriptV,
    edges: Seq<EdgeV>,
    found: spec_fn(EdgeV) -> Option<i64>,
)
    requires
        !c.rebuild,
    ensures
        ({
            let words = pass_admissions(c, t);
            let actions = with_edges(pass_start(sessions), c, words, edges).actions;
            let q = acted_all(p, actions, edges, found);
            &&& holds_all_of(q.store, p.store)
            &&& forall|k: int|
                0 <= k < edges.len() && due(#[trigger] edges[k], c, t) ==> settled(
                    q.store,
                    edges[k],
                    found(edges[k]),
                )
            &&& p.outcomes.is_prefix_of(q.outcomes)
            &&& (forall|k: int|
                0 <= k < edges.len() && due(#[trigger] edges[k], c, t) ==> settled(
                    p.store,
                    edges[k],
                    found(edges[k]),
                )) ==> q.store == p.store && forall|i: int|
                p.outcomes.len() <= i < q.outcomes.len() ==> nothing_new(#[trigger] q.outcomes[i])
        }),
    decreases edges.len(),
{
    let words = pass_admissions(c, t);
    let full = with_edges(pass_start(sessions), c, words, edges);
    let q = acted_all(p, full.actions, edges, found);
    if edges.len() == 0 {
        assert(p.outcomes =~= q.outcomes.subrange(0, p.outcomes.len() as int));
    } else {
        let init = edges.drop_last();
        let e = edges[edges.len() - 1];
        let part = with_edges(pass_start(sessions), c, words, init);
        lemma_transcript(p, sessions, c, t, init, found);
        lemma_pass_ok(pass_start(sessions), c, words, init);
        lemma_acted_prefix(p, part.actions, edges, found);
        let r = acted_all(p, part.actions, init, found);
        let now_due = (forall|k: int|
            0 <= k < edges.len() && due(#[trigger] edges[k], c, t) ==> settled(
                p.store,
                edges[k],
                found(edges[k]),
            ));
        if now_due {
            assert forall|k: int| 0 <= k < init.len() && due(
                #[trigger] init[k],
                c,
                t,
            ) implies settled(p.store, init[k], found(init[k])) by {
                assert(edges[k] == init[k]);
            }
        }
        if placement(e, c) == Placement::InScope {
            let a = full.actions.last();
            assert(full.actions.drop_last() =~= part.actions);
            assert(a.edge == edges.len() - 1);
            assert(!a.wipe);
            assert(q == acted(r, a, e, found));
            match a.row {
                Some(row) => {
                    lemma_offered(r.store, e, row, found(e));
                    assert(due(e, c, t));
                    if now_due {
                        assert(settled(p.store, edges[edges.len() - 1], found(e)));
                    }
                },
                None => {},
            }
        } else {
            assert(full.actions == part.actions);
            assert(q == r);
        }
        lemma_holds_trans(q.store, r.store, p.store);
        assert forall|k: int| 0 <= k < edges.len() && due(#[trigger] edges[k], c, t) implies settled(
            q.store,
            edges[k],
            found(edges[k]),
        ) by {
            if k < init.len() {
                assert(init[k] == edges[k]);
                lemma_settled_stays(r.store, q.store, init[k], found(init[k]));
            }
        }
        assert(p.outcomes =~= r.outcomes.subrange(0, p.outcomes.len() as int));
        assert(p.outcomes =~= q.outcomes.subrange(0, p.outcomes.len() as int));
    }
}

proof fn lemma_tallied_again(s: StoreV, tallies: Seq<TallyV>)
    requires
        forall|i: int|
            0 <= i < tallies.len() ==> s.tallies.contains_key((#[trigger] tallies[i]).session_id)
                && covers(s.tallies[tallies[i].session_id], tallies[i]),
    ensures
        tallied(s, tallies) == s,
    decreases tallies.len(),
{
    if tallies.len() > 0 {
        let init = tallies.drop_last();
        assert forall|i: int| 0 <= i < init.len() implies s.tallies.contains_key(
            (#[trigger] init[i]).session_id,
        ) && covers(s.tallies[init[i].session_id], init[i]) by {
            assert(init[i] == tallies[i]);
        }
        lemma_tallied_again(s, init);
        let t = tallies[tallies.len() - 1];
        assert(s.tallies.contains_key(t.session_id) && covers(s.tallies[t.session_id], t));
        assert(joined_tally(s.tallies[t.session_id], t) == s.tallies[t.session_id]);
        assert(s.tallies.insert(t.session_id, s.tallies[t.session_id]) =~= s.tallies);
    }
}

proof fn lemma_transcript_settled_stays(
    a: StoreV,
    b: StoreV,
    c: ContextV,
    t: TranscriptV,
    found: spec_fn(EdgeV) -> Option<i64>,
)
    requires
        holds_all_of(b, a),
        transcript_settled(a, c, t, found),
    ensures
        transcript_settled(b, c, t, found),
{
    assert forall|k: int| 0 <= k < t.edges.len() && due(#[trigger] t.edges[k], c, t) implies settled(
        b,
        t.edges[k],
        found(t.edges[k]),
    ) by {
        lemma_settled_stays(a, b, t.edges[k], found(t.edges[k]));
    }
    let all = scoped(t.activity, c);
    assert forall|i: int| 0 <= i < all.len() implies b.tallies.contains_key(
        (#[trigger] all[i]).session_id,
    ) && covers(b.tallies[all[i].session_id], all[i]) by {
        assert(a.tallies.contains_key(all[i].session_id));
    }
}

proof fn lemma_passed(
    s: StoreV,
    transcripts: Seq<(ContextV, TranscriptV)>,
    found: spec_fn(EdgeV) -> Option<i64>,
)
    requires
        forall|i: int| 0 <= i < transcripts.len() ==> !(#[trigger] transcripts[i]).0.rebuild,
    ensures
        holds_all_of(passed(s, transcripts, found).progress.store, s),
        forall|i: int|
            0 <= i < transcripts.len() ==> transcript_settled(
                passed(s, transcripts, found).progress.store,
                (#[trigger] transcripts[i]).0,
                transcripts[i].1,
                found,
            ),
        (forall|i: int|
            0 <= i < transcripts.len() ==> transcript_settled(
                s,
                (#[trigger] transcripts[i]).0,
                transcripts[i].1,
                found,
            )) ==> passed(s, transcripts, found).progress.store == s && forall|i: int|
            0 <= i < passed(s, transcripts, found).progress.outcomes.len() ==> nothing_new(
                #[trigger] passed(s, transcripts, found).progress.outcomes[i],
            ),
    decreases transcripts.len(),
{
    if transcripts.len() > 0 {
        let init = transcripts.drop_last();
        assert forall|i: int| 0 <= i < init.len() implies !(#[trigger] init[i]).0.rebuild by {
            assert(init[i] == transcripts[i]);
        }
        lemma_passed(s, init, found);
        let before = passed(s, init, found);
        let n = transcripts.len() - 1;
        let (c, t) = transcripts[n];
        assert(!transcripts[n].0.rebuild);
        let tallies = scoped(t.activity, c);
        let start = ProgressV {
            store: tallied(before.progress.store, tallies),
            ..before.progress
        };
        lemma_tallied_adds(before.progress.store, tallies);
        lemma_transcript(start, before.sessions, c, t, t.edges, found);
        let after = passed(s, transcripts, found).progress;
        lemma_holds_trans(after.store, start.store, before.progress.store);
        lemma_holds_trans(after.store, before.progress.store, s);
        assert forall|i: int| 0 <= i < tallies.len() implies after.store.tallies.contains_key(
            (#[trigger] tallies[i]).session_id,
        ) && covers(after.store.tallies[tallies[i].session_id], tallies[i]) by {
            assert(start.store.tallies.contains_key(tallies[i].session_id));
        }
        assert forall|i: int| 0 <= i < transcripts.len() implies transcript_settled(
            after.store,
            (#[trigger] transcripts[i]).0,
            transcripts[i].1,
            found,
        ) by {
            if i < n {
                assert(init[i] == transcripts[i]);
                lemma_transcript_settled_stays(
                    before.progress.store,
                    after.store,
                    init[i].0,
                    init[i].1,
                    found,
                );
            }
        }
        if forall|i: int|
            0 <= i < transcripts.len() ==> transcript_settled(
                s,
                (#[trigger] transcripts[i]).0,
                transcripts[i].1,
                found,
            ) {
            assert forall|i: int| 0 <= i < init.len() implies transcript_settled(
                s,
                (#[trigger] init[i]).0,
                init[i].1,
                found,
            ) by {
                assert(init[i] == transcripts[i]);
            }
            assert(transcript_settled(s, transcripts[n].0, transcripts[n].1, found));
            lemma_tallied_again(s, tallies);
            assert(start.store == s);
            assert(after.store == s);
            assert(before.progress.outcomes =~= after.outcomes.subrange(
                0,
                before.progress.outcomes.len() as int,
            ));
            assert forall|i: int| 0 <= i < after.outcomes.len() implies nothing_new(
                #[trigger] after.outcomes[i],
            ) by {
                if i < before.progress.outcomes.len() {
                    assert(after.outcomes[i] == before.progress.outcomes[i]);
                }
            }
        }
    }
}

/// Without a rebuild a pass only adds: every edge that was there stays as it is, its
/// transcript read or not, but that it may get the commit that it lacked; and no tally gets
/// smaller.
pub proof fn law_a_pass_only_adds(
    s: StoreV,
    transcripts: Seq<(ContextV, TranscriptV)>,
    found: spec_fn(EdgeV) -> Option<i64>,
)
    requires
        forall|i: int| 0 <= i < transcripts.len() ==> !(#[trigger] transcripts[i]).0.rebuild,
    ensures
        holds_all_of(passed(s, transcripts, found).progress.store, s),
{
    lemma_passed(s, transcripts, found);
}

/// Repeating a pass changes nothing: where the transcripts and the commits are the same and
/// nothing is rebuilt, a second pass leaves the store as the first left it, and counts no
/// edge as stored or as bound late.
pub proof fn law_a_second_pass_changes_nothing(
    s: StoreV,
    transcripts: Seq<(ContextV, TranscriptV)>,
    found: spec_fn(EdgeV) -> Option<i64>,
)
    requires
        forall|i: int| 0 <= i < transcripts.len() ==> !(#[trigger] transcripts[i]).0.rebuild,
    ensures
        ({
            let once = passed(s, transcripts, found).progress.store;
            let again = passed(once, transcripts, found).progress;
            &&& again.store == once
            &&& forall|i: int, stats: SessionIndexStats, tool: Seq<char>|
                #![trigger counted_edge(stats, tool, again.outcomes[i])]
                0 <= i < again.outcomes.len() ==> counted_edge(
                    stats,
                    tool,
                    again.outcomes[i],
                ).edges_indexed == stats.edges_indexed && counted_edge(
                    stats,
                    tool,
                    again.outcomes[i],
                ).edges_late_bound == stats.edges_late_bound
        }),
{
    lemma_passed(s, transcripts, found);
    let once = passed(s, transcripts, found).progress.store;
    lemma_passed(once, transcripts, found);
    let again = passed(once, transcripts, found).progress;
    assert forall|i: int, stats: SessionIndexStats, tool: Seq<char>|
        #![trigger counted_edge(stats, tool, again.outcomes[i])]
        0 <= i < again.outcomes.len() implies counted_edge(
        stats,
        tool,
        again.outcomes[i],
    ).edges_indexed == stats.edges_indexed && counted_edge(
        stats,
        tool,
        again.outcomes[i],
    ).edges_late_bound == stats.edges_late_bound by {
        assert(nothing_new(again.outcomes[i]));
    }
}

/// Without a rebuild no action of a pass drops anything, and an edge that was there gets no
/// searched text.
pub proof fn law_nothing_is_dropped_without_a_rebuild(
    sessions: Seq<Seq<char>>,
    c: ContextV,
    t: TranscriptV,
    e: EdgeV,
    row: RowV,
    commit_id: Option<i64>,
)
    requires
        !c.rebuild,
    ensures
        ({
            let words = pass_admissions(c, t);
            let actions = with_edges(pass_start(sessions), c, words, t.edges).actions;
            forall|a: int| 0 <= a < actions.len() ==> !(#[trigger] actions[a]).wipe
        }),
        !(follow_up(e, row, false, commit_id) is IndexBody),
{
    lemma_no_wipe(sessions, c, pass_admissions(c, t), t.edges);
}

proof fn lemma_no_wipe(
    sessions: Seq<Seq<char>>,
    c: ContextV,
    words: Seq<super::scope::AdmissionV>,
    edges: Seq<EdgeV>,
)
    requires
        !c.rebuild,
    ensures
        ({
            let actions = with_edges(pass_start(sessions), c, words, edges).actions;
            forall|a: int| 0 <= a < actions.len() ==> !(#[trigger] actions[a]).wipe
        }),
    decreases edges.len(),
{
    if edges.len() > 0 {
        lemma_no_wipe(sessions, c, words, edges.drop_last());
        let init = with_edges(pass_start(sessions), c, words, edges.drop_last()).actions;
        let all = with_edges(pass_start(sessions), c, words, edges).actions;
        assert forall|a: int| 0 <= a < all.len() implies !(#[trigger] all[a]).wipe by {
            if a < init.len() {
                assert(all[a] == init[a]);
            }
        }
    }
}

} // verus!

//! How much retrieval each session did, within the scope of a pass.
use vstd::prelude::*;

use super::scope::{cwd_in_workspace, DomainRouter};
use super::transcript::{calls_total, tallies_within, ActivityV, SessionActivity, TranscriptParse};
use super::{as_opt_str, cwd_in, cwd_visible, ContextV, PassContext};
use crate::text::str_eq;

verus! {

/// The retrieval of one session, over all of its working directories in scope.
#[derive(Debug)]
pub struct SessionTally {
    pub session_id: String,
    pub first_seen: i64,
    pub retrieval_calls: i64,
    pub nibdex_calls: i64,
}

pub struct TallyV {
    pub session_id: Seq<char>,
    pub first_seen: i64,
    pub retrieval_calls: int,
    pub nibdex_calls: int,
}

impl View for SessionTally {
    type V = TallyV;

    open spec fn view(&self) -> TallyV {
        TallyV {
            session_id: self.session_id@,
            first_seen: self.first_seen,
            retrieval_calls: self.retrieval_calls as int,
            nibdex_calls: self.nibdex_calls as int,
        }
    }
}

pub open spec fn tallies_view(v: Seq<SessionTally>) -> Seq<TallyV> {
    Seq::new(v.len(), |i: int| v[i]@)
}

/// A tally counts where its working directory is in scope, and, for a domain, where the
/// domain claims it: the same scope as that of the edges.
pub open spec fn counts(a: ActivityV, c: ContextV) -> bool {
    &&& c.workspace_only ==> cwd_in(a.cwd, c)
    &&& c.domain ==> cwd_visible(a.cwd, c.survey)
}

/// The earlier of two times, where 0 stands for none.
pub open spec fn earlier(a: i64, b: i64) -> i64 {
    if a == 0 || (b != 0 && b < a) {
        b
    } else {
        a
    }
}

pub open spec fn summed(t: TallyV, a: ActivityV) -> TallyV {
    TallyV {
        first_seen: earlier(t.first_seen, a.first_seen),
        retrieval_calls: t.retrieval_calls + a.retrieval_calls,
        nibdex_calls: t.nibdex_calls + a.nibdex_calls,
        ..t
    }
}

/// Where the tally of a session stands.
pub open spec fn session_index(v: Seq<TallyV>, session_id: Seq<char>) -> Option<int>
    decreases v.len(),
{
    if v.len() == 0 {
        None
    } else {
        match session_index(v.drop_last(), session_id) {
            Some(i) => Some(i),
            None => if v.last().session_id == session_id {
                Some(v.len() - 1)
            } else {
                None
            },
        }
    }
}

/// One tally more, added to that of its session.
pub open spec fn merged(v: Seq<TallyV>, a: ActivityV) -> Seq<TallyV> {
    match session_index(v, a.session_id) {
        Some(i) => v.update(i, summed(v[i], a)),
        None => v.push(
            TallyV {
                session_id: a.session_id,
                first_seen: a.first_seen,
                retrieval_calls: a.retrieval_calls,
                nibdex_calls: a.nibdex_calls,
            },
        ),
    }
}

/// The tallies of a transcript per session, within the scope.
pub open spec fn scoped(v: Seq<ActivityV>, c: ContextV) -> Seq<TallyV>
    decreases v.len(),
{
    if v.len() == 0 {
        Seq::empty()
    } else {
        let before = scoped(v.drop_last(), c);
        if counts(v.last(), c) {
            merged(before, v.last())
        } else {
            before
        }
    }
}

/// All calls counted in `v`.
pub open spec fn tally_total(v: Seq<TallyV>) -> int
    decreases v.len(),
{
    if v.len() == 0 {
        0
    } else {
        tally_total(v.drop_last()) + v.last().retrieval_calls + v.last().nibdex_calls
    }
}

/// The calls of the tallies that count.
pub open spec fn counted_total(v: Seq<ActivityV>, c: ContextV) -> int
    decreases v.len(),
{
    if v.len() == 0 {
        0
    } else if counts(v.last(), c) {
        counted_total(v.drop_last(), c) + v.last().retrieval_calls + v.last().nibdex_calls
    } else {
        counted_total(v.drop_last(), c)
    }
}

pub open spec fn not_negative(v: Seq<TallyV>) -> bool {
    forall|i: int|
        0 <= i < v.len() ==> 0 <= (#[trigger] v[i]).retrieval_calls && 0 <= v[i].nibdex_calls
}

proof fn lemma_tally_total_update(v: Seq<TallyV>, i: int, t: TallyV)
    requires
        0 <= i < v.len(),
    ensures
        tally_total(v.update(i, t)) == tally_total(v) - v[i].retrieval_calls - v[i].nibdex_calls
            + t.retrieval_calls + t.nibdex_calls,
    decreases v.len(),
{
    let u = v.update(i, t);
    if i == v.len() - 1 {
        assert(u.drop_last() =~= v.drop_last());
    } else {
        assert(u.drop_last() =~= v.drop_last().update(i, t));
        lemma_tally_total_update(v.drop_last(), i, t);
    }
}

proof fn lemma_tally_total_member(v: Seq<TallyV>, i: int)
    requires
        0 <= i < v.len(),
        not_negative(v),
    ensures
        0 <= v[i].retrieval_calls + v[i].nibdex_calls <= tally_total(v),
    decreases v.len(),
{
    let u = v.drop_last();
    assert forall|j: int| 0 <= j < u.len() implies 0 <= (#[trigger] u[j]).retrieval_calls && 0
        <= u[j].nibdex_calls by {
        assert(u[j] == v[j]);
    }
    if i < v.len() - 1 {
        lemma_tally_total_member(u, i);
        let last = v[v.len() - 1];
        assert(0 <= last.retrieval_calls);
    } else if u.len() > 0 {
        lemma_tally_total_member(u, 0);
    } else {
        assert(tally_total(u) == 0);
    }
    let here = v[i];
    assert(0 <= here.retrieval_calls);
}

pub(crate) proof fn lemma_session_index(v: Seq<TallyV>, session_id: Seq<char>)
    ensures
        match session_index(v, session_id) {
            Some(i) => 0 <= i < v.len() && v[i].session_id == session_id,
            None => forall|j: int| 0 <= j < v.len() ==> (#[trigger] v[j]).session_id != session_id,
        },
    decreases v.len(),
{
    if v.len() > 0 {
        let u = v.drop_last();
        lemma_session_index(u, session_id);
        assert forall|j: int| 0 <= j < u.len() implies u[j] == #[trigger] v[j] by {}
    }
}

proof fn lemma_session_index_stays(v: Seq<TallyV>, session_id: Seq<char>, i: int)
    requires
        0 <= i <= v.len(),
        session_index(v.take(i), session_id) is Some,
    ensures
        session_index(v, session_id) == session_index(v.take(i), session_id),
    decreases v.len() - i,
{
    if i < v.len() {
        assert(v.take(i + 1).drop_last() =~= v.take(i));
        lemma_session_index_stays(v, session_id, i + 1);
    } else {
        assert(v.take(i) =~= v);
    }
}

proof fn lemma_merged_total(v: Seq<TallyV>, a: ActivityV)
    ensures
        tally_total(merged(v, a)) == tally_total(v) + a.retrieval_calls + a.nibdex_calls,
{
    lemma_session_index(v, a.session_id);
    match session_index(v, a.session_id) {
        Some(i) => {
            lemma_tally_total_update(v, i, summed(v[i], a));
        },
        None => {
            assert(merged(v, a).drop_last() =~= v);
        },
    }
}

/// Nothing is lost and nothing is counted twice: the calls per session together are the
/// calls of the tallies that count.
pub proof fn law_scoped_tallies_keep_every_call(v: Seq<ActivityV>, c: ContextV)
    ensures
        tally_total(scoped(v, c)) == counted_total(v, c),
    decreases v.len(),
{
    if v.len() > 0 {
        law_scoped_tallies_keep_every_call(v.drop_last(), c);
        if counts(v.last(), c) {
            lemma_merged_total(scoped(v.drop_last(), c), v.last());
        }
    }
}

/// Each session has one tally.
pub proof fn law_scoped_tallies_have_distinct_sessions(v: Seq<ActivityV>, c: ContextV)
    ensures
        forall|i: int, j: int|
            0 <= i < j < scoped(v, c).len() ==> (#[trigger] scoped(v, c)[i]).session_id != (
            #[trigger] scoped(v, c)[j]).session_id,
    decreases v.len(),
{
    if v.len() > 0 {
        law_scoped_tallies_have_distinct_sessions(v.drop_last(), c);
        let before = scoped(v.drop_last(), c);
        lemma_session_index(before, v.last().session_id);
        if counts(v.last(), c) {
            let after = scoped(v, c);
            assert forall|i: int, j: int| 0 <= i < j < after.len() implies (
            #[trigger] after[i]).session_id != (#[trigger] after[j]).session_id by {
                assert(i < before.len());
                assert(after[i].session_id == before[i].session_id);
                if j < before.len() {
                    assert(after[j].session_id == before[j].session_id);
                }
            }
        }
    }
}

fn add_tally(v: &mut Vec<SessionTally>, a: &SessionActivity)
    requires
        not_negative(tallies_view(old(v)@)),
        0 <= a.retrieval_calls,
        0 <= a.nibdex_calls,
        tally_total(tallies_view(old(v)@)) + a.retrieval_calls + a.nibdex_calls <= i64::MAX,
    ensures
        tallies_view(final(v)@) == merged(tallies_view(old(v)@), a@),
        not_negative(tallies_view(final(v)@)),
{
    let ghost start = v@;
    let ghost all = tallies_view(start);
    let n: usize = v.len();
    let mut i: usize = 0;
    while i < n
        invariant
            v@ == start,
            all == tallies_view(start),
            n == start.len(),
            i <= n,
            session_index(all.take(i as int), a@.session_id) is None,
            not_negative(all),
            0 <= a.retrieval_calls,
            0 <= a.nibdex_calls,
            tally_total(all) + a.retrieval_calls + a.nibdex_calls <= i64::MAX,
            start == old(v)@,
        decreases n - i,
    {
        assert(all.take(i + 1).drop_last() =~= all.take(i as int));
        assert(all[i as int] == v@[i as int]@);
        if str_eq(v[i].session_id.as_str(), a.session_id.as_str()) {
            proof {
                lemma_session_index_stays(all, a@.session_id, i + 1);
                lemma_tally_total_member(all, i as int);
            }
            let first_seen: i64 = if v[i].first_seen == 0 || (a.first_seen != 0 && a.first_seen
                < v[i].first_seen) {
                a.first_seen
            } else {
                v[i].first_seen
            };
            let changed = SessionTally {
                session_id: v[i].session_id.clone(),
                first_seen,
                retrieval_calls: v[i].retrieval_calls + a.retrieval_calls,
                nibdex_calls: v[i].nibdex_calls + a.nibdex_calls,
            };
            v.set(i, changed);
            assert(tallies_view(v@) =~= merged(all, a@));
            return;
        }
        i = i + 1;
    }
    assert(all.take(n as int) =~= all);
    v.push(
        SessionTally {
            session_id: a.session_id.clone(),
            first_seen: a.first_seen,
            retrieval_calls: a.retrieval_calls,
            nibdex_calls: a.nibdex_calls,
        },
    );
    assert(tallies_view(v@) =~= merged(all, a@));
}

fn is_counted(a: &SessionActivity, context: &PassContext<'_>) -> (b: bool)
    ensures
        b == counts(a@, context@),
{
    if context.scope.only_workspace() && !cwd_in_workspace(
        as_opt_str(&a.cwd),
        context.workspace,
        context.survey,
    ) {
        return false;
    }
    if context.domain {
        let router = DomainRouter { workspace: context.workspace, survey: context.survey };
        match as_opt_str(&a.cwd) {
            Some(c) => router.visible(c),
            None => false,
        }
    } else {
        true
    }
}

/// The tallies of a transcript per session, scoped exactly like its edges.
pub fn scoped_activity(parse: &TranscriptParse, context: &PassContext<'_>) -> (r: Vec<SessionTally>)
    requires
        tallies_within(parse@.activity, i64::MAX as int),
    ensures
        tallies_view(r@) == scoped(parse@.activity, context@),
{
    let ghost all = parse@.activity;
    let ghost c = context@;
    let mut out: Vec<SessionTally> = Vec::new();
    assert(tallies_view(out@) =~= Seq::empty());
    assert(all.take(0) =~= Seq::empty());
    for i in 0..parse.activity.len()
        invariant
            all == parse@.activity,
            c == context@,
            tallies_within(all, i64::MAX as int),
            tallies_view(out@) == scoped(all.take(i as int), c),
            not_negative(tallies_view(out@)),
            tally_total(tallies_view(out@)) <= calls_total(all.take(i as int)),
    {
        assert(all.take(i + 1).drop_last() =~= all.take(i as int));
        assert(all[i as int] == parse.activity@[i as int]@);
        proof {
            lemma_calls_total_take(all, i + 1);
        }
        if is_counted(&parse.activity[i], context) {
            proof {
                lemma_merged_total(tallies_view(out@), all[i as int]);
            }
            add_tally(&mut out, &parse.activity[i]);
        }
    }
    assert(all.take(all.len() as int) =~= all);
    out
}

proof fn lemma_calls_total_take(v: Seq<ActivityV>, i: int)
    requires
        0 <= i <= v.len(),
        forall|j: int|
            0 <= j < v.len() ==> 0 <= (#[trigger] v[j]).retrieval_calls && 0 <= v[j].nibdex_calls,
    ensures
        calls_total(v.take(i)) <= calls_total(v),
    decreases v.len() - i,
{
    if i < v.len() {
        assert(v.take(i + 1).drop_last() =~= v.take(i));
        let last = v[i];
        assert(0 <= last.retrieval_calls);
        lemma_calls_total_take(v, i + 1);
    } else {
        assert(v.take(i) =~= v);
    }
}

} // verus!

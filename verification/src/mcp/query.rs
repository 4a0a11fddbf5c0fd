//! From a request to the searches to make, and from the rows found to the answer.
use vstd::prelude::*;

use super::format::{envelope, plain_envelope, summarize, summary};
use super::fts5::{sanitize_fts5_query, sanitized};
use super::types::{
    AlsoMatched, CodeResult, DesignDocResult, MemoryResult, RetrievalShape, ToolEnvelope,
    DEEP_SCAN_DEPTH, DEFAULT_DAYS, DEFAULT_LIMIT, DESIGN_DOC_BODY_CHAR_LIMIT,
    DESIGN_DOC_TOTAL_BODY_BUDGET, MAX_LIMIT, SOURCE_BODY_CHAR_LIMIT, SOURCE_TOTAL_BODY_BUDGET,
    SUMMARY_CHAR_LIMIT,
};
use crate::session_index::transcript::{is_slash, slash};
use crate::text::{
    append_chars, append_str, char_count, contains_chars, dec_int, dec_int_chars, from_chars,
    has_sub, has_text, opt_ref, opt_str, own_opt, str_eq, strs, to_chars, trim, trim_chars,
    trim_end_by, trim_end_chars, trimmed,
};

verus! {

// ---- Requests ----------------------------------------------------------------------------

/// The number of rows to return: 10 where the request does not say, at least 1 and at
/// most 50.
pub open spec fn row_limit(limit: Option<i64>) -> i64 {
    let wanted = match limit {
        Some(n) => n,
        None => DEFAULT_LIMIT,
    };
    if wanted < 1 {
        1
    } else if wanted > MAX_LIMIT {
        MAX_LIMIT
    } else {
        wanted
    }
}

/// The number of rows to return.
pub fn clamp_limit(limit: Option<i64>) -> (r: i64)
    ensures
        r == row_limit(limit),
        1 <= r <= MAX_LIMIT,
{
    let wanted: i64 = match limit {
        Some(n) => n,
        None => DEFAULT_LIMIT,
    };
    if wanted < 1 {
        1
    } else if wanted > MAX_LIMIT {
        MAX_LIMIT
    } else {
        wanted
    }
}

/// The window in days: 30 where the request does not say, and at least one.
pub open spec fn day_window(days: Option<i64>) -> i64 {
    let wanted = match days {
        Some(n) => n,
        None => DEFAULT_DAYS,
    };
    if wanted < 1 {
        1
    } else {
        wanted
    }
}

/// The window in days.
pub fn window_days(days: Option<i64>) -> (r: i64)
    ensures
        r == day_window(days),
        r >= 1,
{
    let wanted: i64 = match days {
        Some(n) => n,
        None => DEFAULT_DAYS,
    };
    if wanted < 1 {
        1
    } else {
        wanted
    }
}

/// How far the scan goes: never less than the rows to return.
pub fn scan_depth(limit: i64) -> (r: i64)
    ensures
        r == if limit > DEEP_SCAN_DEPTH {
            limit
        } else {
            DEEP_SCAN_DEPTH
        },
{
    if limit > DEEP_SCAN_DEPTH {
        limit
    } else {
        DEEP_SCAN_DEPTH
    }
}

/// The date modifier that goes back `days` days.
pub fn cutoff_modifier(days: i64) -> (r: String)
    ensures
        r@ == seq!['-'] + dec_int(days as int) + " days"@,
{
    let mut out: Vec<char> = Vec::new();
    out.push('-');
    append_chars(&mut out, &dec_int_chars(days));
    append_str(&mut out, " days");
    assert(out@ =~= seq!['-'] + dec_int(days as int) + " days"@);
    from_chars(&out)
}

/// Why a request is refused.
#[derive(Clone, Copy, Debug, PartialEq, Eq, Structural)]
pub enum QueryError {
    /// The query is blank.
    Empty,
}

impl QueryError {
    /// What the caller is told.
    pub fn message(&self) -> (r: String)
        ensures
            r@ == "query must not be empty"@,
    {
        "query must not be empty".to_owned()
    }
}

/// The search that a request asks for.
#[derive(Debug)]
pub struct SearchPlan {
    /// The query without white space around it.
    pub query: String,
    pub sanitized: String,
    pub limit: i64,
    /// What the repository's path must hold.
    pub repo: Option<String>,
}

/// A repository is in scope: there is no restriction, or its path holds the text that was
/// asked for, with its case and without wildcards.
pub open spec fn repo_in_scope(repo_path: Seq<char>, repo: Option<Seq<char>>) -> bool {
    match repo {
        Some(needle) => has_sub(repo_path, needle),
        None => true,
    }
}

/// The repositories in scope, in order.
pub open spec fn scoped_repos(
    repo_paths: Seq<Seq<char>>,
    repo: Option<Seq<char>>,
) -> Seq<Seq<char>>
    decreases repo_paths.len(),
{
    if repo_paths.len() == 0 {
        Seq::empty()
    } else if repo_in_scope(repo_paths.last(), repo) {
        scoped_repos(repo_paths.drop_last(), repo).push(repo_paths.last())
    } else {
        scoped_repos(repo_paths.drop_last(), repo)
    }
}

/// Whether the path of a repository holds a text.
pub fn in_repo(repo_path: &str, needle: &str) -> (b: bool)
    ensures
        b == has_sub(repo_path@, needle@),
{
    contains_chars(&to_chars(repo_path), &to_chars(needle))
}

/// The repositories, of those that are known, that a request is about.
pub fn repos_in_scope(repo_paths: &Vec<String>, repo: Option<&str>) -> (r: Vec<String>)
    ensures
        strs(r@) == scoped_repos(strs(repo_paths@), opt_ref(repo)),
{
    let ghost all = strs(repo_paths@);
    let mut r: Vec<String> = Vec::new();
    assert(strs(r@) =~= Seq::empty());
    assert(all.take(0) =~= Seq::empty());
    for i in 0..repo_paths.len()
        invariant
            all == strs(repo_paths@),
            strs(r@) == scoped_repos(all.take(i as int), opt_ref(repo)),
    {
        assert(all.take(i + 1).drop_last() =~= all.take(i as int));
        assert(all[i as int] == repo_paths@[i as int]@);
        let keep = match repo {
            Some(needle) => in_repo(repo_paths[i].as_str(), needle),
            None => true,
        };
        if keep {
            let ghost before = strs(r@);
            r.push(repo_paths[i].clone());
            assert(strs(r@) =~= before.push(all[i as int]));
        }
    }
    assert(all.take(all.len() as int) =~= all);
    r
}

/// The repositories in scope keep their order: one more is added at the end exactly where its
/// path holds the text that was asked for, or where none was.
pub proof fn law_repositories_keep_their_order(
    repo_paths: Seq<Seq<char>>,
    path: Seq<char>,
    needle: Seq<char>,
)
    ensures
        scoped_repos(Seq::<Seq<char>>::empty(), Some(needle)).len() == 0,
        has_sub(path, needle) ==> scoped_repos(repo_paths.push(path), Some(needle))
            == scoped_repos(repo_paths, Some(needle)).push(path),
        !has_sub(path, needle) ==> scoped_repos(repo_paths.push(path), Some(needle))
            == scoped_repos(repo_paths, Some(needle)),
        scoped_repos(repo_paths.push(path), None) == scoped_repos(repo_paths, None).push(path),
{
    assert(repo_paths.push(path).drop_last() =~= repo_paths);
}

/// Exactly the repositories whose paths hold the text are in scope, its case minded and
/// its wildcards literal; without a text every repository is.
pub proof fn law_repositories_are_scoped_by_substring(
    repo_paths: Seq<Seq<char>>,
    repo: Option<Seq<char>>,
)
    ensures
        forall|p: Seq<char>| #[trigger]
            scoped_repos(repo_paths, repo).contains(p) <==> repo_paths.contains(p)
                && repo_in_scope(p, repo),
        repo is None ==> scoped_repos(repo_paths, repo) == repo_paths,
    decreases repo_paths.len(),
{
    if repo_paths.len() > 0 {
        let init = repo_paths.drop_last();
        let last = repo_paths[repo_paths.len() - 1];
        law_repositories_are_scoped_by_substring(init, repo);
        let a = scoped_repos(init, repo);
        let b = scoped_repos(repo_paths, repo);
        assert forall|p: Seq<char>| #[trigger] b.contains(p) <==> repo_paths.contains(p)
            && repo_in_scope(p, repo) by {
            assert(a.contains(p) <==> init.contains(p) && repo_in_scope(p, repo));
            if b.contains(p) {
                let k = choose|k: int| 0 <= k < b.len() && b[k] == p;
                if k < a.len() {
                    assert(a[k] == p);
                    let q = choose|q: int| 0 <= q < init.len() && init[q] == p;
                    assert(repo_paths[q] == p);
                } else {
                    assert(repo_paths[repo_paths.len() - 1] == p);
                }
            }
            if repo_paths.contains(p) && repo_in_scope(p, repo) {
                let q = choose|q: int| 0 <= q < repo_paths.len() && repo_paths[q] == p;
                if q < init.len() {
                    assert(init[q] == p);
                    let k = choose|k: int| 0 <= k < a.len() && a[k] == p;
                    assert(b[k] == p);
                } else {
                    assert(b[a.len() as int] == p);
                }
            }
        }
        if repo is None {
            assert(b =~= repo_paths);
        }
    } else {
        assert(scoped_repos(repo_paths, repo) =~= repo_paths);
    }
}

/// Plans a search. A blank query is refused.
pub fn plan_search(query: &str, repo: Option<&str>, limit: Option<i64>) -> (r: Result<
    SearchPlan,
    QueryError,
>)
    ensures
        r is Err <==> trimmed(query@).len() == 0,
        r matches Ok(p) ==> {
            &&& p.query@ == trimmed(query@)
            &&& p.sanitized@ == sanitized(trimmed(query@))
            &&& p.limit == row_limit(limit)
            &&& opt_str(p.repo) == opt_ref(repo)
        },
{
    let q = trim(query);
    if char_count(q.as_str()) == 0 {
        return Err(QueryError::Empty);
    }
    let clean = sanitize_fts5_query(q.as_str());
    Ok(
        SearchPlan {
            query: q,
            sanitized: clean,
            limit: clamp_limit(limit),
            repo: own_opt(repo),
        },
    )
}

/// The listing that a request for recent items asks for.
#[derive(Debug)]
pub struct RecentPlan {
    /// The sanitized filter; nothing where there is none to apply.
    pub filter: Option<String>,
    pub days: i64,
    pub limit: i64,
    /// What the repository's path must hold.
    pub repo: Option<String>,
}

/// The filter to apply: a blank one is none.
pub open spec fn recent_filter(filter: Option<Seq<char>>) -> Option<Seq<char>> {
    match filter {
        Some(f) => if trimmed(f).len() == 0 {
            None
        } else {
            Some(sanitized(f))
        },
        None => None,
    }
}

/// Plans a listing of recent items.
pub fn plan_recent(
    filter: Option<&str>,
    days: Option<i64>,
    repo: Option<&str>,
    limit: Option<i64>,
) -> (r: RecentPlan)
    ensures
        opt_str(r.filter) == recent_filter(opt_ref(filter)),
        r.days == day_window(days),
        r.limit == row_limit(limit),
        opt_str(r.repo) == opt_ref(repo),
{
    let clean = match filter {
        Some(f) => {
            let t = trim_chars(&to_chars(f));
            if t.len() == 0 {
                None
            } else {
                Some(sanitize_fts5_query(f))
            }
        },
        None => None,
    };
    RecentPlan {
        filter: clean,
        days: window_days(days),
        limit: clamp_limit(limit),
        repo: own_opt(repo),
    }
}

// ---- Below the window --------------------------------------------------------------------

pub struct AlsoV {
    pub path: Seq<char>,
    pub match_line: i64,
    pub matches: int,
}

impl View for AlsoMatched {
    type V = AlsoV;

    open spec fn view(&self) -> AlsoV {
        AlsoV { path: self.path@, match_line: self.match_line, matches: self.matches as int }
    }
}

pub open spec fn also_view(v: Seq<AlsoMatched>) -> Seq<AlsoV> {
    Seq::new(v.len(), |i: int| v[i]@)
}

/// The views of rows of a path and a line.
pub open spec fn pointers(v: Seq<(String, i64)>) -> Seq<(Seq<char>, i64)> {
    Seq::new(v.len(), |i: int| (v[i].0@, v[i].1))
}

/// Where a path stands.
pub open spec fn path_index(v: Seq<AlsoV>, path: Seq<char>) -> Option<int>
    decreases v.len(),
{
    if v.len() == 0 {
        None
    } else {
        match path_index(v.drop_last(), path) {
            Some(i) => Some(i),
            None => if v.last().path == path {
                Some(v.len() - 1)
            } else {
                None
            },
        }
    }
}

/// One pointer per file, in the order of first appearance and with the line of the first
/// appearance, which is the best hit; a file that is shown already is left out.
pub open spec fn also_matched(
    head: Seq<Seq<char>>,
    tail: Seq<(Seq<char>, i64)>,
) -> Seq<AlsoV>
    decreases tail.len(),
{
    if tail.len() == 0 {
        Seq::empty()
    } else {
        let before = also_matched(head, tail.drop_last());
        let (path, line) = tail.last();
        if head.contains(path) {
            before
        } else {
            match path_index(before, path) {
                Some(i) => before.update(
                    i,
                    AlsoV { matches: before[i].matches + 1, ..before[i] },
                ),
                None => before.push(AlsoV { path, match_line: line, matches: 1 }),
            }
        }
    }
}

/// How often a path occurs.
pub open spec fn occurrences(tail: Seq<(Seq<char>, i64)>, path: Seq<char>) -> nat
    decreases tail.len(),
{
    if tail.len() == 0 {
        0
    } else {
        occurrences(tail.drop_last(), path) + if tail.last().0 == path {
            1nat
        } else {
            0
        }
    }
}

/// The line of the first occurrence of a path.
pub open spec fn first_line(tail: Seq<(Seq<char>, i64)>, path: Seq<char>) -> Option<i64>
    decreases tail.len(),
{
    if tail.len() == 0 {
        None
    } else {
        match first_line(tail.drop_last(), path) {
            Some(l) => Some(l),
            None => if tail.last().0 == path {
                Some(tail.last().1)
            } else {
                None
            },
        }
    }
}

proof fn lemma_path_index(v: Seq<AlsoV>, path: Seq<char>)
    ensures
        match path_index(v, path) {
            Some(i) => 0 <= i < v.len() && v[i].path == path,
            None => forall|j: int| 0 <= j < v.len() ==> (#[trigger] v[j]).path != path,
        },
    decreases v.len(),
{
    if v.len() > 0 {
        let u = v.drop_last();
        lemma_path_index(u, path);
        assert forall|j: int| 0 <= j < u.len() implies u[j] == #[trigger] v[j] by {}
    }
}

proof fn lemma_path_index_stays(v: Seq<AlsoV>, path: Seq<char>, i: int)
    requires
        0 <= i <= v.len(),
        path_index(v.take(i), path) is Some,
    ensures
        path_index(v, path) == path_index(v.take(i), path),
    decreases v.len() - i,
{
    if i < v.len() {
        assert(v.take(i + 1).drop_last() =~= v.take(i));
        lemma_path_index_stays(v, path, i + 1);
    } else {
        assert(v.take(i) =~= v);
    }
}

/// What is pointed at: each file once; no file that is shown already; the line of its
/// first occurrence; as many matches as it has occurrences; and every file below the
/// window that is not shown.
pub proof fn law_pointers_collapse_by_file(head: Seq<Seq<char>>, tail: Seq<(Seq<char>, i64)>)
    ensures
        ({
            let out = also_matched(head, tail);
            &&& forall|i: int, j: int|
                0 <= i < j < out.len() ==> (#[trigger] out[i]).path != (#[trigger] out[j]).path
            &&& forall|i: int|
                0 <= i < out.len() ==> !head.contains((#[trigger] out[i]).path) && first_line(
                    tail,
                    out[i].path,
                ) == Some(out[i].match_line) && out[i].matches == occurrences(tail, out[i].path)
                    && out[i].matches >= 1
            &&& forall|k: int|
                0 <= k < tail.len() && !head.contains((#[trigger] tail[k]).0) ==> path_index(
                    out,
                    tail[k].0,
                ) is Some
        }),
    decreases tail.len(),
{
    if tail.len() > 0 {
        let init = tail.drop_last();
        law_pointers_collapse_by_file(head, init);
        let before = also_matched(head, init);
        let out = also_matched(head, tail);
        let (path, line) = tail.last();
        lemma_path_index(before, path);
        assert forall|q: Seq<char>| path_index(before, q) is None implies #[trigger] first_line(
            init,
            q,
        ) is None || head.contains(q) by {
            lemma_no_line(head, init, q);
        }
        assert forall|q: Seq<char>| #[trigger] first_line(init, q) is None implies occurrences(
            init,
            q,
        ) == 0 by {
            lemma_no_occurrence(init, q);
        }
        assert forall|i: int, j: int| 0 <= i < j < out.len() implies (#[trigger] out[i]).path != (
        #[trigger] out[j]).path by {
            if i < before.len() {
                assert(out[i].path == before[i].path);
            }
            if j < before.len() {
                assert(out[j].path == before[j].path);
            }
        }
        assert forall|i: int| 0 <= i < out.len() implies !head.contains((#[trigger] out[i]).path)
            && first_line(tail, out[i].path) == Some(out[i].match_line) && out[i].matches
            == occurrences(tail, out[i].path) && out[i].matches >= 1 by {
            if i < before.len() {
                assert(out[i].path == before[i].path);
                assert(out[i].match_line == before[i].match_line);
                if path_index(before, path) == Some(i) && !head.contains(path) {
                } else if before[i].path == path {
                    let k = path_index(before, path)->0;
                    assert(before[k].path == before[i].path);
                    assert(k == i);
                }
            } else {
                assert(out[i].path == path);
                assert(first_line(init, path) is None);
            }
        }
        assert forall|k: int|
            0 <= k < tail.len() && !head.contains((#[trigger] tail[k]).0) implies path_index(
            out,
            tail[k].0,
        ) is Some by {
            let q = tail[k].0;
            lemma_path_index(out, q);
            if k < init.len() {
                assert(init[k] == tail[k]);
                lemma_path_index(before, q);
                let b = path_index(before, q)->0;
                assert(out[b].path == q);
            } else {
                match path_index(before, path) {
                    Some(b) => {
                        assert(out[b].path == q);
                    },
                    None => {
                        assert(out[before.len() as int].path == q);
                    },
                }
            }
        }
    }
}

/// The position of the first occurrence of a path.
pub open spec fn first_at(tail: Seq<(Seq<char>, i64)>, path: Seq<char>) -> Option<int>
    decreases tail.len(),
{
    if tail.len() == 0 {
        None
    } else {
        match first_at(tail.drop_last(), path) {
            Some(k) => Some(k),
            None => if tail.last().0 == path {
                Some(tail.len() - 1)
            } else {
                None
            },
        }
    }
}

proof fn lemma_first_at(tail: Seq<(Seq<char>, i64)>, path: Seq<char>)
    ensures
        match first_at(tail, path) {
            Some(k) => 0 <= k < tail.len() && tail[k].0 == path && first_line(tail, path) == Some(
                tail[k].1,
            ),
            None => first_line(tail, path) is None,
        },
    decreases tail.len(),
{
    if tail.len() > 0 {
        lemma_first_at(tail.drop_last(), path);
    }
}

/// The pointers come in the order in which their files first appear below the window, which
/// is the order of their best hits.
pub proof fn law_pointers_come_in_rank_order(head: Seq<Seq<char>>, tail: Seq<(Seq<char>, i64)>)
    ensures
        ({
            let out = also_matched(head, tail);
            &&& forall|i: int|
                0 <= i < out.len() ==> (first_at(tail, (#[trigger] out[i]).path) matches Some(k)
                    && 0 <= k < tail.len() && tail[k] == (out[i].path, out[i].match_line))
            &&& forall|i: int, j: int|
                0 <= i < j < out.len() ==> first_at(tail, (#[trigger] out[i]).path)->0 < first_at(
                    tail,
                    (#[trigger] out[j]).path,
                )->0
        }),
    decreases tail.len(),
{
    law_pointers_collapse_by_file(head, tail);
    let out = also_matched(head, tail);
    assert forall|i: int| 0 <= i < out.len() implies (first_at(tail, (
    #[trigger] out[i]).path) matches Some(k) && 0 <= k < tail.len() && tail[k] == (
        out[i].path,
        out[i].match_line,
    )) by {
        lemma_first_at(tail, out[i].path);
    }
    if tail.len() > 0 {
        let init = tail.drop_last();
        let before = also_matched(head, init);
        law_pointers_come_in_rank_order(head, init);
        lemma_path_index(before, tail.last().0);
        assert forall|i: int, j: int| 0 <= i < j < out.len() implies first_at(tail, (
        #[trigger] out[i]).path)->0 < first_at(tail, (#[trigger] out[j]).path)->0 by {
            assert(out[i].path == before[i].path);
            assert(first_at(init, before[i].path) is Some);
            if j < before.len() {
                assert(out[j].path == before[j].path);
                assert(first_at(init, before[j].path) is Some);
            } else {
                assert(first_at(tail, out[j].path) is Some);
                assert(first_at(init, out[j].path) is None) by {
                    if first_at(init, out[j].path) is Some {
                        lemma_first_at(init, out[j].path);
                        lemma_no_line(head, init, out[j].path);
                    }
                }
            }
        }
    }
}

proof fn lemma_no_occurrence(tail: Seq<(Seq<char>, i64)>, path: Seq<char>)
    requires
        first_line(tail, path) is None,
    ensures
        occurrences(tail, path) == 0,
    decreases tail.len(),
{
    if tail.len() > 0 {
        lemma_no_occurrence(tail.drop_last(), path);
    }
}

proof fn lemma_no_line(head: Seq<Seq<char>>, tail: Seq<(Seq<char>, i64)>, path: Seq<char>)
    requires
        path_index(also_matched(head, tail), path) is None,
    ensures
        first_line(tail, path) is None || head.contains(path),
    decreases tail.len(),
{
    if tail.len() > 0 && !head.contains(path) {
        let init = tail.drop_last();
        let before = also_matched(head, init);
        let out = also_matched(head, tail);
        let (last, line) = tail.last();
        lemma_path_index(out, path);
        lemma_path_index(before, path);
        lemma_path_index(before, last);
        if path_index(before, path) is Some {
            let b = path_index(before, path)->0;
            assert(out[b].path == path);
        }
        lemma_no_line(head, init, path);
        if last == path {
            match path_index(before, last) {
                Some(b) => {
                    assert(out[b].path == path);
                },
                None => {
                    assert(out[before.len() as int].path == path);
                },
            }
        }
    }
}

/// Matches are counted and no count is above `n`.
spec fn matches_within(v: Seq<AlsoMatched>, n: int) -> bool {
    forall|i: int| 0 <= i < v.len() ==> 0 <= (#[trigger] v[i]).matches <= n
}

fn point_at(out: &mut Vec<AlsoMatched>, path: &str, line: i64, Ghost(n): Ghost<int>)
    requires
        matches_within(old(out)@, n),
        0 <= n < i64::MAX,
    ensures
        also_view(final(out)@) == match path_index(also_view(old(out)@), path@) {
            Some(i) => also_view(old(out)@).update(
                i,
                AlsoV {
                    matches: also_view(old(out)@)[i].matches + 1,
                    ..also_view(old(out)@)[i]
                },
            ),
            None => also_view(old(out)@).push(
                AlsoV { path: path@, match_line: line, matches: 1 },
            ),
        },
        matches_within(final(out)@, n + 1),
{
    let ghost start = out@;
    let ghost all = also_view(start);
    let count: usize = out.len();
    let mut i: usize = 0;
    while i < count
        invariant
            out@ == start,
            start == old(out)@,
            all == also_view(start),
            count == start.len(),
            i <= count,
            path_index(all.take(i as int), path@) is None,
            matches_within(start, n),
            0 <= n < i64::MAX,
        decreases count - i,
    {
        assert(all.take(i + 1).drop_last() =~= all.take(i as int));
        assert(all[i as int] == out@[i as int]@);
        if str_eq(out[i].path.as_str(), path) {
            proof {
                lemma_path_index_stays(all, path@, i + 1);
            }
            let changed = AlsoMatched {
                path: out[i].path.clone(),
                match_line: out[i].match_line,
                matches: out[i].matches + 1,
            };
            out.set(i, changed);
            assert(also_view(out@) =~= all.update(i as int, changed@));
            return;
        }
        i = i + 1;
    }
    assert(all.take(count as int) =~= all);
    let fresh = AlsoMatched { path: path.to_owned(), match_line: line, matches: 1 };
    out.push(fresh);
    assert(also_view(out@) =~= all.push(fresh@));
}

/// Collapses the rows below the window into one pointer per file, in rank order.
pub fn build_also_matched(head_paths: &Vec<String>, tail: &Vec<(String, i64)>) -> (r: Vec<
    AlsoMatched,
>)
    requires
        tail@.len() <= i64::MAX,
    ensures
        also_view(r@) == also_matched(strs(head_paths@), pointers(tail@)),
{
    let ghost head = strs(head_paths@);
    let ghost all = pointers(tail@);
    let mut out: Vec<AlsoMatched> = Vec::new();
    assert(also_view(out@) =~= Seq::empty());
    assert(all.take(0) =~= Seq::empty());
    for i in 0..tail.len()
        invariant
            head == strs(head_paths@),
            all == pointers(tail@),
            tail@.len() <= i64::MAX,
            also_view(out@) == also_matched(head, all.take(i as int)),
            matches_within(out@, i as int),
    {
        assert(all.take(i + 1).drop_last() =~= all.take(i as int));
        assert(all[i as int] == (tail@[i as int].0@, tail@[i as int].1));
        if !has_text(head_paths, tail[i].0.as_str()) {
            point_at(&mut out, tail[i].0.as_str(), tail[i].1, Ghost(i as int));
        }
    }
    assert(all.take(all.len() as int) =~= all);
    out
}

// ---- Bodies ------------------------------------------------------------------------------

/// The body that a result gets when `spent` characters are spent already: none once the
/// budget is spent, else the window cut to `cap` characters.
pub open spec fn body_for(snippet: Seq<char>, spent: int, cap: int, budget: int) -> Seq<char> {
    if spent >= budget {
        Seq::empty()
    } else {
        summary(snippet, cap)
    }
}

/// The excerpt that goes with a body: the head of the window where there is no body.
pub open spec fn excerpt_for(body: Seq<char>, snippet: Seq<char>) -> Seq<char> {
    if body.len() == 0 {
        summary(snippet, SUMMARY_CHAR_LIMIT as int)
    } else {
        Seq::empty()
    }
}

/// The characters spent on the bodies of `snippets`.
pub open spec fn spent_on(snippets: Seq<Seq<char>>, cap: int, budget: int) -> int
    decreases snippets.len(),
{
    if snippets.len() == 0 {
        0
    } else {
        let before = spent_on(snippets.drop_last(), cap, budget);
        before + body_for(snippets.last(), before, cap, budget).len()
    }
}

/// All bodies together exceed the budget by less than one body with its ellipsis.
pub proof fn law_bodies_stay_within_budget(snippets: Seq<Seq<char>>, cap: int, budget: int)
    requires
        cap >= 0,
        budget >= 0,
    ensures
        0 <= spent_on(snippets, cap, budget) <= budget + cap,
    decreases snippets.len(),
{
    if snippets.len() > 0 {
        let init = snippets.drop_last();
        law_bodies_stay_within_budget(init, cap, budget);
        super::format::law_summary_is_a_bounded_beginning(snippets.last(), cap);
    }
}

struct Rendered {
    body: String,
    excerpt: String,
    truncated: bool,
    spent: usize,
}

/// The length of the whole text; a negative one counts as none.
pub open spec fn full_len(full_chars: i64) -> nat {
    if full_chars > 0 {
        full_chars as nat
    } else {
        0
    }
}

/// A body is cut short where it is not the whole window, or the window not the whole text.
pub open spec fn cut_short(body: Seq<char>, snippet: Seq<char>, full_chars: i64) -> bool {
    body != snippet || body.len() < full_len(full_chars)
}

/// No truncation is silent: a body that is not marked is the whole window and the window
/// the whole text. A dropped body is marked and leaves an excerpt, and a body that is there
/// comes without one.
pub proof fn law_no_truncation_is_silent(
    snippet: Seq<char>,
    full_chars: i64,
    spent: int,
    cap: int,
    budget: int,
)
    ensures
        ({
            let body = body_for(snippet, spent, cap, budget);
            let excerpt = excerpt_for(body, snippet);
            &&& !cut_short(body, snippet, full_chars) ==> body == snippet && body.len()
                >= full_len(full_chars)
            &&& spent >= budget && snippet.len() > 0 ==> body.len() == 0 && cut_short(
                body,
                snippet,
                full_chars,
            ) && excerpt.len() > 0
            &&& body.len() > 0 ==> excerpt.len() == 0
        }),
{
    super::format::law_summary_is_a_bounded_beginning(snippet, SUMMARY_CHAR_LIMIT as int);
}

fn render_body(snippet: &str, full_chars: i64, spent: usize, cap: usize, budget: usize) -> (r:
    Rendered)
    requires
        spent <= budget + cap + 1,
        cap <= 100_000,
        budget <= 100_000,
    ensures
        r.body@ == body_for(snippet@, spent as int, cap as int, budget as int),
        r.excerpt@ == excerpt_for(r.body@, snippet@),
        r.truncated == cut_short(r.body@, snippet@, full_chars),
        r.spent == spent + r.body@.len(),
        r.spent <= budget + cap + 1,
{
    let body = if spent >= budget {
        let b = String::new();
        assert(b@ =~= Seq::empty());
        b
    } else {
        summarize(snippet, cap)
    };
    proof {
        super::format::law_summary_is_a_bounded_beginning(snippet@, cap as int);
    }
    let n: usize = char_count(body.as_str());
    let excerpt = if n == 0 {
        summarize(snippet, SUMMARY_CHAR_LIMIT)
    } else {
        let e = String::new();
        assert(e@ =~= Seq::empty());
        e
    };
    let shorter = full_chars > 0 && (n as u64) < full_chars as u64;
    let truncated = shorter || !str_eq(body.as_str(), snippet);
    Rendered { body, excerpt, truncated, spent: spent + n }
}

/// How many of `n` rows are shown.
pub open spec fn shown(n: nat, limit: i64) -> int {
    if (limit as int) < n {
        limit as int
    } else {
        n as int
    }
}

/// The rows to show and the rows below them.
pub fn split_at_limit<T>(rows: Vec<T>, limit: i64) -> (r: (Vec<T>, Vec<T>))
    requires
        limit >= 0,
    ensures
        ({
            let n = shown(rows@.len(), limit);
            &&& r.0@ == rows@.take(n)
            &&& r.1@ == rows@.skip(n)
        }),
{
    let mut head = rows;
    let ghost all = head@;
    let n: usize = if (limit as u64) < head.len() as u64 {
        limit as usize
    } else {
        head.len()
    };
    let tail = head.split_off(n);
    assert(head@ =~= all.take(n as int));
    assert(tail@ =~= all.skip(n as int));
    (head, tail)
}

// ---- Design documents --------------------------------------------------------------------

/// A matching section of a design document.
#[derive(Debug)]
pub struct DesignDocRow {
    pub doc_path: String,
    pub heading_path: String,
    pub line_start: i64,
    pub line_end: i64,
    pub snippet: String,
    pub full_chars: i64,
    pub rank: u64,
    pub match_line: i64,
}

pub open spec fn design_snippets(rows: Seq<DesignDocRow>) -> Seq<Seq<char>> {
    Seq::new(rows.len(), |i: int| rows[i].snippet@)
}

/// The characters of the whole sections.
pub open spec fn design_full(rows: Seq<DesignDocRow>) -> nat
    decreases rows.len(),
{
    if rows.len() == 0 {
        0
    } else {
        design_full(rows.drop_last()) + full_len(rows.last().full_chars)
    }
}

proof fn lemma_design_full_take(rows: Seq<DesignDocRow>, i: int)
    requires
        0 <= i < rows.len(),
    ensures
        design_full(rows.take(i + 1)) == design_full(rows.take(i)) + full_len(rows[i].full_chars),
        design_full(rows.take(i + 1)) <= design_full(rows),
    decreases rows.len() - i,
{
    assert(rows.take(i + 1).drop_last() =~= rows.take(i));
    if i + 1 < rows.len() {
        lemma_design_full_take(rows, i + 1);
    } else {
        assert(rows.take(i + 1) =~= rows);
    }
}

/// A result says what its row says, with the body that `spent` leaves room for.
pub open spec fn design_result_of(r: DesignDocResult, row: DesignDocRow, spent: int) -> bool {
    &&& r.doc_path@ == row.doc_path@
    &&& r.heading_path@ == row.heading_path@
    &&& r.line_start == row.line_start
    &&& r.line_end == row.line_end
    &&& r.body@ == body_for(
        row.snippet@,
        spent,
        DESIGN_DOC_BODY_CHAR_LIMIT as int,
        DESIGN_DOC_TOTAL_BODY_BUDGET as int,
    )
    &&& r.body_excerpt@ == excerpt_for(r.body@, row.snippet@)
    &&& r.body_truncated == cut_short(r.body@, row.snippet@, row.full_chars)
    &&& r.match_line == row.match_line
    &&& r.rank == Some(row.rank)
}

/// The paths and lines of rows below the window.
pub open spec fn design_pointers(rows: Seq<DesignDocRow>) -> Seq<(Seq<char>, i64)> {
    Seq::new(rows.len(), |i: int| (rows[i].doc_path@, rows[i].match_line))
}

pub open spec fn design_paths(rows: Seq<DesignDocRow>) -> Seq<Seq<char>> {
    Seq::new(rows.len(), |i: int| rows[i].doc_path@)
}

/// The envelope of design document sections: the rows within the limit with their bodies,
/// and pointers to the files below.
pub fn finish_design_doc_envelope(
    rows: Vec<DesignDocRow>,
    limit: i64,
    total: i64,
    query_broadened: bool,
) -> (r: ToolEnvelope<DesignDocResult>)
    requires
        limit >= 0,
        rows@.len() <= i64::MAX,
        design_full(rows@.take(shown(rows@.len(), limit))) <= u64::MAX,
    ensures
        ({
            let n = shown(rows@.len(), limit);
            let head = rows@.take(n);
            &&& r.results@.len() == n
            &&& forall|i: int|
                0 <= i < n ==> design_result_of(
                    #[trigger] r.results@[i],
                    rows@[i],
                    spent_on(
                        design_snippets(head).take(i),
                        DESIGN_DOC_BODY_CHAR_LIMIT as int,
                        DESIGN_DOC_TOTAL_BODY_BUDGET as int,
                    ),
                )
            &&& r.total_matched == total
            &&& r.returned == n
            &&& r.tool@ == "find_design_doc"@
            &&& r.query_broadened == query_broadened
            &&& r.corpus_empty is None
            &&& r.corpus_indexed_through is None
            &&& r.returned_full_tokens == design_full(head) / 4
            &&& r.neighbourhood_terms@.len() == 0
            &&& r.retrieval_shape is None
            &&& also_view(r.also_matched@) == also_matched(
                design_paths(head),
                design_pointers(rows@.skip(n)),
            )
        }),
{
    let ghost all = rows@;
    let (head, tail) = split_at_limit(rows, limit);
    let ghost n = head@.len() as int;
    let ghost snippets = design_snippets(head@);
    let mut results: Vec<DesignDocResult> = Vec::new();
    let mut paths: Vec<String> = Vec::new();
    let mut spent: usize = 0;
    let mut full: u64 = 0;
    assert(snippets.take(0) =~= Seq::empty());
    for i in 0..head.len()
        invariant
            snippets == design_snippets(head@),
            results@.len() == i,
            paths@.len() == i,
            spent == spent_on(
                snippets.take(i as int),
                DESIGN_DOC_BODY_CHAR_LIMIT as int,
                DESIGN_DOC_TOTAL_BODY_BUDGET as int,
            ),
            spent <= DESIGN_DOC_TOTAL_BODY_BUDGET + DESIGN_DOC_BODY_CHAR_LIMIT + 1,
            full == design_full(head@.take(i as int)),
            design_full(head@) <= u64::MAX,
            forall|j: int| 0 <= j < i ==> (#[trigger] paths@[j])@ == head@[j].doc_path@,
            forall|j: int|
                0 <= j < i ==> design_result_of(
                    #[trigger] results@[j],
                    head@[j],
                    spent_on(
                        snippets.take(j),
                        DESIGN_DOC_BODY_CHAR_LIMIT as int,
                        DESIGN_DOC_TOTAL_BODY_BUDGET as int,
                    ),
                ),
    {
        let row = &head[i];
        proof {
            lemma_design_full_take(head@, i as int);
            assert(snippets.take(i + 1).drop_last() =~= snippets.take(i as int));
            assert(snippets[i as int] == row.snippet@);
        }
        let out = render_body(
            row.snippet.as_str(),
            row.full_chars,
            spent,
            DESIGN_DOC_BODY_CHAR_LIMIT,
            DESIGN_DOC_TOTAL_BODY_BUDGET,
        );
        spent = out.spent;
        if row.full_chars > 0 {
            full = full + row.full_chars as u64;
        }
        paths.push(row.doc_path.clone());
        results.push(
            DesignDocResult {
                doc_path: row.doc_path.clone(),
                heading_path: row.heading_path.clone(),
                line_start: row.line_start,
                line_end: row.line_end,
                body: out.body,
                body_excerpt: out.excerpt,
                body_truncated: out.truncated,
                match_line: row.match_line,
                rank: Some(row.rank),
            },
        );
    }
    assert(head@.take(n) =~= head@);
    let mut below: Vec<(String, i64)> = Vec::new();
    for i in 0..tail.len()
        invariant
            below@.len() == i,
            forall|j: int|
                0 <= j < i ==> (#[trigger] below@[j]).0@ == tail@[j].doc_path@ && below@[j].1
                    == tail@[j].match_line,
    {
        below.push((tail[i].doc_path.clone(), tail[i].match_line));
    }
    assert(pointers(below@) =~= design_pointers(tail@));
    assert(strs(paths@) =~= design_paths(head@));
    let also = build_also_matched(&paths, &below);
    let mut env = envelope(results, total, "find_design_doc", query_broadened, full / 4);
    env.also_matched = also;
    env
}

// ---- Source code -------------------------------------------------------------------------

/// Where a chunk stands in the file as it is now.
#[derive(Debug)]
pub struct ChunkLocation {
    pub line_start: i64,
    pub line_end: i64,
    pub match_line: i64,
    /// How current the lines are.
    pub status: String,
    pub line_shift: Option<i64>,
}

/// A matching chunk of source code, with its place in the file.
#[derive(Debug)]
pub struct CodeRow {
    pub repo_path: Option<String>,
    pub path: String,
    pub language: Option<String>,
    pub snippet: String,
    pub full_chars: i64,
    pub rank: u64,
    pub commit_sha: Option<String>,
    pub commit_summary: Option<String>,
    pub location: ChunkLocation,
}

/// A matching chunk below the window.
#[derive(Debug)]
pub struct CodePointer {
    pub repo_path: Option<String>,
    pub path: String,
    pub match_line: i64,
}

/// A path that can be opened: below its repository, where that is known.
pub open spec fn openable(repo: Option<Seq<char>>, path: Seq<char>) -> Seq<char> {
    match repo {
        Some(root) => trim_end_by(root, slash()) + seq!['/'] + path,
        None => path,
    }
}

/// A path that can be opened.
pub fn openable_path(repo: &Option<String>, path: &str) -> (r: String)
    ensures
        r@ == openable(opt_str(*repo), path@),
{
    match repo {
        Some(root) => {
            let mut out = trim_end_chars(&to_chars(root.as_str()), is_slash, Ghost(slash()));
            out.push('/');
            append_str(&mut out, path);
            assert(out@ =~= trim_end_by(root@, slash()) + seq!['/'] + path@);
            from_chars(&out)
        },
        None => path.to_owned(),
    }
}

pub open spec fn code_snippets(rows: Seq<CodeRow>) -> Seq<Seq<char>> {
    Seq::new(rows.len(), |i: int| rows[i].snippet@)
}

/// The characters of the whole chunks.
pub open spec fn code_full(rows: Seq<CodeRow>) -> nat
    decreases rows.len(),
{
    if rows.len() == 0 {
        0
    } else {
        code_full(rows.drop_last()) + full_len(rows.last().full_chars)
    }
}

proof fn lemma_code_full_take(rows: Seq<CodeRow>, i: int)
    requires
        0 <= i < rows.len(),
    ensures
        code_full(rows.take(i + 1)) == code_full(rows.take(i)) + full_len(rows[i].full_chars),
        code_full(rows.take(i + 1)) <= code_full(rows),
    decreases rows.len() - i,
{
    assert(rows.take(i + 1).drop_last() =~= rows.take(i));
    if i + 1 < rows.len() {
        lemma_code_full_take(rows, i + 1);
    } else {
        assert(rows.take(i + 1) =~= rows);
    }
}

/// A result says what its row says, at the place where the chunk stands now, with the
/// body that `spent` leaves room for.
pub open spec fn code_result_of(r: CodeResult, row: CodeRow, spent: int) -> bool {
    &&& opt_str(r.repo_path) == opt_str(row.repo_path)
    &&& r.path@ == row.path@
    &&& r.line_start == row.location.line_start
    &&& r.line_end == row.location.line_end
    &&& opt_str(r.language) == opt_str(row.language)
    &&& r.body@ == body_for(
        row.snippet@,
        spent,
        SOURCE_BODY_CHAR_LIMIT as int,
        SOURCE_TOTAL_BODY_BUDGET as int,
    )
    &&& r.body_excerpt@ == excerpt_for(r.body@, row.snippet@)
    &&& r.body_truncated == cut_short(r.body@, row.snippet@, row.full_chars)
    &&& r.match_line == row.location.match_line
    &&& r.location@ == row.location.status@
    &&& r.line_shift == row.location.line_shift
    &&& opt_str(r.commit_sha) == opt_str(row.commit_sha)
    &&& opt_str(r.commit_summary) == opt_str(row.commit_summary)
    &&& r.rank == Some(row.rank)
}

pub open spec fn code_paths(rows: Seq<CodeRow>) -> Seq<Seq<char>> {
    Seq::new(rows.len(), |i: int| openable(opt_str(rows[i].repo_path), rows[i].path@))
}

pub open spec fn code_pointers(rows: Seq<CodePointer>) -> Seq<(Seq<char>, i64)> {
    Seq::new(
        rows.len(),
        |i: int| (openable(opt_str(rows[i].repo_path), rows[i].path@), rows[i].match_line),
    )
}

/// The envelope of source chunks: `head` are the rows to show and `tail` those below.
pub fn finish_code_envelope(
    head: Vec<CodeRow>,
    tail: Vec<CodePointer>,
    total: i64,
    query_broadened: bool,
) -> (r: ToolEnvelope<CodeResult>)
    requires
        head@.len() <= i64::MAX,
        tail@.len() <= i64::MAX,
        code_full(head@) <= u64::MAX,
    ensures
        r.results@.len() == head@.len(),
        forall|i: int|
            0 <= i < head@.len() ==> code_result_of(
                #[trigger] r.results@[i],
                head@[i],
                spent_on(
                    code_snippets(head@).take(i),
                    SOURCE_BODY_CHAR_LIMIT as int,
                    SOURCE_TOTAL_BODY_BUDGET as int,
                ),
            ),
        r.total_matched == total,
        r.returned == head@.len(),
        r.tool@ == "find_code"@,
        r.query_broadened == query_broadened,
        r.corpus_empty is None,
        r.corpus_indexed_through is None,
        r.returned_full_tokens == code_full(head@) / 4,
        r.neighbourhood_terms@.len() == 0,
        r.retrieval_shape is None,
        also_view(r.also_matched@) == also_matched(code_paths(head@), code_pointers(tail@)),
{
    let ghost all = head@;
    let ghost snippets = code_snippets(all);
    let mut results: Vec<CodeResult> = Vec::new();
    let mut paths: Vec<String> = Vec::new();
    let mut spent: usize = 0;
    let mut full: u64 = 0;
    assert(snippets.take(0) =~= Seq::empty());
    for i in 0..head.len()
        invariant
            all == head@,
            snippets == code_snippets(head@),
            results@.len() == i,
            paths@.len() == i,
            spent == spent_on(
                snippets.take(i as int),
                SOURCE_BODY_CHAR_LIMIT as int,
                SOURCE_TOTAL_BODY_BUDGET as int,
            ),
            spent <= SOURCE_TOTAL_BODY_BUDGET + SOURCE_BODY_CHAR_LIMIT + 1,
            full == code_full(head@.take(i as int)),
            code_full(head@) <= u64::MAX,
            forall|j: int| 0 <= j < i ==> (#[trigger] paths@[j])@ == code_paths(all)[j],
            forall|j: int|
                0 <= j < i ==> code_result_of(
                    #[trigger] results@[j],
                    head@[j],
                    spent_on(
                        snippets.take(j),
                        SOURCE_BODY_CHAR_LIMIT as int,
                        SOURCE_TOTAL_BODY_BUDGET as int,
                    ),
                ),
    {
        let row = &head[i];
        proof {
            lemma_code_full_take(head@, i as int);
            assert(snippets.take(i + 1).drop_last() =~= snippets.take(i as int));
            assert(snippets[i as int] == row.snippet@);
        }
        let out = render_body(
            row.snippet.as_str(),
            row.full_chars,
            spent,
            SOURCE_BODY_CHAR_LIMIT,
            SOURCE_TOTAL_BODY_BUDGET,
        );
        spent = out.spent;
        if row.full_chars > 0 {
            full = full + row.full_chars as u64;
        }
        paths.push(openable_path(&row.repo_path, row.path.as_str()));
        results.push(
            CodeResult {
                repo_path: crate::text::clone_opt(&row.repo_path),
                path: row.path.clone(),
                line_start: row.location.line_start,
                line_end: row.location.line_end,
                language: crate::text::clone_opt(&row.language),
                body: out.body,
                body_excerpt: out.excerpt,
                body_truncated: out.truncated,
                match_line: row.location.match_line,
                location: row.location.status.clone(),
                line_shift: row.location.line_shift,
                commit_sha: crate::text::clone_opt(&row.commit_sha),
                commit_summary: crate::text::clone_opt(&row.commit_summary),
                rank: Some(row.rank),
            },
        );
    }
    assert(all.take(all.len() as int) =~= all);
    let mut below: Vec<(String, i64)> = Vec::new();
    for i in 0..tail.len()
        invariant
            below@.len() == i,
            forall|j: int|
                0 <= j < i ==> ((#[trigger] below@[j]).0@, below@[j].1) == code_pointers(tail@)[j],
    {
        below.push((openable_path(&tail[i].repo_path, tail[i].path.as_str()), tail[i].match_line));
    }
    assert(pointers(below@) =~= code_pointers(tail@));
    assert(strs(paths@) =~= code_paths(all));
    let also = build_also_matched(&paths, &below);
    let mut env = envelope(results, total, "find_code", query_broadened, full / 4);
    env.also_matched = also;
    env
}

// ---- Memory ------------------------------------------------------------------------------

/// The characters of all bodies.
pub open spec fn memory_chars(v: Seq<MemoryResult>) -> nat
    decreases v.len(),
{
    if v.len() == 0 {
        0
    } else {
        memory_chars(v.drop_last()) + v.last().body@.len()
    }
}

proof fn lemma_memory_chars_take(v: Seq<MemoryResult>, i: int)
    requires
        0 <= i < v.len(),
    ensures
        memory_chars(v.take(i + 1)) == memory_chars(v.take(i)) + v[i].body@.len(),
        memory_chars(v.take(i + 1)) <= memory_chars(v),
    decreases v.len() - i,
{
    assert(v.take(i + 1).drop_last() =~= v.take(i));
    if i + 1 < v.len() {
        lemma_memory_chars_take(v, i + 1);
    } else {
        assert(v.take(i + 1) =~= v);
    }
}

/// The envelope of memory entries, whose bodies are returned whole.
pub fn finish_memory_envelope(
    results: Vec<MemoryResult>,
    total: i64,
    query_broadened: bool,
) -> (r: ToolEnvelope<MemoryResult>)
    requires
        results@.len() <= i64::MAX,
        memory_chars(results@) <= u64::MAX,
    ensures
        plain_envelope(
            r,
            results@,
            total,
            "find_memory"@,
            query_broadened,
            memory_chars(results@) as int / 4,
        ),
{
    let mut chars: u64 = 0;
    let ghost all = results@;
    for i in 0..results.len()
        invariant
            all == results@,
            chars == memory_chars(all.take(i as int)),
            memory_chars(all) <= u64::MAX,
    {
        proof {
            lemma_memory_chars_take(all, i as int);
        }
        chars = chars + char_count(results[i].body.as_str()) as u64;
    }
    assert(all.take(all.len() as int) =~= all);
    envelope(results, total, "find_memory", query_broadened, chars / 4)
}

/// Adds what the neighbourhood of a query has to say.
pub fn add_neighbourhood<T>(
    e: &mut ToolEnvelope<T>,
    terms: Vec<String>,
    shape: Option<RetrievalShape>,
)
    ensures
        final(e).neighbourhood_terms == terms,
        final(e).retrieval_shape == shape,
        final(e).results == old(e).results,
        final(e).total_matched == old(e).total_matched,
        final(e).returned == old(e).returned,
        final(e).tool == old(e).tool,
        final(e).query_broadened == old(e).query_broadened,
        final(e).corpus_empty == old(e).corpus_empty,
        final(e).corpus_indexed_through == old(e).corpus_indexed_through,
        final(e).returned_full_tokens == old(e).returned_full_tokens,
        final(e).also_matched == old(e).also_matched,
{
    e.neighbourhood_terms = terms;
    e.retrieval_shape = shape;
}

} // verus!

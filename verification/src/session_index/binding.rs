//! Binding an edge to the commit that captured it, and storing it.
use vstd::prelude::*;

use super::transcript::{is_slash, slash, EdgeV, SessionEdge};
use super::{search_body, search_text, EdgeRow, RowV, SessionIndexStats};
use crate::mcp::fts5::{like_escape, like_escaped};
use crate::paths::{absolute_text, is_absolute, normalize_lexical, normalized, path_text};
use crate::text::{
    append_chars, append_str, from_chars, matches_at, opt_str, slice_chars, str_eq, strs, to_chars,
    trim_end_by, trim_end_chars,
};

verus! {

// ---- Which repository ----------------------------------------------------------------------

/// `s` with slashes in place of backslashes.
pub open spec fn forward_slashes(s: Seq<char>) -> Seq<char> {
    Seq::new(
        s.len(),
        |i: int|
            if s[i] == '\\' {
                '/'
            } else {
                s[i]
            },
    )
}

fn to_forward_slashes(s: &[char]) -> (r: Vec<char>)
    ensures
        r@ == forward_slashes(s@),
{
    let mut r: Vec<char> = Vec::new();
    for i in 0..s.len()
        invariant
            r@ == forward_slashes(s@.take(i as int)),
    {
        if s[i] == '\\' {
            r.push('/');
        } else {
            r.push(s[i]);
        }
        assert(r@ =~= forward_slashes(s@.take(i + 1)));
    }
    assert(s@.take(s@.len() as int) =~= s@);
    r
}

/// A root without the slashes at its end.
pub open spec fn bare_root(root: Seq<char>) -> Seq<char> {
    trim_end_by(root, slash())
}

/// `path` lies below `root`, at a component boundary.
pub open spec fn root_contains(root: Seq<char>, path: Seq<char>) -> bool {
    let r = bare_root(root);
    r.len() > 0 && r.len() + 1 < path.len() && r.is_prefix_of(path) && path[r.len() as int] == '/'
}

/// The innermost root that contains `path`: the longest, and the first of equals.
pub open spec fn innermost(roots: Seq<Seq<char>>, path: Seq<char>) -> Option<int>
    decreases roots.len(),
{
    if roots.len() == 0 {
        None
    } else {
        let before = innermost(roots.drop_last(), path);
        let last = roots.last();
        if root_contains(last, path) && (before matches Some(b) ==> bare_root(last).len()
            > bare_root(roots[b]).len()) {
            Some(roots.len() - 1)
        } else {
            before
        }
    }
}

/// The path of an edit as commits name it, from the root of the file system.
pub open spec fn commit_path(abs: Seq<char>) -> Option<Seq<char>> {
    match normalized(abs) {
        Some(p) => Some(forward_slashes(path_text(p))),
        None => None,
    }
}

/// The root that contains `abs`, and the path below it.
pub open spec fn root_and_rel(
    roots: Seq<Seq<char>>,
    abs: Seq<char>,
) -> Option<(Seq<char>, Seq<char>)> {
    match commit_path(abs) {
        None => None,
        Some(path) => match innermost(roots, path) {
            None => None,
            Some(i) => Some((roots[i], path.skip(bare_root(roots[i]).len() as int + 1))),
        },
    }
}

/// What [`innermost`] finds contains the path, and nothing that contains it is longer.
pub proof fn law_innermost_root_is_the_longest(roots: Seq<Seq<char>>, path: Seq<char>)
    ensures
        match innermost(roots, path) {
            Some(i) => {
                &&& 0 <= i < roots.len()
                &&& root_contains(roots[i], path)
                &&& forall|j: int|
                    0 <= j < roots.len() && root_contains(#[trigger] roots[j], path) ==> bare_root(
                        roots[j],
                    ).len() <= bare_root(roots[i]).len()
                &&& forall|j: int|
                    0 <= j < i && root_contains(#[trigger] roots[j], path) ==> bare_root(
                        roots[j],
                    ).len() < bare_root(roots[i]).len()
            },
            None => forall|j: int| 0 <= j < roots.len() ==> !root_contains(#[trigger] roots[j], path),
        },
    decreases roots.len(),
{
    if roots.len() > 0 {
        let init = roots.drop_last();
        law_innermost_root_is_the_longest(init, path);
        assert forall|j: int| 0 <= j < init.len() implies init[j] == #[trigger] roots[j] by {}
    }
}

/// Which known repository root contains `abs_path`, and the path below it. The innermost
/// root wins.
pub fn repo_root_and_rel<'a>(roots: &'a Vec<String>, abs_path: &str) -> (r: Option<
    (&'a str, String),
>)
    ensures
        match r {
            Some((root, rel)) => root_and_rel(strs(roots@), abs_path@) == Some((root@, rel@)),
            None => root_and_rel(strs(roots@), abs_path@) is None,
        },
{
    let norm = match normalize_lexical(abs_path) {
        Some(p) => p,
        None => {
            return None;
        },
    };
    let path = to_forward_slashes(&to_chars(norm.text().as_str()));
    let ghost all = strs(roots@);
    let mut best: Option<usize> = None;
    let mut best_len: usize = 0;
    for i in 0..roots.len()
        invariant
            all == strs(roots@),
            match best {
                Some(b) => innermost(all.take(i as int), path@) == Some(b as int) && b < i
                    && best_len == bare_root(all[b as int]).len() && root_contains(
                    all[b as int],
                    path@,
                ),
                None => innermost(all.take(i as int), path@) is None,
            },
    {
        assert(all.take(i + 1).drop_last() =~= all.take(i as int));
        assert(all[i as int] == roots@[i as int]@);
        let r = trim_end_chars(&to_chars(roots[i].as_str()), is_slash, Ghost(slash()));
        assert(r@ == bare_root(all[i as int]));
        let fits = r.len() > 0 && r.len() < path.len() && path.len() - r.len() > 1 && matches_at(
            &path,
            &r,
            0,
        ) && path[r.len()] == '/';
        assert(fits == root_contains(all[i as int], path@)) by {
            if r@.len() < path@.len() {
                assert(r@.is_prefix_of(path@) == (path@.subrange(0, r@.len() as int) == r@));
            }
        }
        let better = match best {
            Some(_) => r.len() > best_len,
            None => true,
        };
        if fits && better {
            best = Some(i);
            best_len = r.len();
        }
    }
    assert(all.take(all.len() as int) =~= all);
    match best {
        None => None,
        Some(b) => {
            assert(best_len + 1 < path.len());
            let rel = slice_chars(&path, best_len + 1, path.len());
            assert(rel@ =~= path@.skip(best_len + 1));
            Some((roots[b].as_str(), from_chars(&rel)))
        },
    }
}

/// The path to look up for an edit: the raw path where it is absolute, and otherwise the
/// stored path below the working directory.
pub open spec fn lookup_path(e: EdgeV) -> Option<Seq<char>> {
    if absolute_text(e.raw_abs_path) {
        Some(e.raw_abs_path)
    } else {
        match e.cwd {
            Some(c) => Some(trim_end_by(c, slash()) + seq!['/'] + e.file_path),
            None => None,
        }
    }
}

/// The path to look up for an edit.
pub fn absolute_target(edge: &SessionEdge) -> (r: Option<String>)
    ensures
        opt_str(r) == lookup_path(edge@),
{
    if is_absolute(edge.raw_abs_path.as_str()) {
        return Some(edge.raw_abs_path.clone());
    }
    match &edge.cwd {
        None => None,
        Some(c) => {
            let mut out = trim_end_chars(&to_chars(c.as_str()), is_slash, Ghost(slash()));
            out.push('/');
            append_str(&mut out, edge.file_path.as_str());
            assert(out@ =~= trim_end_by(c@, slash()) + seq!['/'] + edge.file_path@);
            Some(from_chars(&out))
        },
    }
}

/// The search for the capturing commit: the repository, and a `LIKE` pattern that finds
/// the path as a whole quoted element of the list of changed files.
#[derive(Debug)]
pub struct CommitProbe {
    pub repo_path: String,
    pub needle: String,
}

/// The pattern that finds `rel` between quotes, its wildcards taken literally.
pub open spec fn quoted_pattern(rel: Seq<char>) -> Seq<char> {
    seq!['%', '"'] + like_escaped(rel) + seq!['"', '%']
}

/// The quoted pattern is the pattern of a substring search for the path in quotes, which
/// finds it whatever the case of its ASCII letters.
pub proof fn law_quoted_pattern_searches_the_quoted_path(rel: Seq<char>, files: Seq<char>)
    ensures
        quoted_pattern(rel) == crate::mcp::fts5::substring_pattern(seq!['"'] + rel + seq!['"']),
        crate::mcp::fts5::like_matches(quoted_pattern(rel), files) <==> crate::text::has_sub(
            crate::text::ascii_lower(files),
            crate::text::ascii_lower(seq!['"'] + rel + seq!['"']),
        ),
{
    crate::mcp::fts5::law_like_pattern_is_substring_search(seq!['"'] + rel + seq!['"'], files);
    lemma_escaped_concat(seq!['"'], rel + seq!['"']);
    lemma_escaped_concat(rel, seq!['"']);
    assert(seq!['"'] + rel + seq!['"'] =~= seq!['"'] + (rel + seq!['"']));
    reveal_with_fuel(like_escaped, 2);
    assert(seq!['"'].drop_first() =~= Seq::<char>::empty());
    assert(like_escaped(seq!['"']) =~= seq!['"']);
    assert(quoted_pattern(rel) =~= crate::mcp::fts5::substring_pattern(
        seq!['"'] + rel + seq!['"'],
    ));
}

proof fn lemma_escaped_concat(a: Seq<char>, b: Seq<char>)
    ensures
        like_escaped(a + b) == like_escaped(a) + like_escaped(b),
    decreases a.len(),
{
    if a.len() == 0 {
        assert(a + b =~= b);
        assert(like_escaped(a) + like_escaped(b) =~= like_escaped(b));
    } else {
        lemma_escaped_concat(a.drop_first(), b);
        assert((a + b).drop_first() =~= a.drop_first() + b);
        assert(like_escaped(a + b) =~= like_escaped(a) + like_escaped(b));
    }
}

/// The search for the commit that captured an edit of `abs`, if a known repository
/// contains it.
pub fn commit_probe(roots: &Vec<String>, abs: &str) -> (r: Option<CommitProbe>)
    ensures
        match r {
            Some(p) => root_and_rel(strs(roots@), abs@) matches Some((root, rel)) && p.repo_path@
                == root && p.needle@ == quoted_pattern(rel),
            None => root_and_rel(strs(roots@), abs@) is None,
        },
{
    match repo_root_and_rel(roots, abs) {
        None => None,
        Some((root, rel)) => {
            let mut out: Vec<char> = Vec::new();
            out.push('%');
            out.push('"');
            append_chars(&mut out, &like_escape(rel.as_str()));
            out.push('"');
            out.push('%');
            assert(out@ =~= quoted_pattern(rel@));
            Some(CommitProbe { repo_path: root.to_owned(), needle: from_chars(&out) })
        },
    }
}

// ---- Storing -------------------------------------------------------------------------------

/// What to do next for an edge that is to be stored.
#[derive(Debug)]
pub enum InsertStep {
    /// The edge has no identity; count it and go on.
    SkipNoUuid,
    /// Look up the capturing commit of `target`, if there is one, and insert the row.
    Insert { target: Option<String> },
}

/// An edge without a message identifier is not stored: all such edges would collide.
pub fn begin_insert(edge: &SessionEdge) -> (r: InsertStep)
    ensures
        match r {
            InsertStep::SkipNoUuid => edge@.message_uuid.len() == 0,
            InsertStep::Insert { target } => edge@.message_uuid.len() > 0 && opt_str(target)
                == lookup_path(edge@),
        },
{
    let uuid = to_chars(edge.message_uuid.as_str());
    if uuid.len() == 0 {
        InsertStep::SkipNoUuid
    } else {
        InsertStep::Insert { target: absolute_target(edge) }
    }
}

/// What to do after the row was offered to the database.
#[derive(Debug)]
pub enum AfterInsert {
    /// The row is new: add this text to the search index.
    IndexBody(String),
    /// The row was there: give it this commit if it has none.
    LateBind(i64),
    /// The row was there and there is no commit to offer.
    Nothing,
}

/// What an [`AfterInsert`] holds.
pub enum AfterV {
    IndexBody(Seq<char>),
    LateBind(i64),
    Nothing,
}

impl View for AfterInsert {
    type V = AfterV;

    open spec fn view(&self) -> AfterV {
        match *self {
            AfterInsert::IndexBody(body) => AfterV::IndexBody(body@),
            AfterInsert::LateBind(id) => AfterV::LateBind(id),
            AfterInsert::Nothing => AfterV::Nothing,
        }
    }
}

/// What follows an insertion: a new row is searched for by its text, and a row that was
/// there is offered the commit.
pub open spec fn follow_up(
    e: EdgeV,
    row: RowV,
    inserted: bool,
    commit_id: Option<i64>,
) -> AfterV {
    if inserted {
        AfterV::IndexBody(search_text(row, e.file_path))
    } else {
        match commit_id {
            Some(id) => AfterV::LateBind(id),
            None => AfterV::Nothing,
        }
    }
}

/// What follows an insertion: `inserted` says that the row is new.
pub fn after_insert(
    edge: &SessionEdge,
    row: &EdgeRow,
    inserted: bool,
    commit_id: Option<i64>,
) -> (r: AfterInsert)
    ensures
        r@ == follow_up(edge@, row@, inserted, commit_id),
{
    if inserted {
        AfterInsert::IndexBody(search_body(row, edge.file_path.as_str()))
    } else {
        match commit_id {
            Some(id) => AfterInsert::LateBind(id),
            None => AfterInsert::Nothing,
        }
    }
}

/// How the storing of an edge ended.
#[derive(Clone, Copy, Debug, PartialEq, Eq, Structural)]
pub enum EdgeOutcome {
    SkippedNoUuid,
    /// The row was there; `late_bound` where it has its commit since now.
    Duplicate { late_bound: bool },
    /// The row is new; `bound` where it has its commit.
    Stored { bound: bool },
}

/// One counter more, where the condition holds.
pub open spec fn plus_if(n: usize, b: bool) -> usize {
    if b {
        (n + 1) as usize
    } else {
        n
    }
}

/// The counters after an edge.
pub open spec fn counted_edge(
    s: SessionIndexStats,
    tool: Seq<char>,
    out: EdgeOutcome,
) -> SessionIndexStats {
    SessionIndexStats {
        edges_skipped_no_uuid: plus_if(s.edges_skipped_no_uuid, out is SkippedNoUuid),
        edges_duplicate: plus_if(s.edges_duplicate, out is Duplicate),
        edges_late_bound: plus_if(
            s.edges_late_bound,
            out == (EdgeOutcome::Duplicate { late_bound: true }),
        ),
        commit_bound: plus_if(s.commit_bound, out == (EdgeOutcome::Stored { bound: true })),
        commit_unbound: plus_if(s.commit_unbound, out == (EdgeOutcome::Stored { bound: false })),
        edges_indexed: plus_if(s.edges_indexed, out is Stored),
        edits: plus_if(s.edits, out is Stored && tool == "Edit"@),
        writes: plus_if(s.writes, out is Stored && tool == "Write"@),
        ..s
    }
}

/// There is room to count one edge more.
pub open spec fn has_room(s: SessionIndexStats) -> bool {
    &&& s.edges_skipped_no_uuid < usize::MAX
    &&& s.edges_duplicate < usize::MAX
    &&& s.edges_late_bound < usize::MAX
    &&& s.commit_bound < usize::MAX
    &&& s.commit_unbound < usize::MAX
    &&& s.edges_indexed < usize::MAX
    &&& s.edits < usize::MAX
    &&& s.writes < usize::MAX
}

/// Counts an edge by how its storing ended.
pub fn count_edge(stats: &mut SessionIndexStats, tool: &str, out: EdgeOutcome)
    requires
        has_room(*old(stats)),
    ensures
        *final(stats) == counted_edge(*old(stats), tool@, out),
{
    match out {
        EdgeOutcome::SkippedNoUuid => {
            stats.edges_skipped_no_uuid = stats.edges_skipped_no_uuid + 1;
        },
        EdgeOutcome::Duplicate { late_bound } => {
            stats.edges_duplicate = stats.edges_duplicate + 1;
            if late_bound {
                stats.edges_late_bound = stats.edges_late_bound + 1;
            }
        },
        EdgeOutcome::Stored { bound } => {
            if bound {
                stats.commit_bound = stats.commit_bound + 1;
            } else {
                stats.commit_unbound = stats.commit_unbound + 1;
            }
            stats.edges_indexed = stats.edges_indexed + 1;
            let is_edit = str_eq(tool, "Edit");
            let is_write = str_eq(tool, "Write");
            proof {
                reveal_strlit("Edit");
                reveal_strlit("Write");
                assert("Edit"@.len() != "Write"@.len());
            }
            if is_edit {
                stats.edits = stats.edits + 1;
            } else if is_write {
                stats.writes = stats.writes + 1;
            }
        },
    }
}

/// The counters agree with each other: every stored edge is bound or unbound, and is an
/// edit or a write; every late binding is of a repeated edge.
pub open spec fn balanced(s: SessionIndexStats) -> bool {
    &&& s.edges_indexed == s.commit_bound + s.commit_unbound
    &&& s.edges_indexed == s.edits + s.writes
    &&& s.edges_late_bound <= s.edges_duplicate
}

/// Counting an edge of a transcript keeps the counters in agreement, and counts the edge
/// exactly once among the stored, the repeated and the skipped.
pub proof fn law_every_edge_is_counted_once(
    s: SessionIndexStats,
    tool: Seq<char>,
    out: EdgeOutcome,
)
    requires
        has_room(s),
        balanced(s),
        tool == "Edit"@ || tool == "Write"@,
    ensures
        balanced(counted_edge(s, tool, out)),
        ({
            let t = counted_edge(s, tool, out);
            t.edges_indexed + t.edges_duplicate + t.edges_skipped_no_uuid == s.edges_indexed
                + s.edges_duplicate + s.edges_skipped_no_uuid + 1
        }),
{
    reveal_strlit("Edit");
    reveal_strlit("Write");
    assert("Edit"@.len() != "Write"@.len());
}

} // verus!

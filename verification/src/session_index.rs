//! The index of which session changed which file, when and why.
//!
//! A transcript yields write-edges; a pass decides which of them enter the index, with
//! which metadata and which prose, and keeps count of everything that it left out.
use vstd::prelude::*;

pub mod activity;
pub mod binding;
pub mod edge_laws;
pub mod laws;
pub mod pass_laws;
pub mod scope;
pub mod scope_laws;
pub mod store;
pub mod transcript;
pub mod transcript_laws;

use self::scope::{
    admission_map, admission_of, admissions, admissions_view, cwd_in_workspace, find_admission,
    in_scope, in_workspace, target_in_scope, visible_to, Admission, AdmissionV, DomainRouter,
    PlaceV, Survey, Workspace, WorkspaceV,
};
use self::transcript::{parse_transcript_text, transcript, EdgeV, SessionEdge, TranscriptParse};
use crate::text::{
    append_str, clone_opt, from_chars, has_text, lines_of, lossy_text, matches_at, opt_ref, opt_str,
    strs, to_chars, utf8_lossy,
};

verus! {

// ---- Counters ----------------------------------------------------------------------------

/// What a pass saw, stored and left out.
#[derive(Debug)]
pub struct SessionIndexStats {
    pub transcripts_seen: usize,
    pub sessions_seen: usize,
    pub lines_total: usize,
    pub lines_parse_err: usize,
    pub edges_indexed: usize,
    pub edits: usize,
    pub writes: usize,
    /// Edges stored with the commit that captured them.
    pub commit_bound: usize,
    /// Edges stored without one.
    pub commit_unbound: usize,
    /// Edges that were stored before.
    pub edges_duplicate: usize,
    /// Edges stored before without a commit that have one now.
    pub edges_late_bound: usize,
    /// Edges of a message without an identifier, which cannot be recognised again.
    pub edges_skipped_no_uuid: usize,
    /// Edges of a line without a time.
    pub edges_skipped_no_timestamp: usize,
    /// Edges whose target the domain does not claim.
    pub edges_dropped_foreign_domain: usize,
    /// Edges stored without their rationale, their session having touched foreign ground.
    pub rationales_withheld: usize,
    /// Edges of a session that was not working in the workspace.
    pub edges_dropped_foreign_workspace: usize,
    /// Edges of a session of the workspace whose target is out of scope.
    pub edges_dropped_foreign_target: usize,
    /// Transcripts that could not be read.
    pub transcripts_unreadable: usize,
    pub elapsed_ms: u128,
}

/// Counters that have counted nothing.
pub open spec fn zero_stats() -> SessionIndexStats {
    SessionIndexStats {
        transcripts_seen: 0,
        sessions_seen: 0,
        lines_total: 0,
        lines_parse_err: 0,
        edges_indexed: 0,
        edits: 0,
        writes: 0,
        commit_bound: 0,
        commit_unbound: 0,
        edges_duplicate: 0,
        edges_late_bound: 0,
        edges_skipped_no_uuid: 0,
        edges_skipped_no_timestamp: 0,
        edges_dropped_foreign_domain: 0,
        rationales_withheld: 0,
        edges_dropped_foreign_workspace: 0,
        edges_dropped_foreign_target: 0,
        transcripts_unreadable: 0,
        elapsed_ms: 0,
    }
}

impl Default for SessionIndexStats {
    fn default() -> (r: SessionIndexStats)
        ensures
            r == zero_stats(),
    {
        SessionIndexStats {
            transcripts_seen: 0,
            sessions_seen: 0,
            lines_total: 0,
            lines_parse_err: 0,
            edges_indexed: 0,
            edits: 0,
            writes: 0,
            commit_bound: 0,
            commit_unbound: 0,
            edges_duplicate: 0,
            edges_late_bound: 0,
            edges_skipped_no_uuid: 0,
            edges_skipped_no_timestamp: 0,
            edges_dropped_foreign_domain: 0,
            rationales_withheld: 0,
            edges_dropped_foreign_workspace: 0,
            edges_dropped_foreign_target: 0,
            transcripts_unreadable: 0,
            elapsed_ms: 0,
        }
    }
}

/// Reads one transcript. The bytes are decoded leniently: a transcript is usually still
/// being written, and a last line that was cut inside a character costs that line alone.
pub fn parse_transcript(bytes: &[u8], stats: &mut SessionIndexStats) -> (r: TranscriptParse)
    requires
        bytes@.len() <= i64::MAX,
        old(stats).lines_total + bytes@.len() <= usize::MAX,
        old(stats).lines_parse_err + bytes@.len() <= usize::MAX,
        old(stats).edges_skipped_no_timestamp + bytes@.len() <= usize::MAX,
    ensures
        r@ == transcript(lines_of(utf8_lossy(bytes@))),
        vstd::utf8::valid_utf8(bytes@) ==> r@ == transcript(
            lines_of(vstd::utf8::decode_utf8(bytes@)),
        ),
        r.counts_within(bytes@.len() as int),
        *final(stats) == (SessionIndexStats {
            lines_total: (old(stats).lines_total + r.lines_total) as usize,
            lines_parse_err: (old(stats).lines_parse_err + r.lines_parse_err) as usize,
            edges_skipped_no_timestamp: (old(stats).edges_skipped_no_timestamp
                + r.undated) as usize,
            ..*old(stats)
        }),
{
    let content = lossy_text(bytes);
    let t = parse_transcript_text(content.as_str());
    stats.lines_total = stats.lines_total + t.lines_total;
    stats.lines_parse_err = stats.lines_parse_err + t.lines_parse_err;
    stats.edges_skipped_no_timestamp = stats.edges_skipped_no_timestamp + t.undated;
    t
}

/// A file name with the extension `jsonl`.
pub open spec fn transcript_name(name: Seq<char>) -> bool {
    name.len() > ".jsonl"@.len() && name.skip(name.len() - ".jsonl"@.len()) == ".jsonl"@
}

/// Whether a file of this name holds a transcript: its extension is `jsonl`.
pub fn is_transcript_name(name: &str) -> (b: bool)
    ensures
        b == transcript_name(name@),
{
    let v = to_chars(name);
    let ext = to_chars(".jsonl");
    if v.len() <= ext.len() {
        return false;
    }
    let at: usize = v.len() - ext.len();
    assert(v@.subrange(at as int, at + ext@.len()) =~= v@.skip(at as int));
    matches_at(&v, &ext, at)
}

// ---- Scope -------------------------------------------------------------------------------

/// Which transcripts, and which of their edges, a pass admits.
#[derive(Clone, Copy, Debug)]
pub enum SessionScope<'a> {
    /// Exactly one directory of transcripts, by name.
    Slug(&'a str),
    /// Every directory of transcripts, with no filtering.
    AllSlugs,
    /// Every directory is read, and an edge is admitted only where its own line's working
    /// directory lies in the workspace.
    Workspace,
}

impl<'a> SessionScope<'a> {
    /// The single directory to read, if this scope names one.
    pub fn slug(&self) -> (r: Option<&'a str>)
        ensures
            opt_ref(r) == match *self {
                SessionScope::Slug(s) => Some(s@),
                _ => None,
            },
    {
        match self {
            SessionScope::Slug(s) => Some(*s),
            SessionScope::AllSlugs => None,
            SessionScope::Workspace => None,
        }
    }

    pub open spec fn is_workspace(self) -> bool {
        self is Workspace
    }

    pub(crate) fn only_workspace(&self) -> (b: bool)
        ensures
            b == self.is_workspace(),
    {
        match self {
            SessionScope::Workspace => true,
            _ => false,
        }
    }
}

/// Everything that decides what a pass admits.
pub struct PassContext<'a> {
    pub scope: SessionScope<'a>,
    /// The edges of each session are stored anew.
    pub rebuild: bool,
    /// The pass writes the index of one domain.
    pub domain: bool,
    pub workspace: &'a Workspace,
    pub survey: &'a Survey,
}

pub struct ContextV {
    pub workspace_only: bool,
    pub rebuild: bool,
    pub domain: bool,
    pub ws: WorkspaceV,
    pub survey: Seq<PlaceV>,
}

impl<'a> View for PassContext<'a> {
    type V = ContextV;

    open spec fn view(&self) -> ContextV {
        ContextV {
            workspace_only: self.scope.is_workspace(),
            rebuild: self.rebuild,
            domain: self.domain,
            ws: self.workspace@,
            survey: self.survey@,
        }
    }
}

pub open spec fn cwd_in(cwd: Option<Seq<char>>, c: ContextV) -> bool {
    cwd matches Some(d) && in_workspace(d, c.ws, c.survey)
}

pub open spec fn cwd_visible(cwd: Option<Seq<char>>, survey: Seq<PlaceV>) -> bool {
    cwd matches Some(d) && visible_to(d, survey)
}

// ---- Routing -----------------------------------------------------------------------------

/// What is stored in place of a rationale that may not be kept. It is a constant, and
/// never enters the search index.
pub const WITHHELD_MARKER: &'static str = "[rationale withheld: cross-domain session]";

/// The metadata and prose with which an edge is stored.
#[derive(Debug)]
pub struct EdgeRow {
    pub repo_path: Option<String>,
    pub git_branch: Option<String>,
    pub rationale: String,
    /// The rationale may be searched.
    pub searchable: bool,
}

pub struct RowV {
    pub repo_path: Option<Seq<char>>,
    pub git_branch: Option<Seq<char>>,
    pub rationale: Seq<char>,
    pub searchable: bool,
}

impl View for EdgeRow {
    type V = RowV;

    open spec fn view(&self) -> RowV {
        RowV {
            repo_path: opt_str(self.repo_path),
            git_branch: opt_str(self.git_branch),
            rationale: self.rationale@,
            searchable: self.searchable,
        }
    }
}

pub open spec fn opt_row(r: Option<EdgeRow>) -> Option<RowV> {
    match r {
        Some(row) => Some(row@),
        None => None,
    }
}

/// How an edge is stored; nothing where it is stored nowhere.
///
/// Without domains an edge is stored as it is. For a domain, an edge is stored only where
/// the domain claims its target; repository and branch are kept only where the domain
/// claims the working directory as well; and the rationale is kept only where the ratchet
/// says so of the edge's group, a missing word counting as a refusal.
pub open spec fn routed(
    e: EdgeV,
    domain: bool,
    survey: Seq<PlaceV>,
    words: Seq<AdmissionV>,
) -> Option<RowV> {
    if !domain {
        Some(
            RowV {
                repo_path: e.repo_path,
                git_branch: e.git_branch,
                rationale: e.rationale,
                searchable: true,
            },
        )
    } else if !visible_to(e.raw_abs_path, survey) {
        None
    } else {
        let admitted = admission_of(words, e.session_id, e.group_id) == Some(true);
        let home = cwd_visible(e.cwd, survey);
        Some(
            RowV {
                repo_path: if home {
                    e.repo_path
                } else {
                    None
                },
                git_branch: if home {
                    e.git_branch
                } else {
                    None
                },
                rationale: if admitted {
                    e.rationale
                } else {
                    WITHHELD_MARKER@
                },
                searchable: admitted,
            },
        )
    }
}

pub(crate) fn as_opt_str(o: &Option<String>) -> (r: Option<&str>)
    ensures
        opt_ref(r) == opt_str(*o),
{
    match o {
        Some(s) => Some(s.as_str()),
        None => None,
    }
}

/// Routes one edge into the index that the pass writes, or into none. Without a router
/// the index is not partitioned.
pub fn route_edge(
    edge: &SessionEdge,
    router: Option<&DomainRouter<'_>>,
    words: &Vec<Admission>,
) -> (r: Option<EdgeRow>)
    ensures
        opt_row(r) == routed(
            edge@,
            router is Some,
            match router {
                Some(r) => r.survey@,
                None => Seq::empty(),
            },
            admissions_view(words@),
        ),
{
    match router {
        None => Some(
            EdgeRow {
                repo_path: clone_opt(&edge.repo_path),
                git_branch: clone_opt(&edge.git_branch),
                rationale: edge.rationale.clone(),
                searchable: true,
            },
        ),
        Some(router) => {
            if !router.visible(edge.raw_abs_path.as_str()) {
                return None;
            }
            let home = match as_opt_str(&edge.cwd) {
                Some(c) => router.visible(c),
                None => false,
            };
            let admitted = match find_admission(
                words,
                edge.session_id.as_str(),
                edge.group_id.as_str(),
            ) {
                Some(b) => b,
                None => false,
            };
            Some(
                EdgeRow {
                    repo_path: if home {
                        clone_opt(&edge.repo_path)
                    } else {
                        None
                    },
                    git_branch: if home {
                        clone_opt(&edge.git_branch)
                    } else {
                        None
                    },
                    rationale: if admitted {
                        edge.rationale.clone()
                    } else {
                        WITHHELD_MARKER.to_owned()
                    },
                    searchable: admitted,
                },
            )
        },
    }
}

/// What is searched for an edge: rationale and path, or the path alone where the
/// rationale is withheld.
pub open spec fn search_text(row: RowV, file_path: Seq<char>) -> Seq<char> {
    if row.searchable {
        row.rationale + seq![' '] + file_path
    } else {
        file_path
    }
}

/// What is searched for an edge.
pub fn search_body(row: &EdgeRow, file_path: &str) -> (r: String)
    ensures
        r@ == search_text(row@, file_path@),
{
    if row.searchable {
        let mut out = to_chars(row.rationale.as_str());
        out.push(' ');
        append_str(&mut out, file_path);
        assert(out@ =~= row.rationale@ + seq![' '] + file_path@);
        from_chars(&out)
    } else {
        file_path.to_owned()
    }
}

// ---- A pass over one transcript ------------------------------------------------------------

/// What is to be done for one edge of a transcript.
#[derive(Debug)]
pub struct EdgeAction {
    /// The position of the edge.
    pub edge: usize,
    /// Drop what is stored of the edge's session first.
    pub wipe: bool,
    /// How to store the edge; nothing where it is stored nowhere.
    pub row: Option<EdgeRow>,
}

pub struct ActionV {
    pub edge: int,
    pub wipe: bool,
    pub row: Option<RowV>,
}

impl View for EdgeAction {
    type V = ActionV;

    open spec fn view(&self) -> ActionV {
        ActionV { edge: self.edge as int, wipe: self.wipe, row: opt_row(self.row) }
    }
}

pub open spec fn actions_view(v: Seq<EdgeAction>) -> Seq<ActionV> {
    Seq::new(v.len(), |i: int| v[i]@)
}

/// A pass, as far as its edges are decided.
pub struct PassV {
    /// The sessions that had an edge admitted, each once.
    pub sessions: Seq<Seq<char>>,
    pub actions: Seq<ActionV>,
    pub foreign_workspace: nat,
    pub foreign_target: nat,
    pub foreign_domain: nat,
    pub withheld: nat,
}

/// A pass before the first edge of a transcript.
pub open spec fn pass_start(sessions: Seq<Seq<char>>) -> PassV {
    PassV {
        sessions,
        actions: Seq::empty(),
        foreign_workspace: 0,
        foreign_target: 0,
        foreign_domain: 0,
        withheld: 0,
    }
}

/// Where an edge stands with respect to the scope of a pass.
#[derive(Clone, Copy, Debug, PartialEq, Eq, Structural)]
pub enum Placement {
    /// The session was not working in the workspace.
    ForeignWorkspace,
    /// The session was, and reached outside.
    ForeignTarget,
    InScope,
}

/// Where only the workspace is in scope, both ends of an edge must be: the session must
/// have been working there, and what it wrote must belong there.
pub open spec fn placement(e: EdgeV, c: ContextV) -> Placement {
    if c.workspace_only && !cwd_in(e.cwd, c) {
        Placement::ForeignWorkspace
    } else if c.workspace_only && !in_scope(e.raw_abs_path, c.ws, e.cwd, c.survey) {
        Placement::ForeignTarget
    } else {
        Placement::InScope
    }
}

/// Where an edge stands.
pub fn place_edge(edge: &SessionEdge, context: &PassContext<'_>) -> (r: Placement)
    ensures
        r == placement(edge@, context@),
{
    if context.scope.only_workspace() {
        if !cwd_in_workspace(as_opt_str(&edge.cwd), context.workspace, context.survey) {
            return Placement::ForeignWorkspace;
        }
        if !target_in_scope(
            edge.raw_abs_path.as_str(),
            context.workspace,
            as_opt_str(&edge.cwd),
            context.survey,
        ) {
            return Placement::ForeignTarget;
        }
    }
    Placement::InScope
}

/// One more edge. What is out of scope is counted and seen by nothing further on. The
/// first edge in scope of a session drops, in a rebuild, what is stored of the session.
pub open spec fn with_edge(
    p: PassV,
    c: ContextV,
    words: Seq<AdmissionV>,
    e: EdgeV,
    k: int,
) -> PassV {
    match placement(e, c) {
        Placement::ForeignWorkspace => PassV { foreign_workspace: p.foreign_workspace + 1, ..p },
        Placement::ForeignTarget => PassV { foreign_target: p.foreign_target + 1, ..p },
        Placement::InScope => {
            let fresh = !p.sessions.contains(e.session_id);
            let row = routed(e, c.domain, c.survey, words);
            PassV {
                sessions: if fresh {
                    p.sessions.push(e.session_id)
                } else {
                    p.sessions
                },
                actions: p.actions.push(ActionV { edge: k, wipe: c.rebuild && fresh, row }),
                foreign_domain: if row is None {
                    p.foreign_domain + 1
                } else {
                    p.foreign_domain
                },
                withheld: if row matches Some(r) && !r.searchable {
                    p.withheld + 1
                } else {
                    p.withheld
                },
                ..p
            }
        },
    }
}

/// The edges of a transcript, one after the other.
pub open spec fn with_edges(
    p: PassV,
    c: ContextV,
    words: Seq<AdmissionV>,
    edges: Seq<EdgeV>,
) -> PassV
    decreases edges.len(),
{
    if edges.len() == 0 {
        p
    } else {
        with_edge(
            with_edges(p, c, words, edges.drop_last()),
            c,
            words,
            edges.last(),
            edges.len() - 1,
        )
    }
}

/// The words of the ratchet on the groups of a transcript; none without a domain.
pub open spec fn pass_admissions(c: ContextV, t: self::transcript::TranscriptV) -> Seq<AdmissionV> {
    if c.domain {
        admissions(t.groups, c.ws, c.survey)
    } else {
        Seq::empty()
    }
}

/// Decides every edge of a transcript. `sessions` are the sessions that had an edge
/// admitted in this pass so far.
pub fn plan_edges(
    parse: &TranscriptParse,
    context: &PassContext<'_>,
    sessions: &mut Vec<String>,
    stats: &mut SessionIndexStats,
) -> (r: Vec<EdgeAction>)
    requires
        old(stats).edges_dropped_foreign_workspace + parse.edges@.len() <= usize::MAX,
        old(stats).edges_dropped_foreign_target + parse.edges@.len() <= usize::MAX,
        old(stats).edges_dropped_foreign_domain + parse.edges@.len() <= usize::MAX,
        old(stats).rationales_withheld + parse.edges@.len() <= usize::MAX,
    ensures
        ({
            let done = with_edges(
                pass_start(strs(old(sessions)@)),
                context@,
                pass_admissions(context@, parse@),
                parse@.edges,
            );
            &&& actions_view(r@) == done.actions
            &&& strs(final(sessions)@) == done.sessions
            &&& *final(stats) == (SessionIndexStats {
                edges_dropped_foreign_workspace: (old(stats).edges_dropped_foreign_workspace
                    + done.foreign_workspace) as usize,
                edges_dropped_foreign_target: (old(stats).edges_dropped_foreign_target
                    + done.foreign_target) as usize,
                edges_dropped_foreign_domain: (old(stats).edges_dropped_foreign_domain
                    + done.foreign_domain) as usize,
                rationales_withheld: (old(stats).rationales_withheld + done.withheld) as usize,
                ..*old(stats)
            })
            &&& done.foreign_workspace + done.foreign_target + done.actions.len()
                == parse@.edges.len()
            &&& done.foreign_domain + done.withheld <= done.actions.len()
        }),
{
    let ghost c = context@;
    let ghost start = pass_start(strs(sessions@));
    let ghost edges = parse@.edges;
    let ghost before = *stats;
    let router = DomainRouter { workspace: context.workspace, survey: context.survey };
    let words = if context.domain {
        admission_map(&parse.groups, &router)
    } else {
        Vec::new()
    };
    let ghost adm = pass_admissions(c, parse@);
    assert(admissions_view(words@) =~= adm);
    let mut out: Vec<EdgeAction> = Vec::new();
    assert(edges.take(0) =~= Seq::empty());
    assert(actions_view(out@) =~= Seq::empty());
    for k in 0..parse.edges.len()
        invariant
            c == context@,
            edges == parse@.edges,
            adm == admissions_view(words@),
            router.workspace == context.workspace,
            router.survey == context.survey,
            before.edges_dropped_foreign_workspace + parse.edges@.len() <= usize::MAX,
            before.edges_dropped_foreign_target + parse.edges@.len() <= usize::MAX,
            before.edges_dropped_foreign_domain + parse.edges@.len() <= usize::MAX,
            before.rationales_withheld + parse.edges@.len() <= usize::MAX,
            ({
                let p = with_edges(start, c, adm, edges.take(k as int));
                &&& actions_view(out@) == p.actions
                &&& strs(sessions@) == p.sessions
                &&& p.foreign_workspace + p.foreign_target + p.actions.len() == k
                &&& p.foreign_domain + p.withheld <= p.actions.len()
                &&& *stats == (SessionIndexStats {
                    edges_dropped_foreign_workspace: (before.edges_dropped_foreign_workspace
                        + p.foreign_workspace) as usize,
                    edges_dropped_foreign_target: (before.edges_dropped_foreign_target
                        + p.foreign_target) as usize,
                    edges_dropped_foreign_domain: (before.edges_dropped_foreign_domain
                        + p.foreign_domain) as usize,
                    rationales_withheld: (before.rationales_withheld + p.withheld) as usize,
                    ..before
                })
            }),
    {
        assert(edges.take(k + 1).drop_last() =~= edges.take(k as int));
        let edge = &parse.edges[k];
        assert(edges[k as int] == edge@);
        let ghost p = with_edges(start, c, adm, edges.take(k as int));
        match place_edge(edge, context) {
            Placement::ForeignWorkspace => {
                stats.edges_dropped_foreign_workspace = stats.edges_dropped_foreign_workspace + 1;
            },
            Placement::ForeignTarget => {
                stats.edges_dropped_foreign_target = stats.edges_dropped_foreign_target + 1;
            },
            Placement::InScope => {
                let fresh = !has_text(sessions, edge.session_id.as_str());
                if fresh {
                    sessions.push(edge.session_id.clone());
                    assert(strs(sessions@) =~= p.sessions.push(edge@.session_id));
                }
                let row = if context.domain {
                    route_edge(edge, Some(&router), &words)
                } else {
                    route_edge(edge, None, &words)
                };
                match &row {
                    None => {
                        stats.edges_dropped_foreign_domain = stats.edges_dropped_foreign_domain + 1;
                    },
                    Some(r) => {
                        if !r.searchable {
                            stats.rationales_withheld = stats.rationales_withheld + 1;
                        }
                    },
                }
                let action = EdgeAction { edge: k, wipe: context.rebuild && fresh, row };
                out.push(action);
                assert(actions_view(out@) =~= p.actions.push(action@));
            },
        }
    }
    assert(edges.take(edges.len() as int) =~= edges);
    out
}

} // verus!

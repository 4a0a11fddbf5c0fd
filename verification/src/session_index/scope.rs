//! Which sessions, which targets and which prose a pass may take in.
//!
//! Nothing here asks the file system or the domain configuration. What they answered for
//! the paths at hand comes in as a [`Survey`]; a path that the survey does not mention is
//! one of which nothing exists on disk and which no domain claims.
use vstd::prelude::*;

use super::transcript::{groups_view, GroupTaint, GroupV};
use crate::paths::{
    absolute_text, child_of, is_absolute, normalize_lexical, normalized, opt_path, under, LexPath,
    PathV,
};
use crate::text::{has_text, opt_ref, str_eq, strs};

verus! {

// ---- What is known of the surroundings ---------------------------------------------------

/// A directory in which an agent keeps a workspace's transcripts and memory.
#[derive(Debug)]
pub struct SlugDir {
    pub path: LexPath,
    /// The path resolved as far as it exists.
    pub resolved: LexPath,
    /// The canonical form, where the directory exists.
    pub canonical: Option<LexPath>,
}

pub struct SlugV {
    pub path: PathV,
    pub resolved: PathV,
    pub canonical: Option<PathV>,
}

impl View for SlugDir {
    type V = SlugV;

    open spec fn view(&self) -> SlugV {
        SlugV {
            path: self.path@,
            resolved: self.resolved@,
            canonical: opt_path(self.canonical),
        }
    }
}

pub open spec fn opt_slug(s: Option<SlugDir>) -> Option<SlugV> {
    match s {
        Some(d) => Some(d@),
        None => None,
    }
}

/// A directory for temporary files.
#[derive(Debug)]
pub struct TempRoot {
    pub path: LexPath,
    pub canonical: Option<LexPath>,
}

pub struct TempV {
    pub path: PathV,
    pub canonical: Option<PathV>,
}

impl View for TempRoot {
    type V = TempV;

    open spec fn view(&self) -> TempV {
        TempV { path: self.path@, canonical: opt_path(self.canonical) }
    }
}

/// The workspace that a pass indexes.
#[derive(Debug)]
pub struct Workspace {
    pub root: LexPath,
    /// The root resolved as far as it exists.
    pub resolved: LexPath,
    /// The workspace's own agent directory.
    pub slug: Option<SlugDir>,
    pub temps: Vec<TempRoot>,
}

pub struct WorkspaceV {
    pub root: PathV,
    pub resolved: PathV,
    pub slug: Option<SlugV>,
    pub temps: Seq<TempV>,
}

impl View for Workspace {
    type V = WorkspaceV;

    open spec fn view(&self) -> WorkspaceV {
        WorkspaceV {
            root: self.root@,
            resolved: self.resolved@,
            slug: opt_slug(self.slug),
            temps: Seq::new(self.temps@.len(), |i: int| self.temps@[i]@),
        }
    }
}

/// What was found out about one path, named as a transcript names it.
#[derive(Debug)]
pub struct Place {
    pub raw: String,
    /// The normalized path resolved as far as it exists.
    pub resolved: LexPath,
    /// The canonical form of the normalized path, where it exists.
    pub canonical: Option<LexPath>,
    /// It exists and is a regular file.
    pub is_file: bool,
    /// The domain that the pass writes claims it.
    pub included: bool,
    /// The agent directory of sessions started there.
    pub slug: Option<SlugDir>,
}

pub struct PlaceV {
    pub raw: Seq<char>,
    pub resolved: PathV,
    pub canonical: Option<PathV>,
    pub is_file: bool,
    pub included: bool,
    pub slug: Option<SlugV>,
}

impl View for Place {
    type V = PlaceV;

    open spec fn view(&self) -> PlaceV {
        PlaceV {
            raw: self.raw@,
            resolved: self.resolved@,
            canonical: opt_path(self.canonical),
            is_file: self.is_file,
            included: self.included,
            slug: opt_slug(self.slug),
        }
    }
}

/// What was found out about the paths of a transcript.
#[derive(Debug)]
pub struct Survey {
    pub places: Vec<Place>,
}

impl View for Survey {
    type V = Seq<PlaceV>;

    open spec fn view(&self) -> Seq<PlaceV> {
        Seq::new(self.places@.len(), |i: int| self.places@[i]@)
    }
}

/// The first entry for a path.
pub open spec fn place_of(survey: Seq<PlaceV>, raw: Seq<char>) -> Option<PlaceV>
    decreases survey.len(),
{
    if survey.len() == 0 {
        None
    } else if survey[0].raw == raw {
        Some(survey[0])
    } else {
        place_of(survey.drop_first(), raw)
    }
}

impl Survey {
    /// The first entry for a path.
    pub fn find(&self, raw: &str) -> (r: Option<&Place>)
        ensures
            match r {
                Some(p) => place_of(self@, raw@) == Some(p@),
                None => place_of(self@, raw@) is None,
            },
    {
        assert(self@.skip(0) =~= self@);
        for i in 0..self.places.len()
            invariant
                place_of(self@, raw@) == place_of(self@.skip(i as int), raw@),
        {
            assert(self@.skip(i as int)[0] == self.places@[i as int]@);
            assert(self@.skip(i as int).drop_first() =~= self@.skip(i + 1));
            if str_eq(self.places[i].raw.as_str(), raw) {
                return Some(&self.places[i]);
            }
        }
        None
    }
}

// ---- Inside the workspace ----------------------------------------------------------------

/// `p` is inside `root` in one of its two forms.
pub open spec fn under_either(p: PathV, root: PathV, other: Option<PathV>) -> bool {
    under(p, root) || (other matches Some(o) && under(p, o))
}

/// `p` lies directly in `root` in one of its two forms.
pub open spec fn child_of_either(p: PathV, root: PathV, other: Option<PathV>) -> bool {
    child_of(p, root) || (other matches Some(o) && child_of(p, o))
}

/// The normalized path that an absolute text names.
pub open spec fn target(raw: Seq<char>) -> Option<PathV> {
    if absolute_text(raw) {
        normalized(raw)
    } else {
        None
    }
}

/// A normalized path resolved as far as it exists.
pub open spec fn resolved_form(survey: Seq<PlaceV>, raw: Seq<char>, norm: PathV) -> PathV {
    match place_of(survey, raw) {
        Some(p) => p.resolved,
        None => norm,
    }
}

/// The canonical form of a normalized path, or the path itself where it does not exist.
pub open spec fn canonical_form(survey: Seq<PlaceV>, raw: Seq<char>, norm: PathV) -> PathV {
    match place_of(survey, raw) {
        Some(p) => match p.canonical {
            Some(c) => c,
            None => norm,
        },
        None => norm,
    }
}

pub open spec fn known_file(survey: Seq<PlaceV>, raw: Seq<char>) -> bool {
    place_of(survey, raw) matches Some(p) && p.is_file
}

/// The path lies in the workspace.
pub open spec fn in_workspace(raw: Seq<char>, ws: WorkspaceV, survey: Seq<PlaceV>) -> bool {
    target(raw) matches Some(norm) && under_either(
        resolved_form(survey, raw, norm),
        ws.root,
        Some(ws.resolved),
    )
}

fn starts_with_either(p: &LexPath, root: &LexPath, other: &Option<LexPath>) -> (b: bool)
    ensures
        b == under_either(p@, root@, opt_path(*other)),
{
    if p.starts_with(root) {
        return true;
    }
    match other {
        Some(o) => p.starts_with(o),
        None => false,
    }
}

fn is_child_of_either(p: &LexPath, root: &LexPath, other: &Option<LexPath>) -> (b: bool)
    ensures
        b == child_of_either(p@, root@, opt_path(*other)),
{
    if p.is_child_of(root) {
        return true;
    }
    match other {
        Some(o) => p.is_child_of(o),
        None => false,
    }
}

/// Is a resolved path inside `root`, which stands here both as it was given and resolved?
pub fn resolved_under(resolved: &LexPath, root: &LexPath, resolved_root: &LexPath) -> (b: bool)
    ensures
        b == under_either(resolved@, root@, Some(resolved_root@)),
{
    resolved.starts_with(root) || resolved.starts_with(resolved_root)
}

fn normalized_target(raw: &str) -> (r: Option<LexPath>)
    ensures
        opt_path(r) == target(raw@),
{
    if is_absolute(raw) {
        normalize_lexical(raw)
    } else {
        None
    }
}

/// Is `raw` inside the workspace? A relative path never is, and neither is one whose `..`
/// cannot be resolved.
pub fn path_in_workspace(raw: &str, workspace: &Workspace, survey: &Survey) -> (b: bool)
    ensures
        b == in_workspace(raw@, workspace@, survey@),
{
    match normalized_target(raw) {
        None => false,
        Some(norm) => match survey.find(raw) {
            Some(p) => resolved_under(&p.resolved, &workspace.root, &workspace.resolved),
            None => resolved_under(&norm, &workspace.root, &workspace.resolved),
        },
    }
}

/// Was the session working inside the workspace? A line without a directory was not.
pub fn cwd_in_workspace(cwd: Option<&str>, workspace: &Workspace, survey: &Survey) -> (b: bool)
    ensures
        b == (opt_ref(cwd) matches Some(c) && in_workspace(c, workspace@, survey@)),
{
    match cwd {
        Some(c) => path_in_workspace(c, workspace, survey),
        None => false,
    }
}

// ---- Neutral ground ------------------------------------------------------------------------

/// The name of an agent directory: its last component.
pub open spec fn slug_name(s: SlugV) -> Option<Seq<char>> {
    if s.path.parts.len() > 0 && s.path.parts.last() != ".."@ {
        Some(s.path.parts.last())
    } else {
        None
    }
}

/// `p` lies in a directory for temporary files.
pub open spec fn in_temp(p: PathV, temps: Seq<TempV>) -> bool {
    exists|i: int|
        0 <= i < temps.len() && under_either(p, (#[trigger] temps[i]).path, temps[i].canonical)
}

/// `p` lies directly in a directory for temporary files.
pub open spec fn loose_in_temp(p: PathV, temps: Seq<TempV>) -> bool {
    exists|i: int|
        0 <= i < temps.len() && child_of_either(p, (#[trigger] temps[i]).path, temps[i].canonical)
}

/// The path belongs to no domain: a regular file directly in the workspace root; outside
/// the workspace, anything in its own agent directory; and, in a directory for temporary
/// files, a loose regular file or anything below a component named like the agent
/// directory.
pub open spec fn neutral(raw: Seq<char>, ws: WorkspaceV, survey: Seq<PlaceV>) -> bool {
    target(raw) matches Some(norm) && {
        let p = canonical_form(survey, raw, norm);
        if under(p, ws.root) {
            child_of(p, ws.root) && known_file(survey, raw)
        } else {
            ws.slug matches Some(slug) && {
                ||| under_either(p, slug.path, slug.canonical)
                ||| slug_name(slug) matches Some(name) && in_temp(p, ws.temps) && (
                p.parts.contains(name) || (loose_in_temp(p, ws.temps) && known_file(survey, raw)))
            }
        }
    }
}

fn is_in_temp(p: &LexPath, temps: &Vec<TempRoot>, Ghost(ws): Ghost<WorkspaceV>) -> (b: bool)
    requires
        ws.temps.len() == temps@.len(),
        forall|i: int| 0 <= i < temps@.len() ==> #[trigger] ws.temps[i] == temps@[i]@,
    ensures
        b == in_temp(p@, ws.temps),
{
    for i in 0..temps.len()
        invariant
            ws.temps.len() == temps@.len(),
            forall|j: int| 0 <= j < temps@.len() ==> #[trigger] ws.temps[j] == temps@[j]@,
            forall|j: int|
                0 <= j < i ==> !under_either(
                    p@,
                    (#[trigger] ws.temps[j]).path,
                    ws.temps[j].canonical,
                ),
    {
        assert(ws.temps[i as int] == temps@[i as int]@);
        if starts_with_either(p, &temps[i].path, &temps[i].canonical) {
            return true;
        }
    }
    false
}

fn is_loose_in_temp(p: &LexPath, temps: &Vec<TempRoot>, Ghost(ws): Ghost<WorkspaceV>) -> (b: bool)
    requires
        ws.temps.len() == temps@.len(),
        forall|i: int| 0 <= i < temps@.len() ==> #[trigger] ws.temps[i] == temps@[i]@,
    ensures
        b == loose_in_temp(p@, ws.temps),
{
    for i in 0..temps.len()
        invariant
            ws.temps.len() == temps@.len(),
            forall|j: int| 0 <= j < temps@.len() ==> #[trigger] ws.temps[j] == temps@[j]@,
            forall|j: int|
                0 <= j < i ==> !child_of_either(
                    p@,
                    (#[trigger] ws.temps[j]).path,
                    ws.temps[j].canonical,
                ),
    {
        assert(ws.temps[i as int] == temps@[i as int]@);
        if is_child_of_either(p, &temps[i].path, &temps[i].canonical) {
            return true;
        }
    }
    false
}

/// Does `raw` belong to no domain, so that it cannot carry another domain's content? A
/// relative path and one that cannot be resolved are not neutral.
pub fn is_neutral_path(raw: &str, workspace: &Workspace, survey: &Survey) -> (b: bool)
    ensures
        b == neutral(raw@, workspace@, survey@),
{
    let norm = match normalized_target(raw) {
        Some(n) => n,
        None => {
            return false;
        },
    };
    let mut is_file = false;
    let mut p = norm;
    if let Some(place) = survey.find(raw) {
        is_file = place.is_file;
        if let Some(c) = &place.canonical {
            p = c.clone_path();
        }
    }
    if p.starts_with(&workspace.root) {
        return p.is_child_of(&workspace.root) && is_file;
    }
    match &workspace.slug {
        None => false,
        Some(slug) => {
            if starts_with_either(&p, &slug.path, &slug.canonical) {
                return true;
            }
            let n: usize = slug.path.parts.len();
            if n == 0 || str_eq(slug.path.parts[n - 1].as_str(), "..") {
                return false;
            }
            assert(slug_name(slug@) == Some(slug.path.parts@[n - 1]@));
            if !is_in_temp(&p, &workspace.temps, Ghost(workspace@)) {
                return false;
            }
            if p.has_component(slug.path.parts[n - 1].as_str()) {
                return true;
            }
            is_loose_in_temp(&p, &workspace.temps, Ghost(workspace@)) && is_file
        },
    }
}

/// The directories for temporary files: the usual ones, and the one of the environment.
pub open spec fn temp_paths(tmpdir: Option<Seq<char>>) -> Seq<Seq<char>> {
    let usual = seq!["/tmp"@, "/private/tmp"@, "/var/folders"@];
    match tmpdir {
        Some(t) => usual.push(t),
        None => usual,
    }
}

/// The directories for temporary files, given the one that the environment names.
pub fn temp_roots(tmpdir: Option<&str>) -> (r: Vec<String>)
    ensures
        strs(r@) == temp_paths(opt_ref(tmpdir)),
{
    let mut r: Vec<String> = Vec::new();
    r.push("/tmp".to_owned());
    r.push("/private/tmp".to_owned());
    r.push("/var/folders".to_owned());
    if let Some(t) = tmpdir {
        r.push(t.to_owned());
    }
    assert(strs(r@) =~= temp_paths(opt_ref(tmpdir)));
    r
}

/// The target may be written into the workspace's index: it lies in the workspace, is
/// neutral, or lies in the agent directory of the session's own working directory.
pub open spec fn in_scope(
    raw: Seq<char>,
    ws: WorkspaceV,
    cwd: Option<Seq<char>>,
    survey: Seq<PlaceV>,
) -> bool {
    ||| in_workspace(raw, ws, survey)
    ||| neutral(raw, ws, survey)
    ||| in_session_slug(raw, cwd, survey)
}

/// The target lies in the agent directory of the session's own working directory.
pub open spec fn in_session_slug(
    raw: Seq<char>,
    cwd: Option<Seq<char>>,
    survey: Seq<PlaceV>,
) -> bool {
    cwd matches Some(c) && place_of(survey, c) matches Some(home) && home.slug matches Some(slug)
        && target(raw) matches Some(norm) && under_either(
        resolved_form(survey, raw, norm),
        slug.path,
        Some(slug.resolved),
    )
}

/// May an edge with this target be written into the workspace's index?
pub fn target_in_scope(
    raw_abs_path: &str,
    workspace: &Workspace,
    cwd: Option<&str>,
    survey: &Survey,
) -> (b: bool)
    ensures
        b == in_scope(raw_abs_path@, workspace@, opt_ref(cwd), survey@),
{
    if path_in_workspace(raw_abs_path, workspace, survey) || is_neutral_path(
        raw_abs_path,
        workspace,
        survey,
    ) {
        return true;
    }
    let c = match cwd {
        Some(c) => c,
        None => {
            return false;
        },
    };
    let home = match survey.find(c) {
        Some(p) => p,
        None => {
            return false;
        },
    };
    let slug = match &home.slug {
        Some(s) => s,
        None => {
            return false;
        },
    };
    match normalized_target(raw_abs_path) {
        None => false,
        Some(norm) => match survey.find(raw_abs_path) {
            Some(p) => resolved_under(&p.resolved, &slug.path, &slug.resolved),
            None => resolved_under(&norm, &slug.path, &slug.resolved),
        },
    }
}

// ---- Domains -------------------------------------------------------------------------------

/// What a pass knows when it writes the index of one domain.
pub struct DomainRouter<'a> {
    pub workspace: &'a Workspace,
    pub survey: &'a Survey,
}

/// The domain claims the path, which must be absolute and resolvable: a relative path
/// could be placed under a domain by accident only.
pub open spec fn visible_to(raw: Seq<char>, survey: Seq<PlaceV>) -> bool {
    target(raw) is Some && (place_of(survey, raw) matches Some(p) && p.included)
}

/// Having touched the path means that a session's prose can no longer be vouched for.
pub open spec fn taints_session(raw: Seq<char>, ws: WorkspaceV, survey: Seq<PlaceV>) -> bool {
    !visible_to(raw, survey) && !neutral(raw, ws, survey)
}

impl<'a> DomainRouter<'a> {
    /// Is `raw` visible to the domain that the pass writes?
    pub fn visible(&self, raw: &str) -> (b: bool)
        ensures
            b == visible_to(raw@, self.survey@),
    {
        match normalized_target(raw) {
            None => false,
            Some(_) => match self.survey.find(raw) {
                Some(p) => p.included,
                None => false,
            },
        }
    }

    /// Does touching `raw` taint the session?
    pub fn taints(&self, raw: &str) -> (b: bool)
        ensures
            b == taints_session(raw@, self.workspace@, self.survey@),
    {
        !self.visible(raw) && !is_neutral_path(raw, self.workspace, self.survey)
    }
}

// ---- The ratchet ---------------------------------------------------------------------------

/// Whether the rationales of one logical message may be kept.
#[derive(Debug)]
pub struct Admission {
    pub session_id: String,
    pub group_id: String,
    pub admitted: bool,
}

pub struct AdmissionV {
    pub session_id: Seq<char>,
    pub group_id: Seq<char>,
    pub admitted: bool,
}

impl View for Admission {
    type V = AdmissionV;

    open spec fn view(&self) -> AdmissionV {
        AdmissionV {
            session_id: self.session_id@,
            group_id: self.group_id@,
            admitted: self.admitted,
        }
    }
}

pub open spec fn admissions_view(v: Seq<Admission>) -> Seq<AdmissionV> {
    Seq::new(v.len(), |i: int| v[i]@)
}

/// A group touched no path that taints.
pub open spec fn clean(g: GroupV, ws: WorkspaceV, survey: Seq<PlaceV>) -> bool {
    forall|k: int| 0 <= k < g.paths.len() ==> !taints_session(#[trigger] g.paths[k], ws, survey)
}

/// The group at `i` and every earlier group of its session are clean.
pub open spec fn admitted_at(
    groups: Seq<GroupV>,
    i: int,
    ws: WorkspaceV,
    survey: Seq<PlaceV>,
) -> bool {
    forall|j: int|
        0 <= j <= i && (#[trigger] groups[j]).session_id == groups[i].session_id ==> clean(
            groups[j],
            ws,
            survey,
        )
}

/// What is admitted, group by group.
pub open spec fn admissions(
    groups: Seq<GroupV>,
    ws: WorkspaceV,
    survey: Seq<PlaceV>,
) -> Seq<AdmissionV> {
    Seq::new(
        groups.len(),
        |i: int|
            AdmissionV {
                session_id: groups[i].session_id,
                group_id: groups[i].group_id,
                admitted: admitted_at(groups, i, ws, survey),
            },
    )
}

/// The latest word on a group; nothing where there is none.
pub open spec fn admission_of(
    v: Seq<AdmissionV>,
    session_id: Seq<char>,
    group_id: Seq<char>,
) -> Option<bool>
    decreases v.len(),
{
    if v.len() == 0 {
        None
    } else if v.last().session_id == session_id && v.last().group_id == group_id {
        Some(v.last().admitted)
    } else {
        admission_of(v.drop_last(), session_id, group_id)
    }
}

fn group_is_clean(g: &GroupTaint, router: &DomainRouter<'_>) -> (b: bool)
    ensures
        b == clean(g@, router.workspace@, router.survey@),
{
    for k in 0..g.paths.len()
        invariant
            forall|j: int|
                0 <= j < k ==> !taints_session(
                    #[trigger] g@.paths[j],
                    router.workspace@,
                    router.survey@,
                ),
    {
        assert(g@.paths[k as int] == g.paths@[k as int]@);
        if router.taints(g.paths[k].as_str()) {
            return false;
        }
    }
    true
}

/// The ratchet: a session that has touched a tainting path stays tainted for the rest of
/// the transcript, and the rationales of a group are admitted while it is not.
pub fn admission_map(groups: &Vec<GroupTaint>, router: &DomainRouter<'_>) -> (r: Vec<Admission>)
    ensures
        admissions_view(r@) == admissions(
            groups_view(groups@),
            router.workspace@,
            router.survey@,
        ),
{
    let ghost ws = router.workspace@;
    let ghost survey = router.survey@;
    let ghost all = groups_view(groups@);
    let mut out: Vec<Admission> = Vec::new();
    let mut tainted: Vec<String> = Vec::new();
    for i in 0..groups.len()
        invariant
            ws == router.workspace@,
            survey == router.survey@,
            all == groups_view(groups@),
            out@.len() == i,
            forall|k: int| 0 <= k < i ==> (#[trigger] out@[k])@ == admissions(all, ws, survey)[k],
            forall|s: Seq<char>|
                strs(tainted@).contains(s) <==> exists|j: int|
                    0 <= j < i && (#[trigger] all[j]).session_id == s && !clean(all[j], ws, survey),
    {
        let g = &groups[i];
        assert(all[i as int] == g@);
        let ghost before = strs(tainted@);
        let group_clean = group_is_clean(g, router);
        if !group_clean {
            tainted.push(g.session_id.clone());
            assert(strs(tainted@) =~= before.push(g@.session_id));
            assert forall|s: Seq<char>| strs(tainted@).contains(s) <==> exists|j: int|
                0 <= j < i + 1 && (#[trigger] all[j]).session_id == s && !clean(
                    all[j],
                    ws,
                    survey,
                ) by {
                if strs(tainted@).contains(s) {
                    let k = choose|k: int| 0 <= k < strs(tainted@).len() && strs(tainted@)[k] == s;
                    if k < before.len() {
                        assert(before[k] == s);
                        assert(before.contains(s));
                        let j = choose|j: int|
                            0 <= j < i && (#[trigger] all[j]).session_id == s && !clean(
                                all[j],
                                ws,
                                survey,
                            );
                        assert(all[j].session_id == s);
                    } else {
                        assert(all[i as int].session_id == s);
                    }
                }
                if exists|j: int|
                    0 <= j < i + 1 && (#[trigger] all[j]).session_id == s && !clean(
                        all[j],
                        ws,
                        survey,
                    ) {
                    let j = choose|j: int|
                        0 <= j < i + 1 && (#[trigger] all[j]).session_id == s && !clean(
                            all[j],
                            ws,
                            survey,
                        );
                    if j == i {
                        assert(strs(tainted@)[before.len() as int] == s);
                    } else {
                        assert(before.contains(s));
                        let k = choose|k: int| 0 <= k < before.len() && before[k] == s;
                        assert(strs(tainted@)[k] == s);
                    }
                }
            }
        }
        let admitted = !has_text(&tainted, g.session_id.as_str());
        assert(admitted == admitted_at(all, i as int, ws, survey)) by {
            if admitted {
                assert forall|j: int|
                    0 <= j <= i && (#[trigger] all[j]).session_id
                        == all[i as int].session_id implies clean(all[j], ws, survey) by {
                    if !clean(all[j], ws, survey) {
                        assert(strs(tainted@).contains(all[j].session_id));
                    }
                }
            }
        }
        let entry = Admission {
            session_id: g.session_id.clone(),
            group_id: g.group_id.clone(),
            admitted,
        };
        assert(entry@ == admissions(all, ws, survey)[i as int]);
        out.push(entry);
    }
    assert(admissions_view(out@) =~= admissions(all, ws, survey));
    out
}

/// The latest word on a group.
pub fn find_admission(v: &Vec<Admission>, session_id: &str, group_id: &str) -> (r: Option<bool>)
    ensures
        r == admission_of(admissions_view(v@), session_id@, group_id@),
{
    let ghost all = admissions_view(v@);
    let mut i: usize = v.len();
    assert(all.take(all.len() as int) =~= all);
    while i > 0
        invariant
            i <= v@.len(),
            all == admissions_view(v@),
            admission_of(all, session_id@, group_id@) == admission_of(
                all.take(i as int),
                session_id@,
                group_id@,
            ),
        decreases i,
    {
        assert(all.take(i as int).drop_last() =~= all.take(i - 1));
        assert(all.take(i as int).last() == v@[i - 1]@);
        if str_eq(v[i - 1].session_id.as_str(), session_id) && str_eq(
            v[i - 1].group_id.as_str(),
            group_id,
        ) {
            return Some(v[i - 1].admitted);
        }
        i = i - 1;
    }
    None
}

} // verus!

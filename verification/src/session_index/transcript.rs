//! Reading one session transcript: the write-edges, the paths that each message touched,
//! and how much searching went on.
use vstd::prelude::*;

use crate::json::{
    arr_of, as_array, as_str, field, field2, json_document, json_size, json_views, lemma_field_size,
    lemma_sizes_len, opt_json, parse_json, str_of, Json, JsonV,
};
use crate::text::{
    ascii_lower, clone_opt, contains_chars, fit_len, fitting, from_chars, has_sub, is_white_space,
    lemma_lines_total, lemma_total_len_take, lines_of, matches_at, opt_ref, opt_str, own_opt,
    slice_chars, split_at_char, split_chars, split_lines, split_on, starts_with, str_eq, strs,
    texts, to_ascii_lower, to_chars, total_len, trim_chars, trim_end_by, trim_end_chars,
    trim_start_by, trim_start_chars, trimmed, utf8_len, ws,
};
use crate::time::{parse_rfc3339, rfc3339_moment, seconds_of};

verus! {

// ---- Small rules -----------------------------------------------------------------------

/// Whose retrieval a tool call was.
#[derive(Clone, Copy, Debug, PartialEq, Eq, Structural)]
pub enum ToolClass {
    Retrieval,
    Nibdex,
}

/// One of the commands that are a search: `grep`, `rg`, `ripgrep`, `find`, `ack`, `ag`.
pub open spec fn leads_with_search(head: Seq<char>) -> bool {
    ||| "grep "@.is_prefix_of(head)
    ||| "rg "@.is_prefix_of(head)
    ||| "ripgrep"@.is_prefix_of(head)
    ||| "find "@.is_prefix_of(head)
    ||| "ack "@.is_prefix_of(head)
    ||| "ag "@.is_prefix_of(head)
}

/// The command that leads a pipeline: what stands before the first `|`, without leading
/// white space and without a leading `sudo `.
pub open spec fn pipeline_head(segment: Seq<char>) -> Seq<char> {
    let head = trim_start_by(split_on(segment, |c: char| c == '|')[0], ws());
    if "sudo "@.is_prefix_of(head) {
        trim_start_by(head.skip("sudo "@.len() as int), ws())
    } else {
        trim_start_by(head, ws())
    }
}

/// The characters that end a command.
pub open spec fn command_end() -> spec_fn(char) -> bool {
    |c: char| c == ';' || c == '&'
}

/// A search leads one of the pipelines of a shell command. A search further down a
/// pipeline filters another command's output and does not count.
pub open spec fn shell_search(cmd: Seq<char>) -> bool {
    exists|i: int|
        0 <= i < split_on(cmd, command_end()).len() && leads_with_search(
            pipeline_head(#[trigger] split_on(cmd, command_end())[i]),
        )
}

/// The class of a tool call, by the name of the tool and its input.
pub open spec fn tool_class(name: Seq<char>, input: Option<JsonV>) -> Option<ToolClass> {
    if has_sub(ascii_lower(name), "nibdex"@) {
        Some(ToolClass::Nibdex)
    } else if name == "Grep"@ || name == "Glob"@ {
        Some(ToolClass::Retrieval)
    } else if name == "Bash"@ && shell_search(member_text(input, "command"@)) {
        Some(ToolClass::Retrieval)
    } else {
        None
    }
}

/// A member of an optional object.
pub open spec fn member(input: Option<JsonV>, key: Seq<char>) -> Option<JsonV> {
    match input {
        Some(v) => field(v, key),
        None => None,
    }
}

/// The text of a member, empty where there is none.
pub open spec fn member_text(input: Option<JsonV>, key: Seq<char>) -> Seq<char> {
    text_or_empty(str_of(member(input, key)))
}

pub open spec fn text_or_empty(o: Option<Seq<char>>) -> Seq<char> {
    match o {
        Some(s) => s,
        None => Seq::empty(),
    }
}

fn search_leads(head: &[char]) -> (b: bool)
    ensures
        b == leads_with_search(head@),
{
    starts_with(head, "grep ") || starts_with(head, "rg ") || starts_with(head, "ripgrep")
        || starts_with(head, "find ") || starts_with(head, "ack ") || starts_with(head, "ag ")
}

fn head_of_pipeline(segment: &[char]) -> (r: Vec<char>)
    ensures
        r@ == pipeline_head(segment@),
{
    let pieces = split_at_char(segment, '|');
    assert(texts(pieces@)[0] == pieces@[0]@);
    let head = trim_start_chars(pieces[0].as_slice(), is_white_space, Ghost(ws()));
    if starts_with(head.as_slice(), "sudo ") {
        let sudo = to_chars("sudo ");
        let rest = slice_chars(head.as_slice(), sudo.len(), head.len());
        assert(rest@ =~= head@.skip("sudo "@.len() as int));
        trim_start_chars(rest.as_slice(), is_white_space, Ghost(ws()))
    } else {
        trim_start_chars(head.as_slice(), is_white_space, Ghost(ws()))
    }
}

fn is_shell_search(cmd: &str) -> (b: bool)
    ensures
        b == shell_search(cmd@),
{
    let v = to_chars(cmd);
    let f = |c: char| -> (b: bool)
        ensures
            b == (c == ';' || c == '&'),
        { c == ';' || c == '&' };
    let segments = split_chars(&v, f, Ghost(command_end()));
    let ghost all = split_on(cmd@, command_end());
    for i in 0..segments.len()
        invariant
            texts(segments@) == all,
            all == split_on(cmd@, command_end()),
            forall|j: int| 0 <= j < i ==> !leads_with_search(pipeline_head(#[trigger] all[j])),
    {
        assert(all[i as int] == segments@[i as int]@);
        let head = head_of_pipeline(segments[i].as_slice());
        if search_leads(head.as_slice()) {
            return true;
        }
    }
    false
}

/// The member `key` of an optional object.
fn get_member<'a>(input: Option<&'a Json>, key: &str) -> (r: Option<&'a Json>)
    ensures
        opt_json(r) == member(opt_json(input), key@),
{
    match input {
        Some(v) => v.get(key),
        None => None,
    }
}

/// Classifies one tool call by whether it is retrieval, and whose.
pub fn classify_tool_call(name: &str, input: Option<&Json>) -> (r: Option<ToolClass>)
    ensures
        r == tool_class(name@, opt_json(input)),
{
    let v = to_chars(name);
    let lower = to_ascii_lower(&v);
    let pat = to_chars("nibdex");
    if contains_chars(&lower, &pat) {
        return Some(ToolClass::Nibdex);
    }
    if str_eq(name, "Grep") || str_eq(name, "Glob") {
        return Some(ToolClass::Retrieval);
    }
    if str_eq(name, "Bash") {
        let cmd = match as_str(get_member(input, "command")) {
            Some(c) => c.to_owned(),
            None => String::new(),
        };
        assert(cmd@ =~= member_text(opt_json(input), "command"@));
        if is_shell_search(cmd.as_str()) {
            return Some(ToolClass::Retrieval);
        }
    }
    None
}

/// The path that a tool call touched: the first of `file_path`, `path` and
/// `notebook_path` that is a text.
pub open spec fn input_path(input: Option<JsonV>) -> Option<Seq<char>> {
    match str_of(member(input, "file_path"@)) {
        Some(p) => Some(p),
        None => match str_of(member(input, "path"@)) {
            Some(p) => Some(p),
            None => str_of(member(input, "notebook_path"@)),
        },
    }
}

/// The path that a tool call touched.
pub fn tool_input_path<'a>(input: Option<&'a Json>) -> (r: Option<&'a str>)
    ensures
        opt_ref(r) == input_path(opt_json(input)),
{
    match as_str(get_member(input, "file_path")) {
        Some(p) => Some(p),
        None => match as_str(get_member(input, "path")) {
            Some(p) => Some(p),
            None => as_str(get_member(input, "notebook_path")),
        },
    }
}

/// The predicate that holds of a slash.
pub open spec fn slash() -> spec_fn(char) -> bool {
    |c: char| c == '/'
}

pub fn is_slash(c: char) -> (b: bool)
    ensures
        b == (c == '/'),
{
    c == '/'
}

/// What is left of `abs` below the directory `cwd`: nothing where `abs` is not below it.
/// The match ends at a component boundary, and slashes at the end of `cwd` do not count.
pub open spec fn below(abs: Seq<char>, cwd: Seq<char>) -> Option<Seq<char>> {
    let dir = trim_end_by(cwd, slash());
    if dir.is_prefix_of(abs) {
        let rest = abs.skip(dir.len() as int);
        let rel = trim_start_by(rest, slash());
        if (rest.len() == 0 || rest[0] == '/') && rel.len() > 0 {
            Some(rel)
        } else {
            None
        }
    } else {
        None
    }
}

/// The path that is stored for an edit: below `cwd` where it lies there.
pub open spec fn stored_path(abs: Seq<char>, cwd: Option<Seq<char>>) -> Seq<char> {
    match cwd {
        Some(c) => match below(abs, c) {
            Some(rel) => rel,
            None => abs,
        },
        None => abs,
    }
}

/// If `cwd` is a path prefix of `abs_path`, the pair of `cwd` and the rest; otherwise the
/// pair of `cwd` and `abs_path` itself.
pub fn split_repo_relative(abs_path: &str, cwd: Option<&str>) -> (r: (Option<String>, String))
    ensures
        opt_str(r.0) == opt_ref(cwd),
        r.1@ == stored_path(abs_path@, opt_ref(cwd)),
{
    match cwd {
        None => (None, abs_path.to_owned()),
        Some(c) => {
            let dir = trim_end_chars(&to_chars(c), is_slash, Ghost(slash()));
            let abs = to_chars(abs_path);
            if matches_at(&abs, &dir, 0) {
                assert(dir@.is_prefix_of(abs@));
                let rest = slice_chars(&abs, dir.len(), abs.len());
                assert(rest@ =~= abs@.skip(dir@.len() as int));
                if rest.len() == 0 || rest[0] == '/' {
                    let rel = trim_start_chars(&rest, is_slash, Ghost(slash()));
                    if rel.len() > 0 {
                        return (Some(c.to_owned()), from_chars(&rel));
                    }
                }
            } else {
                assert(!dir@.is_prefix_of(abs@)) by {
                    if dir@.is_prefix_of(abs@) {
                        assert(abs@.subrange(0, dir@.len() as int) == dir@);
                    }
                }
            }
            (Some(c.to_owned()), abs_path.to_owned())
        },
    }
}

/// The most bytes of a stored rationale, the ellipsis not counted.
pub const RATIONALE_BYTES: usize = 500;

/// A rationale without white space around it, cut to 500 bytes at a character boundary
/// and marked with an ellipsis where it is longer.
pub open spec fn bounded_rationale(s: Seq<char>) -> Seq<char> {
    let t = trimmed(s);
    if utf8_len(t) <= RATIONALE_BYTES {
        t
    } else {
        t.take(fit_len(t, RATIONALE_BYTES as nat) as int).push('…')
    }
}

/// Keeps a rationale bounded.
pub fn truncate_rationale(s: &str) -> (r: String)
    ensures
        r@ == bounded_rationale(s@),
{
    let t = trim_chars(&to_chars(s));
    let n: usize = fitting(&t, RATIONALE_BYTES);
    if n == t.len() {
        proof {
            crate::text::lemma_fit_len_bounds(t@, RATIONALE_BYTES as nat);
            assert(t@.take(n as int) =~= t@);
        }
        from_chars(&t)
    } else {
        proof {
            assert(utf8_len(t@) > RATIONALE_BYTES);
        }
        let mut out = slice_chars(&t, 0, n);
        assert(out@ =~= t@.take(n as int));
        out.push('…');
        from_chars(&out)
    }
}

// ---- What a transcript yields -----------------------------------------------------------

/// One write-edge of a transcript: an `Edit` or `Write` call, before it is bound to a
/// commit.
#[derive(Debug)]
pub struct SessionEdge {
    pub session_id: String,
    pub message_uuid: String,
    /// Position among the captured calls of its line, from 0. With `message_uuid` it is
    /// the key by which a repeated edge is recognised.
    pub edge_ordinal: i64,
    pub tool: String,
    /// Relative to `repo_path` where it lies below it, else as it was written.
    pub file_path: String,
    pub repo_path: Option<String>,
    pub git_branch: Option<String>,
    pub edited_at: i64,
    pub rationale: String,
    /// The path as the call gave it.
    pub raw_abs_path: String,
    pub cwd: Option<String>,
    /// The logical message that the edge belongs to.
    pub group_id: String,
}

/// What a [`SessionEdge`] holds.
pub struct EdgeV {
    pub session_id: Seq<char>,
    pub message_uuid: Seq<char>,
    pub edge_ordinal: int,
    pub tool: Seq<char>,
    pub file_path: Seq<char>,
    pub repo_path: Option<Seq<char>>,
    pub git_branch: Option<Seq<char>>,
    pub edited_at: i64,
    pub rationale: Seq<char>,
    pub raw_abs_path: Seq<char>,
    pub cwd: Option<Seq<char>>,
    pub group_id: Seq<char>,
}

impl View for SessionEdge {
    type V = EdgeV;

    open spec fn view(&self) -> EdgeV {
        EdgeV {
            session_id: self.session_id@,
            message_uuid: self.message_uuid@,
            edge_ordinal: self.edge_ordinal as int,
            tool: self.tool@,
            file_path: self.file_path@,
            repo_path: opt_str(self.repo_path),
            git_branch: opt_str(self.git_branch),
            edited_at: self.edited_at,
            rationale: self.rationale@,
            raw_abs_path: self.raw_abs_path@,
            cwd: opt_str(self.cwd),
            group_id: self.group_id@,
        }
    }
}

/// The paths that one logical message touched through any tool call, in order.
#[derive(Debug)]
pub struct GroupTaint {
    pub session_id: String,
    pub group_id: String,
    pub paths: Vec<String>,
}

/// What a [`GroupTaint`] holds.
pub struct GroupV {
    pub session_id: Seq<char>,
    pub group_id: Seq<char>,
    pub paths: Seq<Seq<char>>,
}

impl View for GroupTaint {
    type V = GroupV;

    open spec fn view(&self) -> GroupV {
        GroupV {
            session_id: self.session_id@,
            group_id: self.group_id@,
            paths: strs(self.paths@),
        }
    }
}

/// How much retrieval a session did in one working directory, and how much of it the
/// index served.
#[derive(Debug)]
pub struct SessionActivity {
    pub session_id: String,
    pub cwd: Option<String>,
    /// The time of the first counted call that had one; 0 while there is none.
    pub first_seen: i64,
    pub retrieval_calls: i64,
    pub nibdex_calls: i64,
}

/// What a [`SessionActivity`] holds.
pub struct ActivityV {
    pub session_id: Seq<char>,
    pub cwd: Option<Seq<char>>,
    pub first_seen: i64,
    pub retrieval_calls: int,
    pub nibdex_calls: int,
}

impl View for SessionActivity {
    type V = ActivityV;

    open spec fn view(&self) -> ActivityV {
        ActivityV {
            session_id: self.session_id@,
            cwd: opt_str(self.cwd),
            first_seen: self.first_seen,
            retrieval_calls: self.retrieval_calls as int,
            nibdex_calls: self.nibdex_calls as int,
        }
    }
}

pub open spec fn edges_view(v: Seq<SessionEdge>) -> Seq<EdgeV> {
    Seq::new(v.len(), |i: int| v[i]@)
}

pub open spec fn groups_view(v: Seq<GroupTaint>) -> Seq<GroupV> {
    Seq::new(v.len(), |i: int| v[i]@)
}

pub open spec fn activity_view(v: Seq<SessionActivity>) -> Seq<ActivityV> {
    Seq::new(v.len(), |i: int| v[i]@)
}

// ---- One line ---------------------------------------------------------------------------

/// What a transcript line says of itself.
pub struct LineV {
    pub session_id: Seq<char>,
    pub message_uuid: Seq<char>,
    pub group_id: Seq<char>,
    pub cwd: Option<Seq<char>>,
    pub git_branch: Option<Seq<char>>,
    pub edited_at: Option<i64>,
}

/// The context of the line that holds the document `d`.
pub open spec fn line_context(d: JsonV) -> LineV {
    LineV {
        session_id: text_or_empty(str_of(field(d, "sessionId"@))),
        message_uuid: text_or_empty(str_of(field(d, "uuid"@))),
        group_id: text_or_empty(str_of(field2(d, "message"@, "id"@))),
        cwd: str_of(field(d, "cwd"@)),
        git_branch: str_of(field(d, "gitBranch"@)),
        edited_at: match str_of(field(d, "timestamp"@)) {
            Some(t) => seconds_of(rfc3339_moment(t)),
            None => None,
        },
    }
}

/// The blocks of an assistant message; nothing where the line is not one.
pub open spec fn assistant_blocks(d: JsonV) -> Option<Seq<JsonV>> {
    if str_of(field(d, "type"@)) == Some("assistant"@) {
        arr_of(field2(d, "message"@, "content"@))
    } else {
        None
    }
}

/// What the blocks of one message have yielded so far.
pub struct MessageV {
    /// The latest text block that is not blank.
    pub text: Seq<char>,
    pub edges: Seq<EdgeV>,
    pub paths: Seq<Seq<char>>,
    pub activity: Seq<ActivityV>,
    pub undated: nat,
}

/// A message of which no block has been read.
pub open spec fn fresh_message(activity: Seq<ActivityV>) -> MessageV {
    MessageV {
        text: Seq::empty(),
        edges: Seq::empty(),
        paths: Seq::empty(),
        activity,
        undated: 0,
    }
}

pub open spec fn blank(s: Seq<char>) -> bool {
    trimmed(s).len() == 0
}

/// Where the tally of a session and working directory stands.
pub open spec fn tally_index(
    v: Seq<ActivityV>,
    session_id: Seq<char>,
    cwd: Option<Seq<char>>,
) -> Option<int>
    decreases v.len(),
{
    if v.len() == 0 {
        None
    } else {
        match tally_index(v.drop_last(), session_id, cwd) {
            Some(i) => Some(i),
            None => if v.last().session_id == session_id && v.last().cwd == cwd {
                Some(v.len() - 1)
            } else {
                None
            },
        }
    }
}

/// One call more. Only a real time stamps `first_seen`.
pub open spec fn counted(a: ActivityV, class: ToolClass, at: Option<i64>) -> ActivityV {
    ActivityV {
        first_seen: if a.first_seen == 0 && at is Some {
            at->0
        } else {
            a.first_seen
        },
        retrieval_calls: if class == ToolClass::Retrieval {
            a.retrieval_calls + 1
        } else {
            a.retrieval_calls
        },
        nibdex_calls: if class == ToolClass::Nibdex {
            a.nibdex_calls + 1
        } else {
            a.nibdex_calls
        },
        ..a
    }
}

/// The tallies after one call.
pub open spec fn tallied(v: Seq<ActivityV>, line: LineV, class: ToolClass) -> Seq<ActivityV> {
    match tally_index(v, line.session_id, line.cwd) {
        Some(i) => v.update(i, counted(v[i], class, line.edited_at)),
        None => v.push(
            counted(
                ActivityV {
                    session_id: line.session_id,
                    cwd: line.cwd,
                    first_seen: 0,
                    retrieval_calls: 0,
                    nibdex_calls: 0,
                },
                class,
                line.edited_at,
            ),
        ),
    }
}

/// The edge of an edit of `abs` at the time `at`. The rationale is the message's own text
/// where it has one, and otherwise the text that the line inherits.
pub open spec fn edge_of(
    line: LineV,
    inherited: Seq<char>,
    m: MessageV,
    tool: Seq<char>,
    abs: Seq<char>,
    at: i64,
) -> EdgeV {
    EdgeV {
        session_id: line.session_id,
        message_uuid: line.message_uuid,
        edge_ordinal: m.edges.len() as int,
        tool,
        file_path: stored_path(abs, line.cwd),
        repo_path: line.cwd,
        git_branch: line.git_branch,
        edited_at: at,
        rationale: bounded_rationale(
            if blank(m.text) {
                inherited
            } else {
                m.text
            },
        ),
        raw_abs_path: abs,
        cwd: line.cwd,
        group_id: line.group_id,
    }
}

/// One tool call: its path counts as touched, a search is tallied, and an edit of a file
/// becomes an edge, or is counted where the line has no time.
pub open spec fn with_call(
    line: LineV,
    inherited: Seq<char>,
    m: MessageV,
    tool: Seq<char>,
    input: Option<JsonV>,
) -> MessageV {
    let touched = MessageV {
        paths: match input_path(input) {
            Some(p) => m.paths.push(p),
            None => m.paths,
        },
        activity: match tool_class(tool, input) {
            Some(class) => tallied(m.activity, line, class),
            None => m.activity,
        },
        ..m
    };
    match str_of(member(input, "file_path"@)) {
        Some(abs) => if tool == "Edit"@ || tool == "Write"@ {
            match line.edited_at {
                Some(at) => MessageV {
                    edges: m.edges.push(edge_of(line, inherited, m, tool, abs, at)),
                    ..touched
                },
                None => MessageV { undated: m.undated + 1, ..touched },
            }
        } else {
            touched
        },
        None => touched,
    }
}

/// One block of a message.
pub open spec fn with_block(
    line: LineV,
    inherited: Seq<char>,
    m: MessageV,
    block: JsonV,
) -> MessageV {
    let kind = str_of(field(block, "type"@));
    if kind == Some("text"@) {
        match str_of(field(block, "text"@)) {
            Some(t) => if blank(t) {
                m
            } else {
                MessageV { text: t, ..m }
            },
            None => m,
        }
    } else if kind == Some("tool_use"@) {
        with_call(
            line,
            inherited,
            m,
            text_or_empty(str_of(field(block, "name"@))),
            field(block, "input"@),
        )
    } else {
        m
    }
}

/// The blocks of a message, one after the other.
pub open spec fn with_blocks(
    line: LineV,
    inherited: Seq<char>,
    m: MessageV,
    blocks: Seq<JsonV>,
) -> MessageV
    decreases blocks.len(),
{
    if blocks.len() == 0 {
        m
    } else {
        with_block(line, inherited, with_blocks(line, inherited, m, blocks.drop_last()), blocks.last())
    }
}

// ---- The whole transcript ---------------------------------------------------------------

/// What the lines read so far have yielded.
pub struct TranscriptV {
    pub edges: Seq<EdgeV>,
    pub groups: Seq<GroupV>,
    pub activity: Seq<ActivityV>,
    /// The latest message text, with the session and working directory it was written in.
    pub last_text: Seq<char>,
    pub last_session: Seq<char>,
    pub last_cwd: Option<Seq<char>>,
    pub lines_total: nat,
    pub lines_parse_err: nat,
    pub undated: nat,
}

pub open spec fn empty_transcript() -> TranscriptV {
    TranscriptV {
        edges: Seq::empty(),
        groups: Seq::empty(),
        activity: Seq::empty(),
        last_text: Seq::empty(),
        last_session: Seq::empty(),
        last_cwd: None,
        lines_total: 0,
        lines_parse_err: 0,
        undated: 0,
    }
}

/// The text that a line inherits as a rationale: that of an earlier message, within the
/// same session and the same working directory only.
pub open spec fn inherited_text(t: TranscriptV, line: LineV) -> Seq<char> {
    if line.session_id == t.last_session && line.cwd == t.last_cwd {
        t.last_text
    } else {
        Seq::empty()
    }
}

/// The groups after a line that touched `paths`: the last group grows where the line goes
/// on with it, else a new group begins.
pub open spec fn grouped(v: Seq<GroupV>, line: LineV, paths: Seq<Seq<char>>) -> Seq<GroupV> {
    if v.len() > 0 && v.last().session_id == line.session_id && v.last().group_id
        == line.group_id {
        v.drop_last().push(GroupV { paths: v.last().paths + paths, ..v.last() })
    } else {
        v.push(GroupV { session_id: line.session_id, group_id: line.group_id, paths })
    }
}

/// One assistant message.
pub open spec fn with_message(t: TranscriptV, line: LineV, blocks: Seq<JsonV>) -> TranscriptV {
    let inherited = inherited_text(t, line);
    let m = with_blocks(line, inherited, fresh_message(t.activity), blocks);
    TranscriptV {
        edges: t.edges + m.edges,
        groups: grouped(t.groups, line, m.paths),
        activity: m.activity,
        last_text: if blank(m.text) {
            inherited
        } else {
            m.text
        },
        last_session: line.session_id,
        last_cwd: line.cwd,
        undated: t.undated + m.undated,
        ..t
    }
}

/// One line, given the document that it holds. A blank line is passed over; a line that
/// holds no document is counted; a line that is no assistant message yields nothing.
pub open spec fn with_line(t: TranscriptV, line: Seq<char>, doc: Option<JsonV>) -> TranscriptV {
    if blank(line) {
        t
    } else {
        let seen = TranscriptV { lines_total: t.lines_total + 1, ..t };
        match doc {
            None => TranscriptV { lines_parse_err: t.lines_parse_err + 1, ..seen },
            Some(d) => match assistant_blocks(d) {
                None => seen,
                Some(blocks) => with_message(seen, line_context(d), blocks),
            },
        }
    }
}

/// The lines of a transcript, one after the other.
pub open spec fn transcript(lines: Seq<Seq<char>>) -> TranscriptV
    decreases lines.len(),
{
    if lines.len() == 0 {
        empty_transcript()
    } else {
        with_line(transcript(lines.drop_last()), lines.last(), json_document(lines.last()))
    }
}

// ---- Reading ----------------------------------------------------------------------------

/// What a transcript line says of itself.
struct LineContext {
    session_id: String,
    message_uuid: String,
    group_id: String,
    cwd: Option<String>,
    git_branch: Option<String>,
    edited_at: Option<i64>,
}

impl LineContext {
    spec fn model(&self) -> LineV {
        LineV {
            session_id: self.session_id@,
            message_uuid: self.message_uuid@,
            group_id: self.group_id@,
            cwd: opt_str(self.cwd),
            git_branch: opt_str(self.git_branch),
            edited_at: self.edited_at,
        }
    }
}

fn owned_or_empty(o: Option<&str>) -> (r: String)
    ensures
        r@ == text_or_empty(opt_ref(o)),
{
    match o {
        Some(s) => s.to_owned(),
        None => {
            let r = String::new();
            assert(r@ =~= Seq::empty());
            r
        },
    }
}

fn same_opt(a: &Option<String>, b: &Option<String>) -> (r: bool)
    ensures
        r == (opt_str(*a) == opt_str(*b)),
{
    match (a, b) {
        (Some(x), Some(y)) => str_eq(x.as_str(), y.as_str()),
        (None, None) => true,
        _ => false,
    }
}

fn is_blank(s: &str) -> (b: bool)
    ensures
        b == blank(s@),
{
    let t = trim_chars(&to_chars(s));
    t.len() == 0
}

fn context_of(d: &Json) -> (r: LineContext)
    ensures
        r.model() == line_context(d@),
{
    let edited_at = match as_str(d.get("timestamp")) {
        Some(t) => parse_rfc3339(t),
        None => None,
    };
    LineContext {
        session_id: owned_or_empty(as_str(d.get("sessionId"))),
        message_uuid: owned_or_empty(as_str(d.get("uuid"))),
        group_id: owned_or_empty(as_str(d.get2("message", "id"))),
        cwd: own_opt(as_str(d.get("cwd"))),
        git_branch: own_opt(as_str(d.get("gitBranch"))),
        edited_at,
    }
}

struct MessageState {
    text: String,
    edges: Vec<SessionEdge>,
    paths: Vec<String>,
    activity: Vec<SessionActivity>,
    undated: usize,
}

/// All calls counted in `v`.
pub open spec fn calls_total(v: Seq<ActivityV>) -> int
    decreases v.len(),
{
    if v.len() == 0 {
        0
    } else {
        calls_total(v.drop_last()) + v.last().retrieval_calls + v.last().nibdex_calls
    }
}

/// The counts are not negative, and together no more than `n`.
pub open spec fn tallies_within(v: Seq<ActivityV>, n: int) -> bool {
    &&& forall|i: int|
        0 <= i < v.len() ==> 0 <= (#[trigger] v[i]).retrieval_calls && 0 <= v[i].nibdex_calls
    &&& calls_total(v) <= n
}

pub proof fn lemma_calls_total_update(v: Seq<ActivityV>, i: int, a: ActivityV)
    requires
        0 <= i < v.len(),
    ensures
        calls_total(v.update(i, a)) == calls_total(v) - v[i].retrieval_calls - v[i].nibdex_calls
            + a.retrieval_calls + a.nibdex_calls,
    decreases v.len(),
{
    let u = v.update(i, a);
    if i == v.len() - 1 {
        assert(u.drop_last() =~= v.drop_last());
    } else {
        assert(u.drop_last() =~= v.drop_last().update(i, a));
        lemma_calls_total_update(v.drop_last(), i, a);
    }
}

/// One tally is no more than all together.
pub proof fn lemma_calls_total_member(v: Seq<ActivityV>, i: int)
    requires
        0 <= i < v.len(),
        forall|j: int|
            0 <= j < v.len() ==> 0 <= (#[trigger] v[j]).retrieval_calls && 0 <= v[j].nibdex_calls,
    ensures
        0 <= v[i].retrieval_calls + v[i].nibdex_calls <= calls_total(v),
    decreases v.len(),
{
    let u = v.drop_last();
    assert forall|j: int| 0 <= j < u.len() implies 0 <= (#[trigger] u[j]).retrieval_calls && 0
        <= u[j].nibdex_calls by {
        assert(u[j] == v[j]);
    }
    lemma_calls_total_nonneg(u);
    if i < v.len() - 1 {
        lemma_calls_total_member(u, i);
    }
}

pub proof fn lemma_calls_total_nonneg(v: Seq<ActivityV>)
    requires
        forall|j: int|
            0 <= j < v.len() ==> 0 <= (#[trigger] v[j]).retrieval_calls && 0 <= v[j].nibdex_calls,
    ensures
        0 <= calls_total(v),
    decreases v.len(),
{
    if v.len() > 0 {
        let u = v.drop_last();
        assert forall|j: int| 0 <= j < u.len() implies 0 <= (#[trigger] u[j]).retrieval_calls && 0
            <= u[j].nibdex_calls by {
            assert(u[j] == v[j]);
        }
        lemma_calls_total_nonneg(u);
        let last = v[v.len() - 1];
        assert(0 <= last.retrieval_calls);
    }
}

impl MessageState {
    spec fn model(&self) -> MessageV {
        MessageV {
            text: self.text@,
            edges: edges_view(self.edges@),
            paths: strs(self.paths@),
            activity: activity_view(self.activity@),
            undated: self.undated as nat,
        }
    }

    /// The counters have room after `n` calls in this message and `before` calls earlier.
    spec fn within(&self, n: int, before: int) -> bool {
        &&& self.edges@.len() <= n
        &&& self.undated <= n
        &&& tallies_within(activity_view(self.activity@), before + n)
    }

    fn tally(&mut self, line: &LineContext, class: ToolClass, Ghost(n): Ghost<int>)
        requires
            tallies_within(activity_view(old(self).activity@), n),
            0 <= n < i64::MAX,
        ensures
            final(self).model() == (MessageV {
                activity: tallied(old(self).model().activity, line.model(), class),
                ..old(self).model()
            }),
            tallies_within(activity_view(final(self).activity@), n + 1),
            final(self).edges@ == old(self).edges@,
            final(self).undated == old(self).undated,
    {
        let ghost start = self.activity@;
        let ghost model = activity_view(start);
        let count: usize = self.activity.len();
        let mut i: usize = 0;
        while i < count
            invariant
                self.activity@ == start,
                *self == *old(self),
                model == activity_view(start),
                count == start.len(),
                i <= count,
                tally_index(model.take(i as int), line.model().session_id, line.model().cwd) is None,
                tallies_within(model, n),
                0 <= n < i64::MAX,
            decreases count - i,
        {
            assert(model.take(i + 1).drop_last() =~= model.take(i as int));
            if str_eq(self.activity[i].session_id.as_str(), line.session_id.as_str()) && same_opt(
                &self.activity[i].cwd,
                &line.cwd,
            ) {
                proof {
                    lemma_tally_index_stays(
                        model,
                        line.model().session_id,
                        line.model().cwd,
                        i + 1,
                    );
                }
                proof {
                    assert(model[i as int] == self.activity@[i as int]@);
                    lemma_calls_total_member(model, i as int);
                    lemma_calls_total_update(
                        model,
                        i as int,
                        counted(model[i as int], class, line.model().edited_at),
                    );
                }
                let first_seen: i64 = match line.edited_at {
                    Some(t) => if self.activity[i].first_seen == 0 {
                        t
                    } else {
                        self.activity[i].first_seen
                    },
                    None => self.activity[i].first_seen,
                };
                let changed = SessionActivity {
                    session_id: self.activity[i].session_id.clone(),
                    cwd: clone_opt(&self.activity[i].cwd),
                    first_seen,
                    retrieval_calls: if class == ToolClass::Retrieval {
                        self.activity[i].retrieval_calls + 1
                    } else {
                        self.activity[i].retrieval_calls
                    },
                    nibdex_calls: if class == ToolClass::Nibdex {
                        self.activity[i].nibdex_calls + 1
                    } else {
                        self.activity[i].nibdex_calls
                    },
                };
                self.activity.set(i, changed);
                assert(activity_view(self.activity@) =~= tallied(model, line.model(), class));
                return;
            }
            i = i + 1;
        }
        assert(model.take(count as int) =~= model);
        let fresh = SessionActivity {
            session_id: line.session_id.clone(),
            cwd: clone_opt(&line.cwd),
            first_seen: match line.edited_at {
                Some(t) => t,
                None => 0,
            },
            retrieval_calls: if class == ToolClass::Retrieval {
                1
            } else {
                0
            },
            nibdex_calls: if class == ToolClass::Nibdex {
                1
            } else {
                0
            },
        };
        self.activity.push(fresh);
        assert(activity_view(self.activity@) =~= tallied(model, line.model(), class));
        assert(activity_view(self.activity@).drop_last() =~= model);
    }

    fn call(
        &mut self,
        line: &LineContext,
        inherited: &str,
        tool: &str,
        input: Option<&Json>,
        Ghost(n): Ghost<int>,
        Ghost(before): Ghost<int>,
    )
        requires
            old(self).within(n, before),
            0 <= n,
            0 <= before,
            before + n < i64::MAX,
            n < usize::MAX,
        ensures
            final(self).model() == with_call(
                line.model(),
                inherited@,
                old(self).model(),
                tool@,
                opt_json(input),
            ),
            final(self).within(n + 1, before),
    {
        let ghost m = self.model();
        if let Some(p) = tool_input_path(input) {
            self.paths.push(p.to_owned());
            assert(strs(self.paths@) =~= m.paths.push(p@));
        }
        if let Some(class) = classify_tool_call(tool, input) {
            self.tally(line, class, Ghost(before + n));
        }
        if str_eq(tool, "Edit") || str_eq(tool, "Write") {
            if let Some(abs) = as_str(get_member(input, "file_path")) {
                match line.edited_at {
                    None => {
                        self.undated = self.undated + 1;
                    },
                    Some(at) => {
                        let rationale = if is_blank(self.text.as_str()) {
                            truncate_rationale(inherited)
                        } else {
                            truncate_rationale(self.text.as_str())
                        };
                        let cwd = match &line.cwd {
                            Some(c) => Some(c.as_str()),
                            None => None,
                        };
                        let (repo_path, file_path) = split_repo_relative(abs, cwd);
                        let ghost before_push = edges_view(self.edges@);
                        let edge = SessionEdge {
                            session_id: line.session_id.clone(),
                            message_uuid: line.message_uuid.clone(),
                            edge_ordinal: self.edges.len() as i64,
                            tool: tool.to_owned(),
                            file_path,
                            repo_path,
                            git_branch: clone_opt(&line.git_branch),
                            edited_at: at,
                            rationale,
                            raw_abs_path: abs.to_owned(),
                            cwd: clone_opt(&line.cwd),
                            group_id: line.group_id.clone(),
                        };
                        assert(edge@ == edge_of(line.model(), inherited@, m, tool@, abs@, at));
                        self.edges.push(edge);
                        assert(edges_view(self.edges@) =~= before_push.push(edge@));
                    },
                }
            }
        }
    }

    fn block(
        &mut self,
        line: &LineContext,
        inherited: &str,
        block: &Json,
        Ghost(n): Ghost<int>,
        Ghost(before): Ghost<int>,
    )
        requires
            old(self).within(n, before),
            0 <= n,
            0 <= before,
            before + n < i64::MAX,
            n < usize::MAX,
        ensures
            final(self).model() == with_block(
                line.model(),
                inherited@,
                old(self).model(),
                block@,
            ),
            final(self).within(n + 1, before),
    {
        let kind = as_str(block.get("type"));
        if is_text(kind, "text") {
            if let Some(t) = as_str(block.get("text")) {
                if !is_blank(t) {
                    self.text = t.to_owned();
                }
            }
        } else if is_text(kind, "tool_use") {
            let tool = owned_or_empty(as_str(block.get("name")));
            self.call(line, inherited, tool.as_str(), block.get("input"), Ghost(n), Ghost(before));
        }
    }
}

fn is_text(o: Option<&str>, s: &str) -> (b: bool)
    ensures
        b == (opt_ref(o) == Some(s@)),
{
    match o {
        Some(t) => str_eq(t, s),
        None => false,
    }
}

proof fn lemma_tally_index_stays(
    v: Seq<ActivityV>,
    session_id: Seq<char>,
    cwd: Option<Seq<char>>,
    i: int,
)
    requires
        0 <= i <= v.len(),
        tally_index(v.take(i), session_id, cwd) is Some,
    ensures
        tally_index(v, session_id, cwd) == tally_index(v.take(i), session_id, cwd),
    decreases v.len() - i,
{
    if i < v.len() {
        assert(v.take(i + 1).drop_last() =~= v.take(i));
        lemma_tally_index_stays(v, session_id, cwd, i + 1);
    } else {
        assert(v.take(i) =~= v);
    }
}

/// One transcript's parse: the write-edges, the paths touched by each logical message in
/// order, and the retrieval tallies per session and working directory. The counters say
/// how many lines were seen, how many of them hold no document, and how many edits had
/// no time.
#[derive(Debug)]
pub struct TranscriptParse {
    pub edges: Vec<SessionEdge>,
    pub groups: Vec<GroupTaint>,
    pub activity: Vec<SessionActivity>,
    pub last_text: String,
    pub last_session: String,
    pub last_cwd: Option<String>,
    pub lines_total: usize,
    pub lines_parse_err: usize,
    pub undated: usize,
}

impl View for TranscriptParse {
    type V = TranscriptV;

    open spec fn view(&self) -> TranscriptV {
        TranscriptV {
            edges: edges_view(self.edges@),
            groups: groups_view(self.groups@),
            activity: activity_view(self.activity@),
            last_text: self.last_text@,
            last_session: self.last_session@,
            last_cwd: opt_str(self.last_cwd),
            lines_total: self.lines_total as nat,
            lines_parse_err: self.lines_parse_err as nat,
            undated: self.undated as nat,
        }
    }
}

impl TranscriptParse {
    /// A parse that has read nothing.
    pub fn new() -> (r: TranscriptParse)
        ensures
            r@ == empty_transcript(),
            r.counts_within(0),
    {
        let r = TranscriptParse {
            edges: Vec::new(),
            groups: Vec::new(),
            activity: Vec::new(),
            last_text: String::new(),
            last_session: String::new(),
            last_cwd: None,
            lines_total: 0,
            lines_parse_err: 0,
            undated: 0,
        };
        assert(r@.edges =~= Seq::empty());
        assert(r@.groups =~= Seq::empty());
        assert(r@.activity =~= Seq::empty());
        r
    }

    /// No counter exceeds `n`.
    pub open spec fn counts_within(&self, n: int) -> bool {
        &&& self.lines_total <= n
        &&& self.lines_parse_err <= n
        &&& self.undated <= n
        &&& tallies_within(activity_view(self.activity@), n)
    }

    /// Opens the group of a line, or goes on with the last one, and adds the paths.
    fn add_paths(&mut self, line: &LineContext, paths: Vec<String>)
        ensures
            final(self)@ == (TranscriptV {
                groups: grouped(old(self)@.groups, line.model(), strs(paths@)),
                ..old(self)@
            }),
            final(self).edges == old(self).edges,
            final(self).activity == old(self).activity,
    {
        let ghost start = groups_view(self.groups@);
        let count: usize = self.groups.len();
        let same = count > 0 && str_eq(
            self.groups[count - 1].session_id.as_str(),
            line.session_id.as_str(),
        ) && str_eq(self.groups[count - 1].group_id.as_str(), line.group_id.as_str());
        if same {
            match self.groups.pop() {
                Some(mut last) => {
                    assert(last@ == start.last());
                    let ghost old_paths = strs(last.paths@);
                    let ghost new_paths = strs(paths@);
                    let mut rest = paths;
                    last.paths.append(&mut rest);
                    assert(strs(last.paths@) =~= old_paths + new_paths);
                    self.groups.push(last);
                },
                None => {},
            }
            assert(groups_view(self.groups@) =~= grouped(start, line.model(), strs(paths@)));
        } else {
            let fresh = GroupTaint {
                session_id: line.session_id.clone(),
                group_id: line.group_id.clone(),
                paths,
            };
            self.groups.push(fresh);
            assert(groups_view(self.groups@) =~= grouped(start, line.model(), strs(paths@)));
        }
    }

    /// Takes in one assistant message.
    fn message(&mut self, d: &Json, blocks: &Vec<Json>, Ghost(before): Ghost<int>)
        requires
            old(self).counts_within(before),
            0 <= before,
            before + blocks@.len() <= i64::MAX,
            before + blocks@.len() <= usize::MAX,
        ensures
            final(self)@ == with_message(old(self)@, line_context(d@), json_views(blocks@)),
            final(self).counts_within(before + blocks@.len()),
    {
        let ghost start = self@;
        let line = context_of(d);
        let ghost inherited = inherited_text(start, line.model());
        if !(str_eq(line.session_id.as_str(), self.last_session.as_str()) && same_opt(
            &line.cwd,
            &self.last_cwd,
        )) {
            self.last_text = String::new();
            assert(self.last_text@ =~= inherited);
        }
        self.last_session = line.session_id.clone();
        self.last_cwd = clone_opt(&line.cwd);
        let mut activity: Vec<SessionActivity> = Vec::new();
        activity.append(&mut self.activity);
        let mut m = MessageState {
            text: String::new(),
            edges: Vec::new(),
            paths: Vec::new(),
            activity,
            undated: 0,
        };
        let ghost fresh = fresh_message(start.activity);
        let ghost all = json_views(blocks@);
        assert(m.model() == fresh) by {
            assert(m.model().edges =~= Seq::empty());
            assert(m.model().paths =~= Seq::empty());
            assert(m.model().activity =~= start.activity);
        }
        assert(all.take(0) =~= Seq::empty());
        let inherited_now = self.last_text.clone();
        for i in 0..blocks.len()
            invariant
                all == json_views(blocks@),
                inherited_now@ == inherited,
                m.model() == with_blocks(line.model(), inherited, fresh, all.take(i as int)),
                m.within(i as int, before),
                0 <= before,
                before + blocks@.len() <= i64::MAX,
                before + blocks@.len() <= usize::MAX,
        {
            assert(all.take(i + 1).drop_last() =~= all.take(i as int));
            assert(all[i as int] == blocks@[i as int]@);
            m.block(&line, inherited_now.as_str(), &blocks[i], Ghost(i as int), Ghost(before));
        }
        assert(all.take(all.len() as int) =~= all);
        let ghost done = m.model();
        let MessageState { text, edges, paths, activity, undated } = m;
        let ghost edges_before = edges_view(self.edges@);
        let mut edges = edges;
        let ghost new_edges = edges_view(edges@);
        self.edges.append(&mut edges);
        assert(edges_view(self.edges@) =~= edges_before + new_edges);
        self.activity = activity;
        self.undated = self.undated + undated;
        if !is_blank(text.as_str()) {
            self.last_text = text;
        }
        self.add_paths(&line, paths);
        assert(self@ == with_message(start, line.model(), all));
    }

    /// Takes in one line, given the document that it holds.
    pub fn line(&mut self, line: &str, doc: Option<Json>)
        requires
            old(self).counts_within(i64::MAX - line@.len()),
            old(self).counts_within(usize::MAX - line@.len()),
            doc matches Some(d) ==> json_size(d@) <= line@.len(),
        ensures
            final(self)@ == with_line(old(self)@, line@, crate::json::opt_owned(doc)),
    {
        let ghost room = if i64::MAX <= usize::MAX {
            i64::MAX - line@.len()
        } else {
            usize::MAX - line@.len()
        };
        self.take_line(line, doc, Ghost(room));
    }

    fn take_line(&mut self, line: &str, doc: Option<Json>, Ghost(before): Ghost<int>)
        requires
            old(self).counts_within(before),
            0 <= before,
            before + line@.len() <= i64::MAX,
            before + line@.len() <= usize::MAX,
            doc matches Some(d) ==> json_size(d@) <= line@.len(),
        ensures
            final(self)@ == with_line(old(self)@, line@, crate::json::opt_owned(doc)),
            final(self).counts_within(before + line@.len()),
    {
        if is_blank(line) {
            return;
        }
        proof {
            if line@.len() == 0 {
                assert(trimmed(line@) =~= Seq::empty());
            }
        }
        self.lines_total = self.lines_total + 1;
        match doc {
            None => {
                self.lines_parse_err = self.lines_parse_err + 1;
            },
            Some(d) => {
                if is_text(as_str(d.get("type")), "assistant") {
                    if let Some(blocks) = as_array(d.get2("message", "content")) {
                        proof {
                            lemma_field_size(d@, "message"@);
                            let m = field(d@, "message"@)->0;
                            lemma_field_size(m, "content"@);
                            lemma_sizes_len(json_views(blocks@));
                        }
                        let ghost after = before + line@.len() - blocks@.len();
                        self.message(&d, blocks, Ghost(after));
                    }
                }
            },
        }
    }
}

/// Walks the text of one transcript.
///
/// An edge per `Edit` and `Write` call; the rationale is the nearest text at or before
/// the call, in the message or, within one session and working directory, before it.
pub fn parse_transcript_text(content: &str) -> (r: TranscriptParse)
    requires
        content@.len() <= i64::MAX,
    ensures
        r@ == transcript(lines_of(content@)),
        r.counts_within(content@.len() as int),
{
    let lines = split_lines(content);
    let ghost all = strs(lines@);
    let mut t = TranscriptParse::new();
    assert(all.take(0) =~= Seq::empty());
    proof {
        lemma_lines_total(content@);
    }
    for i in 0..lines.len()
        invariant
            all == strs(lines@),
            t@ == transcript(all.take(i as int)),
            t.counts_within(total_len(all.take(i as int)) as int),
            total_len(all) <= content@.len() <= i64::MAX,
            content@.len() <= usize::MAX,
    {
        assert(all.take(i + 1).drop_last() =~= all.take(i as int));
        assert(all[i as int] == lines@[i as int]@);
        proof {
            lemma_total_len_take(all, i as int);
        }
        let doc = parse_json(lines[i].as_str());
        t.take_line(lines[i].as_str(), doc, Ghost(total_len(all.take(i as int)) as int));
    }
    assert(all.take(all.len() as int) =~= all);
    t
}

} // verus!

//! What a transcript yields beside its edges, stated of its lines and blocks: what was
//! touched, what was searched, and what was counted.
use vstd::prelude::*;

use super::edge_laws::{
    block_count, block_on, directory_on, has_ink, message_on, or_nothing, session_on, time_on,
};
use super::transcript::{
    blank, command_end, counted, fresh_message, inherited_text, leads_with_search, line_context,
    pipeline_head, shell_search, tally_index, tallied, tool_class, transcript, with_block,
    with_blocks, with_line, with_message, ActivityV, GroupV, LineV, MessageV, ToolClass,
    TranscriptV,
};
use crate::json::{field, field2, json_document, str_of, JsonV};
use crate::text::{
    ascii_lower, has_sub, lemma_split_single, split_on, trim_start_by, white_space, ws,
};
use crate::text_laws::{law_a_separator_parts_a_text, law_trimming_leaves_the_core};

verus! {

// ---- Which calls are searches ------------------------------------------------------------------

/// A call is one of this index's where its name says so, in whatever case; else it is a
/// search where it is a `Grep` or a `Glob`, or a shell command in which a search leads; and
/// nothing else counts.
pub proof fn law_which_calls_are_searches(name: Seq<char>, input: JsonV)
    ensures
        has_sub(ascii_lower(name), "nibdex"@) <==> tool_class(name, Some(input)) == Some(
            ToolClass::Nibdex,
        ),
        !has_sub(ascii_lower(name), "nibdex"@) ==> (tool_class(name, Some(input)) == Some(
            ToolClass::Retrieval,
        ) <==> name == "Grep"@ || name == "Glob"@ || (name == "Bash"@ && shell_search(
            or_nothing(str_of(field(input, "command"@))),
        ))),
        has_sub(ascii_lower(name), "nibdex"@) <==> tool_class(name, None) == Some(
            ToolClass::Nibdex,
        ),
        !has_sub(ascii_lower(name), "nibdex"@) ==> (tool_class(name, None) == Some(
            ToolClass::Retrieval,
        ) <==> name == "Grep"@ || name == "Glob"@ || (name == "Bash"@ && shell_search(
            Seq::empty(),
        ))),
{
}

/// A stretch of a shell command without an end of a command in it.
pub open spec fn one_command(s: Seq<char>) -> bool {
    forall|i: int| 0 <= i < s.len() ==> #[trigger] s[i] != ';' && s[i] != '&'
}

/// A search leads a shell command where it leads one of its parts: `;` and `&` part commands.
pub proof fn law_commands_are_judged_one_by_one(a: Seq<char>, end: char, b: Seq<char>)
    requires
        end == ';' || end == '&',
    ensures
        shell_search(a.push(end) + b) <==> shell_search(a) || shell_search(b),
{
    let p = command_end();
    law_a_separator_parts_a_text(a, end, b, p);
    let x = split_on(a, p);
    let y = split_on(b, p);
    let z = split_on(a.push(end) + b, p);
    assert(z == x + y);
    if shell_search(a) {
        let i = choose|i: int|
            0 <= i < x.len() && leads_with_search(pipeline_head(#[trigger] x[i]));
        assert(z[i] == x[i]);
    }
    if shell_search(b) {
        let i = choose|i: int|
            0 <= i < y.len() && leads_with_search(pipeline_head(#[trigger] y[i]));
        assert(z[x.len() + i] == y[i]);
    }
    if shell_search(a.push(end) + b) {
        let i = choose|i: int|
            0 <= i < z.len() && leads_with_search(pipeline_head(#[trigger] z[i]));
        if i < x.len() {
            assert(x[i] == z[i]);
        } else {
            assert(y[i - x.len()] == z[i]);
        }
    }
}

/// What comes behind a pipe only filters and does not count.
pub proof fn law_filters_do_not_count(a: Seq<char>, b: Seq<char>)
    requires
        one_command(a),
        one_command(b),
        forall|i: int| 0 <= i < a.len() ==> #[trigger] a[i] != '|',
    ensures
        shell_search(a.push('|') + b) <==> shell_search(a),
{
    let p = command_end();
    let q = |c: char| c == '|';
    let full = a.push('|') + b;
    assert forall|i: int| 0 <= i < full.len() implies !p(#[trigger] full[i]) by {
        if i < a.len() {
            assert(full[i] == a[i]);
        } else if i > a.len() {
            assert(full[i] == b[i - a.len() - 1]);
        }
    }
    assert forall|i: int| 0 <= i < a.len() implies !p(#[trigger] a[i]) by {}
    assert forall|i: int| 0 <= i < a.len() implies !q(#[trigger] a[i]) by {}
    lemma_split_single(full, p);
    lemma_split_single(a, p);
    law_a_separator_parts_a_text(a, '|', b, q);
    lemma_split_single(a, q);
    assert(split_on(full, q)[0] == a);
    assert(pipeline_head(full) == pipeline_head(a));
    assert(seq![full][0] == full && seq![a][0] == a);
    if shell_search(full) {
        assert(leads_with_search(pipeline_head(seq![a][0])));
    }
    if shell_search(a) {
        assert(leads_with_search(pipeline_head(seq![full][0])));
    }
}

/// A single command is a search where it begins with one, white space in front of it aside.
pub proof fn law_a_search_leads_its_command(blanks: Seq<char>, rest: Seq<char>)
    requires
        forall|i: int| 0 <= i < blanks.len() ==> white_space(#[trigger] blanks[i]),
        one_command(rest),
        forall|i: int| 0 <= i < rest.len() ==> #[trigger] rest[i] != '|',
        rest.len() > 0 && !white_space(rest[0]),
        !"sudo "@.is_prefix_of(rest),
    ensures
        shell_search(blanks + rest) <==> "grep "@.is_prefix_of(rest) || "rg "@.is_prefix_of(rest)
            || "ripgrep"@.is_prefix_of(rest) || "find "@.is_prefix_of(rest)
            || "ack "@.is_prefix_of(rest) || "ag "@.is_prefix_of(rest),
{
    let cmd = blanks + rest;
    let p = command_end();
    let q = |c: char| c == '|';
    assert forall|i: int| 0 <= i < cmd.len() implies !p(#[trigger] cmd[i]) && !q(cmd[i]) by {
        if i < blanks.len() {
            assert(white_space(blanks[i]));
        } else {
            assert(cmd[i] == rest[i - blanks.len()]);
        }
    }
    lemma_split_single(cmd, p);
    lemma_split_single(cmd, q);
    lemma_trim_blanks(blanks, rest);
    assert(trim_start_by(rest, ws()) == rest);
    assert(pipeline_head(cmd) == rest);
    assert(seq![cmd][0] == cmd);
    if leads_with_search(rest) {
        assert(leads_with_search(pipeline_head(split_on(cmd, p)[0])));
    }
}

/// One `sudo` in front of a search does not hide it, whatever white space stands before and
/// behind it; a second one does.
pub proof fn law_sudo_does_not_hide_a_search(
    before: Seq<char>,
    behind: Seq<char>,
    rest: Seq<char>,
)
    requires
        forall|i: int| 0 <= i < before.len() ==> white_space(#[trigger] before[i]),
        forall|i: int| 0 <= i < behind.len() ==> white_space(#[trigger] behind[i]),
        one_command(rest),
        forall|i: int| 0 <= i < rest.len() ==> #[trigger] rest[i] != '|',
        rest.len() > 0 && !white_space(rest[0]),
    ensures
        shell_search(before + ("sudo "@ + (behind + rest))) <==> "grep "@.is_prefix_of(rest)
            || "rg "@.is_prefix_of(rest) || "ripgrep"@.is_prefix_of(rest)
            || "find "@.is_prefix_of(rest) || "ack "@.is_prefix_of(rest)
            || "ag "@.is_prefix_of(rest),
{
    reveal_strlit("sudo ");
    let sudo = "sudo "@;
    let tail = behind + rest;
    let cmd = sudo + tail;
    let full = before + cmd;
    let p = command_end();
    let q = |c: char| c == '|';
    assert(sudo.len() == 5);
    assert(forall|i: int| 0 <= i < 5 ==> sudo[i] != ';' && sudo[i] != '&' && sudo[i] != '|');
    assert forall|i: int| 0 <= i < full.len() implies !p(#[trigger] full[i]) && !q(full[i]) by {
        let k = i - before.len();
        if k < 0 {
            assert(white_space(before[i]));
        } else if k < 5 {
            assert(full[i] == sudo[k]);
        } else if k < 5 + behind.len() {
            assert(white_space(behind[k - 5]));
        } else {
            assert(full[i] == rest[k - 5 - behind.len()]);
        }
    }
    lemma_split_single(full, p);
    lemma_split_single(full, q);
    assert(cmd[0] == 's');
    lemma_trim_blanks(before, cmd);
    assert(sudo =~= cmd.subrange(0, 5));
    assert(cmd.skip(5) =~= tail);
    lemma_trim_blanks(behind, rest);
    assert(pipeline_head(full) == rest);
    assert(seq![full][0] == full);
    if leads_with_search(rest) {
        assert(leads_with_search(pipeline_head(split_on(full, p)[0])));
    }
}

/// A command of white space alone is no search.
pub proof fn law_an_empty_command_is_no_search(blanks: Seq<char>)
    requires
        forall|i: int| 0 <= i < blanks.len() ==> white_space(#[trigger] blanks[i]),
    ensures
        !shell_search(blanks),
{
    let p = command_end();
    let q = |c: char| c == '|';
    assert forall|i: int| 0 <= i < blanks.len() implies !p(#[trigger] blanks[i]) && !q(
        blanks[i],
    ) by {
        assert(white_space(blanks[i]));
    }
    lemma_split_single(blanks, p);
    lemma_split_single(blanks, q);
    lemma_trim_all(blanks);
    reveal_strlit("sudo ");
    reveal_strlit("grep ");
    reveal_strlit("rg ");
    reveal_strlit("ripgrep");
    reveal_strlit("find ");
    reveal_strlit("ack ");
    reveal_strlit("ag ");
    assert(pipeline_head(blanks).len() == 0);
    assert(seq![blanks][0] == blanks);
}

proof fn lemma_trim_all(blanks: Seq<char>)
    requires
        forall|i: int| 0 <= i < blanks.len() ==> white_space(#[trigger] blanks[i]),
    ensures
        trim_start_by(blanks, ws()).len() == 0,
    decreases blanks.len(),
{
    if blanks.len() > 0 {
        assert(white_space(blanks[0]));
        let rest = blanks.drop_first();
        assert forall|i: int| 0 <= i < rest.len() implies white_space(#[trigger] rest[i]) by {
            assert(white_space(blanks[i + 1]));
        }
        lemma_trim_all(rest);
    }
}

proof fn lemma_trim_blanks(blanks: Seq<char>, rest: Seq<char>)
    requires
        forall|i: int| 0 <= i < blanks.len() ==> white_space(#[trigger] blanks[i]),
        rest.len() > 0 && !white_space(rest[0]),
    ensures
        trim_start_by(blanks + rest, ws()) == rest,
    decreases blanks.len(),
{
    if blanks.len() == 0 {
        assert(blanks + rest =~= rest);
    } else {
        assert(white_space(blanks[0]));
        assert((blanks + rest).drop_first() =~= blanks.drop_first() + rest);
        assert forall|i: int| 0 <= i < blanks.drop_first().len() implies white_space(
            #[trigger] blanks.drop_first()[i],
        ) by {
            assert(white_space(blanks[i + 1]));
        }
        lemma_trim_blanks(blanks.drop_first(), rest);
    }
}

// ---- What was touched --------------------------------------------------------------------------

/// The path that block `j` of a line touches: that of its `file_path`, else of its `path`,
/// else of its `notebook_path`.
pub open spec fn touched_at(line: Seq<char>, j: int) -> Option<Seq<char>> {
    match block_on(line, j) {
        Some(b) => if str_of(field(b, "type"@)) == Some("tool_use"@) {
            let file = str_of(field2(b, "input"@, "file_path"@));
            let path = str_of(field2(b, "input"@, "path"@));
            if file is Some {
                file
            } else if path is Some {
                path
            } else {
                str_of(field2(b, "input"@, "notebook_path"@))
            }
        } else {
            None
        },
        None => None,
    }
}

/// The paths that the first `m` blocks of a line touch, in order.
pub open spec fn touched_on(line: Seq<char>, m: int) -> Seq<Seq<char>>
    decreases m,
{
    if m <= 0 {
        Seq::empty()
    } else {
        match touched_at(line, m - 1) {
            Some(p) => touched_on(line, m - 1).push(p),
            None => touched_on(line, m - 1),
        }
    }
}

/// The class of the call in block `j` of a line.
pub open spec fn class_at(line: Seq<char>, j: int) -> Option<ToolClass> {
    match block_on(line, j) {
        Some(b) => if str_of(field(b, "type"@)) == Some("tool_use"@) {
            tool_class(or_nothing(str_of(field(b, "name"@))), field(b, "input"@))
        } else {
            None
        },
        None => None,
    }
}

/// How many of the first `m` calls of a line are of a class.
pub open spec fn calls_on(line: Seq<char>, m: int, class: ToolClass) -> nat
    decreases m,
{
    if m <= 0 {
        0
    } else {
        calls_on(line, m - 1, class) + if class_at(line, m - 1) == Some(class) {
            1nat
        } else {
            0
        }
    }
}

/// An edit in block `j` of a line.
pub open spec fn edits_at(line: Seq<char>, j: int) -> bool {
    super::edge_laws::edited_at_block(line, j) is Some
}

/// How many of the first `m` blocks of a line edit a file.
pub open spec fn edits_on(line: Seq<char>, m: int) -> nat
    decreases m,
{
    if m <= 0 {
        0
    } else {
        edits_on(line, m - 1) + if edits_at(line, m - 1) {
            1nat
        } else {
            0
        }
    }
}

/// The calls of a class that are tallied for a session and directory.
pub open spec fn tallied_calls(
    v: Seq<ActivityV>,
    session: Seq<char>,
    directory: Option<Seq<char>>,
    class: ToolClass,
) -> int
    decreases v.len(),
{
    if v.len() == 0 {
        0
    } else {
        tallied_calls(v.drop_last(), session, directory, class) + if v.last().session_id == session
            && v.last().cwd == directory {
            if class == ToolClass::Retrieval {
                v.last().retrieval_calls
            } else {
                v.last().nibdex_calls
            }
        } else {
            0
        }
    }
}

proof fn lemma_tallied_update(
    v: Seq<ActivityV>,
    i: int,
    a: ActivityV,
    session: Seq<char>,
    directory: Option<Seq<char>>,
    class: ToolClass,
)
    requires
        0 <= i < v.len(),
        a.session_id == v[i].session_id,
        a.cwd == v[i].cwd,
    ensures
        tallied_calls(v.update(i, a), session, directory, class) == tallied_calls(
            v,
            session,
            directory,
            class,
        ) + if a.session_id == session && a.cwd == directory {
            if class == ToolClass::Retrieval {
                a.retrieval_calls - v[i].retrieval_calls
            } else {
                a.nibdex_calls - v[i].nibdex_calls
            }
        } else {
            0
        },
    decreases v.len(),
{
    let u = v.update(i, a);
    if i == v.len() - 1 {
        assert(u.drop_last() =~= v.drop_last());
    } else {
        assert(u.drop_last() =~= v.drop_last().update(i, a));
        lemma_tallied_update(v.drop_last(), i, a, session, directory, class);
    }
}

proof fn lemma_tally_index(v: Seq<ActivityV>, session: Seq<char>, directory: Option<Seq<char>>)
    ensures
        tally_index(v, session, directory) matches Some(i) ==> 0 <= i < v.len()
            && v[i].session_id == session && v[i].cwd == directory,
        tally_index(v, session, directory) is None ==> forall|j: int|
            0 <= j < v.len() ==> (#[trigger] v[j]).session_id != session || v[j].cwd != directory,
    decreases v.len(),
{
    if v.len() > 0 {
        let init = v.drop_last();
        lemma_tally_index(init, session, directory);
        assert forall|j: int| 0 <= j < init.len() implies init[j] == #[trigger] v[j] by {}
    }
}

/// One call more is one call more in the tally of its session and directory, of its class,
/// and in no other.
proof fn lemma_tallied_adds_one(
    v: Seq<ActivityV>,
    line: LineV,
    made: ToolClass,
    session: Seq<char>,
    directory: Option<Seq<char>>,
    class: ToolClass,
)
    ensures
        tallied_calls(tallied(v, line, made), session, directory, class) == tallied_calls(
            v,
            session,
            directory,
            class,
        ) + if line.session_id == session && line.cwd == directory && made == class {
            1int
        } else {
            0
        },
{
    lemma_tally_index(v, line.session_id, line.cwd);
    match tally_index(v, line.session_id, line.cwd) {
        Some(i) => {
            lemma_tallied_update(
                v,
                i,
                counted(v[i], made, line.edited_at),
                session,
                directory,
                class,
            );
        },
        None => {
            let w = tallied(v, line, made);
            assert(w.drop_last() =~= v);
        },
    }
}

/// The first counted call that has a time stamps a tally, and no later one does; a call of
/// one class does not count in the other.
pub proof fn law_a_call_is_counted_once(a: ActivityV, class: ToolClass, at: Option<i64>)
    ensures
        ({
            let b = counted(a, class, at);
            &&& a.first_seen != 0 ==> b.first_seen == a.first_seen
            &&& a.first_seen == 0 && at is Some ==> b.first_seen == at->0
            &&& a.first_seen == 0 && at is None ==> b.first_seen == 0
            &&& b.retrieval_calls + b.nibdex_calls == a.retrieval_calls + a.nibdex_calls + 1
            &&& class == ToolClass::Retrieval ==> b.nibdex_calls == a.nibdex_calls
            &&& class == ToolClass::Nibdex ==> b.retrieval_calls == a.retrieval_calls
            &&& b.session_id == a.session_id && b.cwd == a.cwd
        }),
{
}

// ---- One line more -------------------------------------------------------------------------------

spec fn context_on(line: Seq<char>) -> LineV {
    line_context(json_document(line)->0)
}

spec fn read_on(line: Seq<char>, inherited: Seq<char>, m0: MessageV, m: int) -> MessageV {
    with_blocks(context_on(line), inherited, m0, message_on(line)->0.take(m))
}

proof fn lemma_read_on(
    line: Seq<char>,
    inherited: Seq<char>,
    m0: MessageV,
    m: int,
    session: Seq<char>,
    directory: Option<Seq<char>>,
    class: ToolClass,
)
    requires
        message_on(line) is Some,
        0 <= m <= block_count(line),
        m0.paths.len() == 0,
        m0.undated == 0,
    ensures
        ({
            let r = read_on(line, inherited, m0, m);
            &&& r.paths == touched_on(line, m)
            &&& r.undated == if time_on(line) is None {
                edits_on(line, m)
            } else {
                0
            }
            &&& tallied_calls(r.activity, session, directory, class) == tallied_calls(
                m0.activity,
                session,
                directory,
                class,
            ) + if session_on(line) == session && directory_on(line) == directory {
                calls_on(line, m, class)
            } else {
                0
            }
        }),
    decreases m,
{
    let blocks = message_on(line)->0;
    if m == 0 {
        assert(blocks.take(0) =~= Seq::<JsonV>::empty());
        assert(m0.paths =~= Seq::<Seq<char>>::empty());
    } else {
        lemma_read_on(line, inherited, m0, m - 1, session, directory, class);
        assert(blocks.take(m).drop_last() =~= blocks.take(m - 1));
        let r = read_on(line, inherited, m0, m - 1);
        let s = read_on(line, inherited, m0, m);
        let b = blocks[m - 1];
        assert(blocks.take(m).last() == b);
        assert(s == with_block(context_on(line), inherited, r, b));
        assert(block_on(line, m - 1) == Some(b));
        reveal_strlit("text");
        reveal_strlit("tool_use");
        assert("text"@.len() != "tool_use"@.len());
        reveal_strlit("Edit");
        reveal_strlit("Write");
        assert("Edit"@.len() == 4 && "Write"@.len() == 5);
        if str_of(field(b, "type"@)) == Some("tool_use"@) {
            let name = or_nothing(str_of(field(b, "name"@)));
            if let Some(made) = tool_class(name, field(b, "input"@)) {
                lemma_tallied_adds_one(
                    r.activity,
                    context_on(line),
                    made,
                    session,
                    directory,
                    class,
                );
            }
        }
    }
}

proof fn lemma_ink(s: Seq<char>)
    ensures
        blank(s) <==> !has_ink(s),
{
    law_trimming_leaves_the_core(s);
    if has_ink(s) {
        let k = choose|k: int| 0 <= k < s.len() && !white_space(#[trigger] s[k]);
        assert(!white_space(s[k]));
    }
}

/// What one line more adds. A line with something on it is counted, and so is one that holds
/// no document; a message adds the paths that it touches to the group of its session and
/// identifier, which goes on where the last group is that one; it adds its calls, each to the
/// tally of its session, directory and class; and its edits are counted as undated where it
/// has no time. A line that is no message adds nothing of all this.
pub proof fn law_what_one_line_adds(
    lines: Seq<Seq<char>>,
    line: Seq<char>,
    session: Seq<char>,
    directory: Option<Seq<char>>,
    class: ToolClass,
)
    ensures
        ({
            let t = transcript(lines);
            let u = transcript(lines.push(line));
            let n = block_count(line);
            let touched = touched_on(line, n);
            let group = or_nothing(str_of(field2(json_document(line)->0, "message"@, "id"@)));
            let goes_on = t.groups.len() > 0 && t.groups.last().session_id == session_on(line)
                && t.groups.last().group_id == group;
            &&& u.lines_total == t.lines_total + if has_ink(line) {
                1nat
            } else {
                0
            }
            &&& u.lines_parse_err == t.lines_parse_err + if has_ink(line) && json_document(line)
                is None {
                1nat
            } else {
                0
            }
            &&& u.undated == t.undated + if message_on(line) is Some && time_on(line) is None {
                edits_on(line, n)
            } else {
                0
            }
            &&& tallied_calls(u.activity, session, directory, class) == tallied_calls(
                t.activity,
                session,
                directory,
                class,
            ) + if message_on(line) is Some && session_on(line) == session && directory_on(line)
                == directory {
                calls_on(line, n, class)
            } else {
                0
            }
            &&& message_on(line) is None ==> u.groups == t.groups
            &&& message_on(line) is Some && goes_on ==> u.groups.len() == t.groups.len()
                && u.groups.drop_last() == t.groups.drop_last() && u.groups.last().session_id
                == t.groups.last().session_id && u.groups.last().group_id
                == t.groups.last().group_id && u.groups.last().paths == t.groups.last().paths
                + touched
            &&& message_on(line) is Some && !goes_on ==> u.groups == t.groups.push(
                GroupV { session_id: session_on(line), group_id: group, paths: touched },
            )
        }),
{
    let t = transcript(lines);
    let all = lines.push(line);
    assert(all.drop_last() =~= lines);
    assert(transcript(all) == with_line(t, line, json_document(line)));
    lemma_ink(line);
    if let Some(blocks) = message_on(line) {
        let seen = TranscriptV { lines_total: t.lines_total + 1, ..t };
        let inherited = inherited_text(seen, context_on(line));
        assert(blocks.take(blocks.len() as int) =~= blocks);
        lemma_read_on(
            line,
            inherited,
            fresh_message(seen.activity),
            block_count(line),
            session,
            directory,
            class,
        );
        assert(transcript(all) == with_message(seen, context_on(line), blocks));
        let u = transcript(all);
        assert(u.groups.drop_last() =~= t.groups.drop_last() || u.groups.drop_last() =~= t.groups);
    }
}

/// Before the first line there is nothing.
pub proof fn law_an_empty_transcript_yields_nothing(
    session: Seq<char>,
    directory: Option<Seq<char>>,
    class: ToolClass,
)
    ensures
        ({
            let t = transcript(Seq::<Seq<char>>::empty());
            &&& t.edges.len() == 0 && t.groups.len() == 0 && t.lines_total == 0
                && t.lines_parse_err == 0 && t.undated == 0
            &&& tallied_calls(t.activity, session, directory, class) == 0
        }),
{
}

// ---- When a session began ------------------------------------------------------------------------

/// Each session and directory has one tally.
pub open spec fn one_each(v: Seq<ActivityV>) -> bool {
    forall|i: int, j: int|
        0 <= i < j < v.len() ==> (#[trigger] v[i]).session_id != (#[trigger] v[j]).session_id
            || v[i].cwd != v[j].cwd
}

/// The time that the tally of a session and directory bears, where there is one.
pub open spec fn began(
    v: Seq<ActivityV>,
    session: Seq<char>,
    directory: Option<Seq<char>>,
) -> Option<i64>
    decreases v.len(),
{
    if v.len() == 0 {
        None
    } else if v.last().session_id == session && v.last().cwd == directory {
        Some(v.last().first_seen)
    } else {
        began(v.drop_last(), session, directory)
    }
}

proof fn lemma_began(v: Seq<ActivityV>, i: int)
    requires
        one_each(v),
        0 <= i < v.len(),
    ensures
        began(v, v[i].session_id, v[i].cwd) == Some(v[i].first_seen),
    decreases v.len(),
{
    let n = v.len() - 1;
    if i < n {
        let init = v.drop_last();
        assert(v[i].session_id != v[n].session_id || v[i].cwd != v[n].cwd);
        assert forall|a: int, b: int| 0 <= a < b < init.len() implies (
        #[trigger] init[a]).session_id != (#[trigger] init[b]).session_id || init[a].cwd
            != init[b].cwd by {
            assert(init[a] == v[a] && init[b] == v[b]);
        }
        lemma_began(init, i);
    }
}

proof fn lemma_not_begun(v: Seq<ActivityV>, session: Seq<char>, directory: Option<Seq<char>>)
    requires
        forall|j: int|
            0 <= j < v.len() ==> (#[trigger] v[j]).session_id != session || v[j].cwd != directory,
    ensures
        began(v, session, directory) is None,
    decreases v.len(),
{
    if v.len() > 0 {
        let init = v.drop_last();
        assert(v[v.len() - 1].session_id != session || v[v.len() - 1].cwd != directory);
        assert forall|j: int| 0 <= j < init.len() implies (#[trigger] init[j]).session_id
            != session || init[j].cwd != directory by {
            assert(init[j] == v[j]);
        }
        lemma_not_begun(init, session, directory);
    }
}

/// The time of the tally after a call: the time that it bore, where it bore one, and else that
/// of the call.
spec fn begun(old_time: Option<i64>, at: Option<i64>) -> Option<i64> {
    if old_time is Some && old_time->0 != 0 {
        old_time
    } else if at is Some {
        at
    } else {
        Some(0)
    }
}

proof fn lemma_tallied_began(
    v: Seq<ActivityV>,
    line: LineV,
    made: ToolClass,
    session: Seq<char>,
    directory: Option<Seq<char>>,
)
    requires
        one_each(v),
    ensures
        one_each(tallied(v, line, made)),
        began(tallied(v, line, made), session, directory) == if line.session_id == session
            && line.cwd == directory {
            begun(began(v, session, directory), line.edited_at)
        } else {
            began(v, session, directory)
        },
{
    let w = tallied(v, line, made);
    lemma_tally_index(v, line.session_id, line.cwd);
    match tally_index(v, line.session_id, line.cwd) {
        Some(i) => {
            assert forall|a: int| 0 <= a < w.len() implies (#[trigger] w[a]).session_id
                == v[a].session_id && w[a].cwd == v[a].cwd by {}
            assert forall|a: int, b: int| 0 <= a < b < w.len() implies (
            #[trigger] w[a]).session_id != (#[trigger] w[b]).session_id || w[a].cwd != w[b].cwd by {
                assert(v[a].session_id != v[b].session_id || v[a].cwd != v[b].cwd);
            }
            lemma_began(v, i);
            lemma_began(w, i);
            if line.session_id != session || line.cwd != directory {
                lemma_tally_index(v, session, directory);
                match tally_index(v, session, directory) {
                    Some(k) => {
                        lemma_began(v, k);
                        lemma_began(w, k);
                        assert(w[k] == v[k]);
                    },
                    None => {
                        lemma_not_begun(v, session, directory);
                        assert forall|j: int| 0 <= j < w.len() implies (
                        #[trigger] w[j]).session_id != session || w[j].cwd != directory by {
                            assert(v[j].session_id != session || v[j].cwd != directory);
                        }
                        lemma_not_begun(w, session, directory);
                    },
                }
            }
        },
        None => {
            assert(w.drop_last() =~= v);
            lemma_not_begun(v, line.session_id, line.cwd);
            assert forall|a: int, b: int| 0 <= a < b < w.len() implies (
            #[trigger] w[a]).session_id != (#[trigger] w[b]).session_id || w[a].cwd != w[b].cwd by {
                assert(w[a] == v[a]);
                if b < v.len() {
                    assert(w[b] == v[b]);
                }
            }
        },
    }
}

proof fn lemma_began_on(
    line: Seq<char>,
    inherited: Seq<char>,
    m0: MessageV,
    m: int,
    session: Seq<char>,
    directory: Option<Seq<char>>,
)
    requires
        message_on(line) is Some,
        0 <= m <= block_count(line),
        one_each(m0.activity),
    ensures
        ({
            let r = read_on(line, inherited, m0, m);
            let called = session_on(line) == session && directory_on(line) == directory && calls_on(
                line,
                m,
                ToolClass::Retrieval,
            ) + calls_on(line, m, ToolClass::Nibdex) > 0;
            &&& one_each(r.activity)
            &&& began(r.activity, session, directory) == if called {
                begun(began(m0.activity, session, directory), time_on(line))
            } else {
                began(m0.activity, session, directory)
            }
        }),
    decreases m,
{
    let blocks = message_on(line)->0;
    if m == 0 {
        assert(blocks.take(0) =~= Seq::<JsonV>::empty());
    } else {
        lemma_began_on(line, inherited, m0, m - 1, session, directory);
        assert(blocks.take(m).drop_last() =~= blocks.take(m - 1));
        let r = read_on(line, inherited, m0, m - 1);
        let s = read_on(line, inherited, m0, m);
        let b = blocks[m - 1];
        assert(blocks.take(m).last() == b);
        assert(s == with_block(context_on(line), inherited, r, b));
        assert(block_on(line, m - 1) == Some(b));
        reveal_strlit("text");
        reveal_strlit("tool_use");
        assert("text"@.len() != "tool_use"@.len());
        if str_of(field(b, "type"@)) == Some("tool_use"@) {
            let name = or_nothing(str_of(field(b, "name"@)));
            if let Some(made) = tool_class(name, field(b, "input"@)) {
                lemma_tallied_began(r.activity, context_on(line), made, session, directory);
                assert(s.activity == tallied(r.activity, context_on(line), made));
            } else {
                assert(s.activity == r.activity);
            }
        } else {
            assert(s.activity == r.activity);
        }
    }
}

/// Each session and directory of a transcript has one tally.
pub proof fn law_one_tally_for_each_session_and_directory(lines: Seq<Seq<char>>)
    ensures
        one_each(transcript(lines).activity),
    decreases lines.len(),
{
    if lines.len() > 0 {
        let init = lines.drop_last();
        let line = lines.last();
        law_one_tally_for_each_session_and_directory(init);
        lemma_ink(line);
        let t = transcript(init);
        if let Some(blocks) = message_on(line) {
            let seen = TranscriptV { lines_total: t.lines_total + 1, ..t };
            let inherited = inherited_text(seen, context_on(line));
            assert(blocks.take(blocks.len() as int) =~= blocks);
            lemma_began_on(
                line,
                inherited,
                fresh_message(seen.activity),
                block_count(line),
                Seq::empty(),
                None,
            );
            assert(transcript(lines) == with_message(seen, context_on(line), blocks));
        }
    }
}

/// A session in a directory begins with the first call there that is counted and has a time:
/// a later call does not change it, a call without a time leaves it open, and a line without a
/// counted call of the session and directory changes nothing.
pub proof fn law_when_a_session_began(
    lines: Seq<Seq<char>>,
    line: Seq<char>,
    session: Seq<char>,
    directory: Option<Seq<char>>,
)
    ensures
        ({
            let before = began(transcript(lines).activity, session, directory);
            let after = began(transcript(lines.push(line)).activity, session, directory);
            let n = block_count(line);
            let called = message_on(line) is Some && session_on(line) == session && directory_on(
                line,
            ) == directory && calls_on(line, n, ToolClass::Retrieval) + calls_on(
                line,
                n,
                ToolClass::Nibdex,
            ) > 0;
            let open = before is None || before->0 == 0;
            &&& began(transcript(Seq::<Seq<char>>::empty()).activity, session, directory) is None
            &&& !called ==> after == before
            &&& called && !open ==> after == before
            &&& called && open && time_on(line) is Some ==> after == time_on(line)
            &&& called && open && time_on(line) is None ==> after == Some(0i64)
        }),
{
    let t = transcript(lines);
    let all = lines.push(line);
    assert(all.drop_last() =~= lines);
    assert(transcript(all) == with_line(t, line, json_document(line)));
    lemma_ink(line);
    law_one_tally_for_each_session_and_directory(lines);
    if let Some(blocks) = message_on(line) {
        let seen = TranscriptV { lines_total: t.lines_total + 1, ..t };
        let inherited = inherited_text(seen, context_on(line));
        assert(blocks.take(blocks.len() as int) =~= blocks);
        lemma_began_on(
            line,
            inherited,
            fresh_message(seen.activity),
            block_count(line),
            session,
            directory,
        );
        assert(transcript(all) == with_message(seen, context_on(line), blocks));
    }
}

} // verus!

//! What a transcript yields, stated of its lines and blocks: which edges there are, what each
//! says, and where its rationale comes from.
use vstd::prelude::*;

use super::transcript::{
    blank, bounded_rationale, fresh_message, inherited_text, stored_path, transcript, with_block,
    with_blocks, with_message, EdgeV, LineV, MessageV, TranscriptV,
};
use crate::json::{arr_of, field, field2, json_document, str_of, JsonV};
use crate::text::{fit_len, trimmed, white_space};
use crate::text_laws::{
    law_as_many_characters_are_kept_as_fit, law_byte_lengths_are_those_of_utf8,
    law_trimming_leaves_the_core,
};
use crate::time::rfc3339_moment;

verus! {

// ---- What stands on a line -----------------------------------------------------------------

/// There is something on a line but white space.
pub open spec fn has_ink(s: Seq<char>) -> bool {
    exists|k: int| 0 <= k < s.len() && !white_space(#[trigger] s[k])
}

/// The blocks of the assistant's message on a line, if it holds one.
pub open spec fn message_on(line: Seq<char>) -> Option<Seq<JsonV>> {
    match json_document(line) {
        Some(d) => if has_ink(line) && str_of(field(d, "type"@)) == Some("assistant"@) {
            arr_of(field2(d, "message"@, "content"@))
        } else {
            None
        },
        None => None,
    }
}

/// The text of a member of the document on a line, if it is one.
pub open spec fn text_member(line: Seq<char>, key: Seq<char>) -> Option<Seq<char>> {
    match json_document(line) {
        Some(d) => str_of(field(d, key)),
        None => None,
    }
}

/// The text, or nothing written where there is none.
pub open spec fn or_nothing(s: Option<Seq<char>>) -> Seq<char> {
    match s {
        Some(t) => t,
        None => Seq::empty(),
    }
}

pub open spec fn session_on(line: Seq<char>) -> Seq<char> {
    or_nothing(text_member(line, "sessionId"@))
}

pub open spec fn directory_on(line: Seq<char>) -> Option<Seq<char>> {
    text_member(line, "cwd"@)
}

/// The second at which a line was written, if it says so in a way that can be read.
pub open spec fn time_on(line: Seq<char>) -> Option<i64> {
    match text_member(line, "timestamp"@) {
        Some(t) => match rfc3339_moment(t) {
            Some(m) => Some(m.secs),
            None => None,
        },
        None => None,
    }
}

/// Block `j` of a line.
pub open spec fn block_on(line: Seq<char>, j: int) -> Option<JsonV> {
    match message_on(line) {
        Some(blocks) => if 0 <= j < blocks.len() {
            Some(blocks[j])
        } else {
            None
        },
        None => None,
    }
}

/// What the assistant says in block `j`, where that is a text with something in it.
pub open spec fn said_at(line: Seq<char>, j: int) -> Option<Seq<char>> {
    match block_on(line, j) {
        Some(b) => if str_of(field(b, "type"@)) == Some("text"@) {
            match str_of(field(b, "text"@)) {
                Some(t) => if has_ink(t) {
                    Some(t)
                } else {
                    None
                },
                None => None,
            }
        } else {
            None
        },
        None => None,
    }
}

/// The file that block `j` edits or writes, where it is such a call.
pub open spec fn edited_at_block(line: Seq<char>, j: int) -> Option<Seq<char>> {
    match block_on(line, j) {
        Some(b) => if str_of(field(b, "type"@)) == Some("tool_use"@) && (str_of(field(b, "name"@))
            == Some("Edit"@) || str_of(field(b, "name"@)) == Some("Write"@)) {
            str_of(field2(b, "input"@, "file_path"@))
        } else {
            None
        },
        None => None,
    }
}

/// The places of the dated edits among the first `m` blocks of line `i`.
pub open spec fn places_on(line: Seq<char>, i: int, m: int) -> Seq<(int, int)>
    decreases m,
{
    if m <= 0 {
        Seq::empty()
    } else if edited_at_block(line, m - 1) is Some && time_on(line) is Some {
        places_on(line, i, m - 1).push((i, m - 1))
    } else {
        places_on(line, i, m - 1)
    }
}

pub open spec fn block_count(line: Seq<char>) -> int {
    match message_on(line) {
        Some(blocks) => blocks.len() as int,
        None => 0,
    }
}

/// The places of all dated edits, line by line and block by block.
pub open spec fn edit_places(lines: Seq<Seq<char>>) -> Seq<(int, int)>
    decreases lines.len(),
{
    if lines.len() == 0 {
        Seq::empty()
    } else {
        edit_places(lines.drop_last()) + places_on(
            lines.last(),
            lines.len() - 1,
            block_count(lines.last()),
        )
    }
}

/// One place stands before another.
pub open spec fn earlier_place(a: (int, int), b: (int, int)) -> bool {
    a.0 < b.0 || (a.0 == b.0 && a.1 < b.1)
}

proof fn lemma_places_on(line: Seq<char>, i: int, m: int)
    ensures
        forall|k: int|
            0 <= k < places_on(line, i, m).len() ==> (#[trigger] places_on(line, i, m)[k]).0 == i
                && 0 <= places_on(line, i, m)[k].1 < m && edited_at_block(
                line,
                places_on(line, i, m)[k].1,
            ) is Some && time_on(line) is Some,
        forall|a: int, b: int|
            0 <= a < b < places_on(line, i, m).len() ==> (#[trigger] places_on(line, i, m)[a]).1 < (
            #[trigger] places_on(line, i, m)[b]).1,
        forall|j: int|
            0 <= j < m && (#[trigger] edited_at_block(line, j)) is Some && time_on(line) is Some
                ==> places_on(line, i, m).contains((i, j)),
    decreases m,
{
    if m > 0 {
        lemma_places_on(line, i, m - 1);
        let a = places_on(line, i, m - 1);
        let b = places_on(line, i, m);
        assert forall|j: int|
            0 <= j < m && (#[trigger] edited_at_block(line, j)) is Some && time_on(
                line,
            ) is Some implies b.contains((i, j)) by {
            if j < m - 1 {
                assert(a.contains((i, j)));
                let k = choose|k: int| 0 <= k < a.len() && a[k] == (i, j);
                assert(b[k] == (i, j));
            } else {
                assert(b[a.len() as int] == (i, j));
            }
        }
    }
}

/// The places are in order, each is that of a dated edit or write, and no such place is
/// missing.
pub proof fn law_edit_places_are_the_dated_edits(lines: Seq<Seq<char>>)
    ensures
        forall|k: int|
            0 <= k < edit_places(lines).len() ==> 0 <= (#[trigger] edit_places(lines)[k]).0
                < lines.len() && edited_at_block(
                lines[edit_places(lines)[k].0],
                edit_places(lines)[k].1,
            ) is Some && time_on(lines[edit_places(lines)[k].0]) is Some,
        forall|a: int, b: int|
            0 <= a < b < edit_places(lines).len() ==> earlier_place(
                #[trigger] edit_places(lines)[a],
                #[trigger] edit_places(lines)[b],
            ),
        forall|i: int, j: int|
            0 <= i < lines.len() && (#[trigger] edited_at_block(lines[i], j)) is Some && time_on(
                lines[i],
            ) is Some ==> edit_places(lines).contains((i, j)),
    decreases lines.len(),
{
    if lines.len() > 0 {
        let init = lines.drop_last();
        let n = lines.len() - 1;
        let last = lines[n];
        law_edit_places_are_the_dated_edits(init);
        lemma_places_on(last, n, block_count(last));
        let a = edit_places(init);
        let p = places_on(last, n, block_count(last));
        let b = edit_places(lines);
        assert forall|k: int| 0 <= k < b.len() implies 0 <= (#[trigger] b[k]).0 < lines.len()
            && edited_at_block(lines[b[k].0], b[k].1) is Some && time_on(lines[b[k].0]) is Some by {
            if k < a.len() {
                assert(b[k] == a[k]);
                assert(init[a[k].0] == lines[a[k].0]);
            } else {
                assert(b[k] == p[k - a.len()]);
            }
        }
        assert forall|x: int, y: int| 0 <= x < y < b.len() implies earlier_place(
            #[trigger] b[x],
            #[trigger] b[y],
        ) by {
            if x < a.len() {
                assert(b[x] == a[x]);
            } else {
                assert(b[x] == p[x - a.len()]);
            }
            if y < a.len() {
                assert(b[y] == a[y]);
            } else {
                assert(b[y] == p[y - a.len()]);
            }
        }
        assert forall|i: int, j: int|
            0 <= i < lines.len() && (#[trigger] edited_at_block(lines[i], j)) is Some && time_on(
                lines[i],
            ) is Some implies b.contains((i, j)) by {
            if i < n {
                assert(init[i] == lines[i]);
                assert(edited_at_block(init[i], j) is Some);
                let k = choose|k: int| 0 <= k < a.len() && a[k] == (i, j);
                assert(b[k] == (i, j));
            } else {
                assert(p.contains((n, j)));
                let k = choose|k: int| 0 <= k < p.len() && p[k] == (n, j);
                assert(b[a.len() + k] == (i, j));
            }
        }
    }
}

// ---- Where a rationale comes from ------------------------------------------------------------

/// The message on line `q`, if there is one, is of the session and directory of line `i`.
pub open spec fn same_context(lines: Seq<Seq<char>>, q: int, i: int) -> bool {
    message_on(lines[q]) is Some ==> session_on(lines[q]) == session_on(lines[i]) && directory_on(
        lines[q],
    ) == directory_on(lines[i])
}

/// What is said at `from` can explain the call at `to`: it is said before, and every message
/// from the one to the other is of one session and one directory.
pub open spec fn can_explain(lines: Seq<Seq<char>>, from: (int, int), to: (int, int)) -> bool {
    &&& 0 <= from.0 <= to.0 < lines.len()
    &&& earlier_place(from, to)
    &&& said_at(lines[from.0], from.1) is Some
    &&& forall|q: int| from.0 <= q <= to.0 ==> #[trigger] same_context(lines, q, to.0)
}

/// The rationale of the call at `to`: the latest text that can explain it, and nothing where
/// there is none.
pub open spec fn explained(lines: Seq<Seq<char>>, to: (int, int), rationale: Seq<char>) -> bool {
    &&& (forall|from: (int, int)| !#[trigger] can_explain(lines, from, to)) ==> rationale.len() == 0
    &&& forall|from: (int, int)| #[trigger]
        can_explain(lines, from, to) && (forall|other: (int, int)| #[trigger]
            can_explain(lines, other, to) ==> other == from || earlier_place(other, from))
            ==> rationale == bounded_rationale(said_at(lines[from.0], from.1)->0)
}

/// The latest thing said among the first `m` blocks of a line.
spec fn latest_on(line: Seq<char>, m: int) -> Option<int>
    decreases m,
{
    if m <= 0 {
        None
    } else if said_at(line, m - 1) is Some {
        Some(m - 1)
    } else {
        latest_on(line, m - 1)
    }
}

proof fn lemma_latest_on(line: Seq<char>, m: int)
    ensures
        match latest_on(line, m) {
            Some(j) => 0 <= j < m && said_at(line, j) is Some && forall|x: int|
                0 <= x < m && (#[trigger] said_at(line, x)) is Some ==> x <= j,
            None => forall|x: int| 0 <= x < m ==> (#[trigger] said_at(line, x)) is None,
        },
    decreases m,
{
    if m > 0 {
        lemma_latest_on(line, m - 1);
    }
}

/// What is carried into a line of the given session and directory from the first `i` lines.
spec fn carried(
    lines: Seq<Seq<char>>,
    i: int,
    session: Seq<char>,
    directory: Option<Seq<char>>,
) -> Option<(int, int)>
    decreases i,
{
    if i <= 0 {
        None
    } else {
        let line = lines[i - 1];
        if message_on(line) is None {
            carried(lines, i - 1, session, directory)
        } else if session_on(line) != session || directory_on(line) != directory {
            None
        } else {
            match latest_on(line, block_count(line)) {
                Some(j) => Some((i - 1, j)),
                None => carried(lines, i - 1, session, directory),
            }
        }
    }
}

spec fn in_context(
    lines: Seq<Seq<char>>,
    from: int,
    to: int,
    session: Seq<char>,
    directory: Option<Seq<char>>,
) -> bool {
    forall|q: int|
        from <= q < to ==> (#[trigger] message_on(lines[q]) is Some ==> session_on(lines[q])
            == session && directory_on(lines[q]) == directory)
}

proof fn lemma_carried(
    lines: Seq<Seq<char>>,
    i: int,
    session: Seq<char>,
    directory: Option<Seq<char>>,
)
    requires
        0 <= i <= lines.len(),
    ensures
        match carried(lines, i, session, directory) {
            Some(p) => {
                &&& 0 <= p.0 < i
                &&& said_at(lines[p.0], p.1) is Some
                &&& in_context(lines, p.0, i, session, directory)
                &&& forall|a: int, b: int|
                    0 <= a < i && (#[trigger] said_at(lines[a], b)) is Some && in_context(
                        lines,
                        a,
                        i,
                        session,
                        directory,
                    ) ==> (a, b) == p || earlier_place((a, b), p)
            },
            None => forall|a: int, b: int|
                0 <= a < i && (#[trigger] said_at(lines[a], b)) is Some ==> !in_context(
                    lines,
                    a,
                    i,
                    session,
                    directory,
                ),
        },
    decreases i,
{
    if i > 0 {
        let line = lines[i - 1];
        lemma_carried(lines, i - 1, session, directory);
        lemma_latest_on(line, block_count(line));
        let c = carried(lines, i, session, directory);
        assert forall|a: int| 0 <= a < i && #[trigger] in_context(
            lines,
            a,
            i,
            session,
            directory,
        ) implies in_context(lines, a, i - 1, session, directory) by {}
        assert forall|a: int, b: int|
            0 <= a < i && (#[trigger] said_at(lines[a], b)) is Some && in_context(
                lines,
                a,
                i,
                session,
                directory,
            ) implies (c matches Some(p) && ((a, b) == p || earlier_place((a, b), p))) by {
            assert(message_on(lines[i - 1]) is Some ==> session_on(lines[i - 1]) == session
                && directory_on(lines[i - 1]) == directory);
            if a == i - 1 {
                assert(0 <= b < block_count(line));
            } else {
                assert(in_context(lines, a, i - 1, session, directory));
            }
        }
        if let Some(p) = c {
            if p.0 < i - 1 {
                assert forall|q: int| p.0 <= q < i implies (#[trigger] message_on(
                    lines[q],
                ) is Some ==> session_on(lines[q]) == session && directory_on(lines[q])
                    == directory) by {}
            }
        }
    }
}

// ---- One message ---------------------------------------------------------------------------

/// The context of a line.
spec fn context_on(line: Seq<char>) -> LineV {
    super::transcript::line_context(json_document(line)->0)
}

proof fn lemma_context(line: Seq<char>)
    requires
        json_document(line) is Some,
    ensures
        context_on(line).session_id == session_on(line),
        context_on(line).cwd == directory_on(line),
        context_on(line).edited_at == time_on(line),
        context_on(line).message_uuid == or_nothing(text_member(line, "uuid"@)),
        context_on(line).git_branch == text_member(line, "gitBranch"@),
        context_on(line).group_id == or_nothing(
            str_of(field2(json_document(line)->0, "message"@, "id"@)),
        ),
{
}

proof fn lemma_blank_is_no_ink(s: Seq<char>)
    ensures
        blank(s) <==> !has_ink(s),
{
    law_trimming_leaves_the_core(s);
    if has_ink(s) {
        let k = choose|k: int| 0 <= k < s.len() && !white_space(#[trigger] s[k]);
        assert(!white_space(s[k]));
    }
}

/// What the first `m` blocks of the message on a line have yielded.
spec fn read_on(line: Seq<char>, inherited: Seq<char>, m0: MessageV, m: int) -> MessageV {
    with_blocks(context_on(line), inherited, m0, message_on(line)->0.take(m))
}

/// The edge of a call says what the call and its line say.
pub open spec fn edge_at(line: Seq<char>, j: int, e: EdgeV) -> bool {
    &&& block_on(line, j) is Some
    &&& e.session_id == session_on(line)
    &&& e.cwd == directory_on(line)
    &&& e.repo_path == directory_on(line)
    &&& time_on(line) == Some(e.edited_at)
    &&& edited_at_block(line, j) == Some(e.raw_abs_path)
    &&& str_of(field(block_on(line, j)->0, "name"@)) == Some(e.tool)
    &&& e.message_uuid == or_nothing(text_member(line, "uuid"@))
    &&& e.git_branch == text_member(line, "gitBranch"@)
    &&& e.group_id == or_nothing(str_of(field2(json_document(line)->0, "message"@, "id"@)))
    &&& e.file_path == stored_path(e.raw_abs_path, directory_on(line))
}

spec fn text_so_far(line: Seq<char>, m: int) -> Seq<char> {
    match latest_on(line, m) {
        Some(j) => said_at(line, j)->0,
        None => Seq::empty(),
    }
}

proof fn lemma_read_on(line: Seq<char>, inherited: Seq<char>, m0: MessageV, i: int, m: int)
    requires
        message_on(line) is Some,
        0 <= m <= block_count(line),
        m0.edges.len() == 0,
        m0.text.len() == 0,
    ensures
        ({
            let r = read_on(line, inherited, m0, m);
            let places = places_on(line, i, m);
            &&& r.text == text_so_far(line, m)
            &&& r.edges.len() == places.len()
            &&& forall|k: int|
                0 <= k < places.len() ==> edge_at(line, (#[trigger] places[k]).1, r.edges[k])
                    && r.edges[k].edge_ordinal == k && r.edges[k].rationale == bounded_rationale(
                    match latest_on(line, places[k].1) {
                        Some(j) => said_at(line, j)->0,
                        None => inherited,
                    },
                )
        }),
    decreases m,
{
    let blocks = message_on(line)->0;
    if m == 0 {
        assert(blocks.take(0) =~= Seq::<JsonV>::empty());
        assert(m0.text =~= Seq::<char>::empty());
    } else {
        lemma_read_on(line, inherited, m0, i, m - 1);
        lemma_context(line);
        assert(blocks.take(m).drop_last() =~= blocks.take(m - 1));
        let r = read_on(line, inherited, m0, m - 1);
        let s = read_on(line, inherited, m0, m);
        let b = blocks[m - 1];
        assert(blocks.take(m).last() == b);
        assert(s == with_block(context_on(line), inherited, r, b));
        assert(block_on(line, m - 1) == Some(b));
        lemma_blank_is_no_ink(r.text);
        lemma_latest_on(line, m - 1);
        if let Some(j) = latest_on(line, m - 1) {
            assert(has_ink(said_at(line, j)->0));
        } else {
            assert(!has_ink(r.text));
        }
        if let Some(t) = str_of(field(b, "text"@)) {
            lemma_blank_is_no_ink(t);
        }
        reveal_strlit("text");
        reveal_strlit("tool_use");
        assert("text"@.len() != "tool_use"@.len());
        reveal_strlit("Edit");
        reveal_strlit("Write");
        assert("Edit"@.len() == 4 && "Write"@.len() == 5);
        let places = places_on(line, i, m);
        let before = places_on(line, i, m - 1);
        if edited_at_block(line, m - 1) is Some && time_on(line) is Some {
            assert(s.edges.len() == r.edges.len() + 1);
            assert(edge_at(line, m - 1, s.edges[r.edges.len() as int]));
        } else {
            assert(s.edges == r.edges);
        }
        assert forall|k: int| 0 <= k < places.len() implies edge_at(
            line,
            (#[trigger] places[k]).1,
            s.edges[k],
        ) && s.edges[k].edge_ordinal == k && s.edges[k].rationale == bounded_rationale(
            match latest_on(line, places[k].1) {
                Some(j) => said_at(line, j)->0,
                None => inherited,
            },
        ) by {
            if k < before.len() {
                assert(places[k] == before[k]);
                assert(s.edges[k] == r.edges[k]);
            }
        }
    }
}

// ---- The whole transcript --------------------------------------------------------------------

spec fn carried_text(
    lines: Seq<Seq<char>>,
    i: int,
    session: Seq<char>,
    directory: Option<Seq<char>>,
) -> Seq<char> {
    match carried(lines, i, session, directory) {
        Some(p) => said_at(lines[p.0], p.1)->0,
        None => Seq::empty(),
    }
}

proof fn lemma_carried_prefix(
    lines: Seq<Seq<char>>,
    i: int,
    session: Seq<char>,
    directory: Option<Seq<char>>,
)
    requires
        0 <= i < lines.len(),
    ensures
        carried(lines.drop_last(), i, session, directory) == carried(
            lines,
            i,
            session,
            directory,
        ),
    decreases i,
{
    if i > 0 {
        lemma_carried_prefix(lines, i - 1, session, directory);
        assert(lines.drop_last()[i - 1] == lines[i - 1]);
    }
}

/// The edge at a place, with its rationale.
spec fn edge_ok(lines: Seq<Seq<char>>, place: (int, int), e: EdgeV) -> bool {
    &&& edge_at(lines[place.0], place.1, e)
    &&& e.rationale == bounded_rationale(
        match latest_on(lines[place.0], place.1) {
            Some(j) => said_at(lines[place.0], j)->0,
            None => carried_text(
                lines,
                place.0,
                session_on(lines[place.0]),
                directory_on(lines[place.0]),
            ),
        },
    )
}

proof fn lemma_transcript(lines: Seq<Seq<char>>)
    ensures
        ({
            let t = transcript(lines);
            let n = lines.len() as int;
            &&& t.edges.len() == edit_places(lines).len()
            &&& forall|k: int|
                0 <= k < t.edges.len() ==> edge_ok(
                    lines,
                    edit_places(lines)[k],
                    #[trigger] t.edges[k],
                )
            &&& forall|k: int|
                0 <= k < t.edges.len() ==> (#[trigger] t.edges[k]).edge_ordinal == if k > 0
                    && edit_places(lines)[k - 1].0 == edit_places(lines)[k].0 {
                    t.edges[k - 1].edge_ordinal + 1
                } else {
                    0
                }
            &&& forall|s: Seq<char>, c: Option<Seq<char>>| #[trigger]
                carried_text(lines, n, s, c) == if s == t.last_session && c == t.last_cwd {
                    t.last_text
                } else {
                    Seq::empty()
                }
        }),
    decreases lines.len(),
{
    if lines.len() > 0 {
        let init = lines.drop_last();
        let n = lines.len() - 1;
        let last = lines[n];
        lemma_transcript(init);
        let before = transcript(init);
        let after = transcript(lines);
        let old_places = edit_places(init);
        let all = edit_places(lines);
        law_edit_places_are_the_dated_edits(init);
        lemma_blank_is_no_ink(last);
        assert forall|s: Seq<char>, c: Option<Seq<char>>| #[trigger]
            carried_text(lines, n, s, c) == carried_text(init, n, s, c) by {
            lemma_carried_prefix(lines, n, s, c);
            lemma_carried(init, n, s, c);
            if let Some(p) = carried(init, n, s, c) {
                assert(init[p.0] == lines[p.0]);
            }
        }
        assert forall|k: int| 0 <= k < before.edges.len() implies edge_ok(
            lines,
            old_places[k],
            #[trigger] before.edges[k],
        ) by {
            let p = old_places[k];
            assert(init[p.0] == lines[p.0]);
            let s = session_on(lines[p.0]);
            let c = directory_on(lines[p.0]);
            lemma_carried_prefix(lines, p.0, s, c);
            lemma_carried(init, p.0, s, c);
            if let Some(q) = carried(init, p.0, s, c) {
                assert(init[q.0] == lines[q.0]);
            }
            assert(edge_ok(init, p, before.edges[k]));
        }
        match message_on(last) {
            None => {
                assert(places_on(last, n, 0) =~= Seq::<(int, int)>::empty());
                assert(all =~= old_places);
                assert(after.edges == before.edges && after.last_text == before.last_text
                    && after.last_session == before.last_session && after.last_cwd
                    == before.last_cwd);
                assert forall|s: Seq<char>, c: Option<Seq<char>>| #[trigger]
                    carried_text(lines, n + 1, s, c) == if s == after.last_session && c
                    == after.last_cwd {
                    after.last_text
                } else {
                    Seq::empty()
                } by {
                    assert(carried(lines, n + 1, s, c) == carried(lines, n, s, c));
                    assert(carried_text(lines, n, s, c) == carried_text(init, n, s, c));
                }
            },
            Some(blocks) => {
                let line = context_on(last);
                let seen = TranscriptV { lines_total: before.lines_total + 1, ..before };
                let inherited = inherited_text(seen, line);
                let m0 = fresh_message(seen.activity);
                lemma_context(last);
                assert(after == with_message(seen, line, blocks));
                assert(blocks.take(blocks.len() as int) =~= blocks);
                lemma_read_on(last, inherited, m0, n, block_count(last));
                let r = read_on(last, inherited, m0, block_count(last));
                let fresh = places_on(last, n, block_count(last));
                lemma_places_on(last, n, block_count(last));
                assert(carried_text(init, n, line.session_id, line.cwd) == inherited);
                assert(carried_text(lines, n, line.session_id, line.cwd) == inherited);
                assert(after.edges == before.edges + r.edges);
                assert(all == old_places + fresh);
                assert forall|k: int| 0 <= k < after.edges.len() implies edge_ok(
                    lines,
                    all[k],
                    #[trigger] after.edges[k],
                ) by {
                    if k < before.edges.len() {
                        assert(after.edges[k] == before.edges[k]);
                        assert(all[k] == old_places[k]);
                    } else {
                        let q = k - before.edges.len();
                        assert(after.edges[k] == r.edges[q]);
                        assert(all[k] == fresh[q]);
                    }
                }
                assert forall|k: int| 0 <= k < after.edges.len() implies (
                #[trigger] after.edges[k]).edge_ordinal == if k > 0 && all[k - 1].0 == all[k].0 {
                    after.edges[k - 1].edge_ordinal + 1
                } else {
                    0
                } by {
                    if k < before.edges.len() {
                        assert(after.edges[k] == before.edges[k]);
                        assert(all[k] == old_places[k]);
                        if k > 0 {
                            assert(after.edges[k - 1] == before.edges[k - 1]);
                            assert(all[k - 1] == old_places[k - 1]);
                        }
                    } else {
                        let q = k - before.edges.len();
                        assert(after.edges[k] == r.edges[q]);
                        assert(all[k] == fresh[q]);
                        if q > 0 {
                            assert(after.edges[k - 1] == r.edges[q - 1]);
                            assert(all[k - 1] == fresh[q - 1]);
                        } else if k > 0 {
                            assert(all[k - 1] == old_places[k - 1]);
                        }
                    }
                }
                lemma_blank_is_no_ink(r.text);
                lemma_latest_on(last, block_count(last));
                if let Some(j) = latest_on(last, block_count(last)) {
                    assert(has_ink(said_at(last, j)->0));
                } else {
                    assert(!has_ink(r.text));
                }
                assert forall|s: Seq<char>, c: Option<Seq<char>>| #[trigger]
                    carried_text(lines, n + 1, s, c) == if s == after.last_session && c
                    == after.last_cwd {
                    after.last_text
                } else {
                    Seq::empty()
                } by {
                    if s == line.session_id && c == line.cwd {
                        if latest_on(last, block_count(last)) is None {
                            assert(carried(lines, n + 1, s, c) == carried(lines, n, s, c));
                            assert(carried_text(lines, n, s, c) == inherited);
                        }
                    }
                }
            },
        }
    }
}

proof fn lemma_explained(lines: Seq<Seq<char>>, to: (int, int), rationale: Seq<char>)
    requires
        0 <= to.0 < lines.len(),
        message_on(lines[to.0]) is Some,
        0 <= to.1 < block_count(lines[to.0]),
        rationale == bounded_rationale(
            match latest_on(lines[to.0], to.1) {
                Some(j) => said_at(lines[to.0], j)->0,
                None => carried_text(
                    lines,
                    to.0,
                    session_on(lines[to.0]),
                    directory_on(lines[to.0]),
                ),
            },
        ),
    ensures
        explained(lines, to, rationale),
{
    let line = lines[to.0];
    let s = session_on(line);
    let c = directory_on(line);
    lemma_latest_on(line, to.1);
    lemma_carried(lines, to.0, s, c);
    // The place that the rationale was taken from.
    let source = match latest_on(line, to.1) {
        Some(j) => Some((to.0, j)),
        None => carried(lines, to.0, s, c),
    };
    assert forall|from: (int, int)| #[trigger] can_explain(lines, from, to) implies (
    source matches Some(p) && (from == p || earlier_place(from, p))) by {
        if from.0 == to.0 {
            assert(said_at(line, from.1) is Some);
            assert(0 <= from.1);
        } else {
            assert(in_context(lines, from.0, to.0, s, c)) by {
                assert forall|q: int| from.0 <= q < to.0 implies (#[trigger] message_on(
                    lines[q],
                ) is Some ==> session_on(lines[q]) == s && directory_on(lines[q]) == c) by {
                    assert(same_context(lines, q, to.0));
                }
            }
            assert(said_at(lines[from.0], from.1) is Some);
        }
    }
    match source {
        Some(p) => {
            assert(can_explain(lines, p, to)) by {
                assert forall|q: int| p.0 <= q <= to.0 implies #[trigger] same_context(
                    lines,
                    q,
                    to.0,
                ) by {
                    if q < to.0 {
                        assert(message_on(lines[q]) is Some ==> session_on(lines[q]) == s
                            && directory_on(lines[q]) == c);
                    }
                }
            }
            assert forall|from: (int, int)| #[trigger]
                can_explain(lines, from, to) && (forall|other: (int, int)| #[trigger]
                    can_explain(lines, other, to) ==> other == from || earlier_place(
                        other,
                        from,
                    )) implies rationale == bounded_rationale(
                said_at(lines[from.0], from.1)->0,
            ) by {
                assert(p == from || earlier_place(p, from));
                assert(from == p || earlier_place(from, p));
            }
        },
        None => {
            law_short_rationales_are_kept_whole(Seq::empty());
            assert(trimmed(Seq::<char>::empty()).len() == 0) by {
                law_trimming_leaves_the_core(Seq::empty());
            }
        },
    }
}

/// The edges of a transcript are its dated edits and writes, one for each and in order. Each
/// says what its call and its line say; the calls of one line are numbered from 0; and the
/// rationale is the latest text that can explain the call: of its own message before the
/// call, or else of an earlier message, as long as every message since is of the same session
/// and directory, however many of them say nothing. Where there is no such text the rationale
/// is empty.
pub proof fn law_edges_are_the_dated_edits_with_their_reasons(lines: Seq<Seq<char>>)
    ensures
        ({
            let edges = transcript(lines).edges;
            let places = edit_places(lines);
            &&& edges.len() == places.len()
            &&& forall|k: int|
                0 <= k < edges.len() ==> edge_at(
                    lines[places[k].0],
                    places[k].1,
                    #[trigger] edges[k],
                )
            &&& forall|k: int|
                0 <= k < edges.len() ==> explained(
                    lines,
                    places[k],
                    (#[trigger] edges[k]).rationale,
                )
            &&& forall|k: int|
                0 <= k < edges.len() ==> (#[trigger] edges[k]).edge_ordinal == if k > 0 && places[k
                    - 1].0 == places[k].0 {
                    edges[k - 1].edge_ordinal + 1
                } else {
                    0
                }
        }),
{
    lemma_transcript(lines);
    law_edit_places_are_the_dated_edits(lines);
    let edges = transcript(lines).edges;
    let places = edit_places(lines);
    assert forall|k: int| 0 <= k < edges.len() implies explained(
        lines,
        places[k],
        (#[trigger] edges[k]).rationale,
    ) by {
        assert(edge_ok(lines, places[k], edges[k]));
        lemma_explained(lines, places[k], edges[k].rationale);
    }
    assert forall|k: int| 0 <= k < edges.len() implies edge_at(
        lines[places[k].0],
        places[k].1,
        #[trigger] edges[k],
    ) by {
        assert(edge_ok(lines, places[k], edges[k]));
    }
}

// ---- The length of a rationale ---------------------------------------------------------------

/// A rationale that takes no more than 500 bytes without the white space around it is kept
/// whole.
pub proof fn law_short_rationales_are_kept_whole(s: Seq<char>)
    requires
        vstd::utf8::encode_utf8(trimmed(s)).len() <= 500,
    ensures
        bounded_rationale(s) == trimmed(s),
{
    law_byte_lengths_are_those_of_utf8(trimmed(s));
}

/// A longer rationale is cut: it is a beginning of what was said, of as many characters as
/// 500 bytes hold and no fewer, with an ellipsis.
pub proof fn law_long_rationales_are_cut_and_marked(s: Seq<char>)
    requires
        vstd::utf8::encode_utf8(trimmed(s)).len() > 500,
    ensures
        ({
            let r = bounded_rationale(s);
            let n = r.len() - 1;
            &&& 0 <= n < trimmed(s).len()
            &&& r == trimmed(s).take(n).push('…')
            &&& vstd::utf8::encode_utf8(trimmed(s).take(n)).len() <= 500
            &&& vstd::utf8::encode_utf8(trimmed(s).take(n + 1)).len() > 500
        }),
{
    let t = trimmed(s);
    law_byte_lengths_are_those_of_utf8(t);
    law_as_many_characters_are_kept_as_fit(t, 500);
    let n = fit_len(t, 500) as int;
    if n == t.len() {
        assert(t.take(n) =~= t);
    }
}

} // verus!

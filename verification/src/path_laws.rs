//! What holds of paths: how they are taken apart, resolved and put together.
use vstd::prelude::*;

use crate::paths::{
    absolute_text, best_effort, child_of, components, first_found, normalized, path_text,
    resolve_dots, under, PathV,
};
use crate::text::{joined, lemma_split_single, nonempty, split_on};
use crate::text_laws::{law_a_separator_parts_a_text, lemma_nonempty_concat};

verus! {

/// The components of a path: a slash parts them, and nothing else does.
pub proof fn law_components_are_parted_by_slashes(a: Seq<char>, b: Seq<char>)
    ensures
        components(a.push('/') + b) == components(a) + components(b),
        (forall|i: int| 0 <= i < a.len() ==> #[trigger] a[i] != '/') ==> components(a)
            == if a.len() == 0 {
            Seq::<Seq<char>>::empty()
        } else {
            seq![a]
        },
{
    let p = |c: char| c == '/';
    law_a_separator_parts_a_text(a, '/', b, p);
    lemma_nonempty_concat(split_on(a, p), split_on(b, p));
    if forall|i: int| 0 <= i < a.len() ==> #[trigger] a[i] != '/' {
        assert forall|i: int| 0 <= i < a.len() implies !p(#[trigger] a[i]) by {}
        lemma_split_single(a, p);
        assert(seq![a].drop_last() =~= Seq::<Seq<char>>::empty());
        assert(nonempty(Seq::<Seq<char>>::empty()) =~= Seq::empty());
        assert(components(a) =~= if a.len() == 0 {
            Seq::<Seq<char>>::empty()
        } else {
            seq![a]
        });
    }
}

/// A `.` stands for nothing, a `..` takes the component before it away, any other component
/// stays; and a `..` with nothing before it leaves nothing that could be resolved.
pub proof fn law_dots_are_resolved(parts: Seq<Seq<char>>, name: Seq<char>)
    requires
        name != "."@,
        name != ".."@,
    ensures
        resolve_dots(Seq::<Seq<char>>::empty()) == Some(Seq::<Seq<char>>::empty()),
        resolve_dots(parts.push("."@)) == resolve_dots(parts),
        resolve_dots(parts.push(name).push(".."@)) == resolve_dots(parts),
        resolve_dots(parts) matches Some(r) ==> resolve_dots(parts.push(name)) == Some(
            r.push(name),
        ),
        resolve_dots(parts) is None ==> resolve_dots(parts.push(name)) is None,
        resolve_dots(parts) == Some(Seq::<Seq<char>>::empty()) ==> resolve_dots(parts.push(".."@))
            is None,
        resolve_dots(parts) is None ==> resolve_dots(parts.push(".."@)) is None,
        resolve_dots(parts) == Some(seq![name]) ==> resolve_dots(parts.push(".."@)) == Some(
            Seq::<Seq<char>>::empty(),
        ),
        resolve_dots(parts) matches Some(r) ==> r.len() > 0 ==> resolve_dots(parts.push(".."@))
            == Some(r.drop_last()),
{
    reveal_strlit(".");
    reveal_strlit("..");
    assert("."@.len() == 1 && ".."@.len() == 2);
    assert(parts.push("."@).drop_last() =~= parts);
    assert(parts.push(".."@).drop_last() =~= parts);
    assert(parts.push(name).drop_last() =~= parts);
    assert(parts.push(name).push(".."@).drop_last() =~= parts.push(name));
    if let Some(r) = resolve_dots(parts) {
        assert(r.push(name).drop_last() =~= r);
    }
    assert(seq![name].drop_last() =~= Seq::<Seq<char>>::empty());
}

/// A path is absolute exactly where its text begins with a slash, and its components are
/// those of the text with the dots resolved.
pub proof fn law_paths_are_read_from_their_texts(raw: Seq<char>)
    ensures
        normalized(raw) is Some <==> resolve_dots(components(raw)) is Some,
        normalized(raw) matches Some(p) ==> (p.absolute <==> raw.len() > 0 && raw[0] == '/')
            && Some(p.parts) == resolve_dots(components(raw)),
        absolute_text(raw) <==> raw.len() > 0 && raw[0] == '/',
{
}

/// A path lies in a directory exactly where its components go on from those of the
/// directory, and directly in it where they go on by one.
pub proof fn law_inside_is_going_on(root: PathV, rest: Seq<Seq<char>>, p: PathV)
    ensures
        under(PathV { absolute: root.absolute, parts: root.parts + rest }, root),
        child_of(PathV { absolute: root.absolute, parts: root.parts + rest }, root) <==> rest.len()
            == 1,
        under(p, root) ==> p.absolute == root.absolute && p.parts.len() >= root.parts.len()
            && p.parts.take(root.parts.len() as int) == root.parts,
        child_of(p, root) ==> under(p, root) && p.parts.len() == root.parts.len() + 1,
        p.absolute != root.absolute ==> !under(p, root) && !child_of(p, root),
{
    let q = root.parts + rest;
    assert(root.parts =~= q.subrange(0, root.parts.len() as int));
    if under(p, root) {
        assert(p.parts.take(root.parts.len() as int) =~= p.parts.subrange(
            0,
            root.parts.len() as int,
        ));
    }
}

/// A plain component: not empty, and without a slash.
pub open spec fn plain_part(s: Seq<char>) -> bool {
    s.len() > 0 && forall|i: int| 0 <= i < s.len() ==> #[trigger] s[i] != '/'
}

/// The text of a path reads as the path: its components are the path's, and it begins with a
/// slash exactly where the path is absolute.
pub proof fn law_the_text_of_a_path_reads_back(p: PathV)
    requires
        forall|i: int| 0 <= i < p.parts.len() ==> plain_part(#[trigger] p.parts[i]),
    ensures
        components(path_text(p)) == p.parts,
        p.absolute <==> absolute_text(path_text(p)),
{
    let body = joined(p.parts, "/"@);
    lemma_joined_components(p.parts);
    if p.absolute {
        let none = Seq::<char>::empty();
        law_components_are_parted_by_slashes(none, body);
        assert(none.push('/') + body =~= seq!['/'] + body);
        assert(components(path_text(p)) =~= p.parts);
    } else if p.parts.len() > 0 {
        lemma_joined_start(p.parts);
        assert(plain_part(p.parts[0]));
    }
}

proof fn lemma_joined_start(v: Seq<Seq<char>>)
    requires
        v.len() > 0,
        forall|i: int| 0 <= i < v.len() ==> plain_part(#[trigger] v[i]),
    ensures
        joined(v, "/"@).len() > 0,
        joined(v, "/"@)[0] == v[0][0],
    decreases v.len(),
{
    assert(plain_part(v[0]));
    if v.len() > 1 {
        let init = v.drop_last();
        assert forall|i: int| 0 <= i < init.len() implies plain_part(#[trigger] init[i]) by {
            assert(init[i] == v[i]);
        }
        lemma_joined_start(init);
    }
}

proof fn lemma_joined_components(v: Seq<Seq<char>>)
    requires
        forall|i: int| 0 <= i < v.len() ==> plain_part(#[trigger] v[i]),
    ensures
        components(joined(v, "/"@)) == v,
    decreases v.len(),
{
    if v.len() == 0 {
        law_components_are_parted_by_slashes(Seq::empty(), Seq::empty());
        assert(v =~= Seq::<Seq<char>>::empty());
    } else {
        let init = v.drop_last();
        let last = v[v.len() - 1];
        assert(plain_part(v[v.len() - 1]));
        law_components_are_parted_by_slashes(last, Seq::empty());
        if v.len() == 1 {
            assert(v =~= seq![last]);
        } else {
            assert forall|i: int| 0 <= i < init.len() implies plain_part(#[trigger] init[i]) by {
                assert(init[i] == v[i]);
            }
            lemma_joined_components(init);
            reveal_strlit("/");
            let head = joined(init, "/"@);
            law_components_are_parted_by_slashes(head, last);
            assert(head + "/"@ + last =~= head.push('/') + last);
            assert(init + seq![last] =~= v);
        }
    }
}

/// A path is resolved as far as it exists: where its deepest existing ancestor is `k`
/// components up, the canonical form of that ancestor takes the place of the beginning, and
/// the last `k` components stay. Where nothing exists the path stays as it is.
pub proof fn law_a_path_is_resolved_as_far_as_it_exists(
    p: PathV,
    found: Seq<Option<PathV>>,
    k: int,
)
    ensures
        (forall|j: int| 0 <= j < found.len() ==> (#[trigger] found[j]) is None) ==> best_effort(
            p,
            found,
        ) == p,
        0 <= k < found.len() && k <= p.parts.len() && found[k] is Some && (forall|j: int|
            0 <= j < k ==> (#[trigger] found[j]) is None) ==> best_effort(p, found).parts
            == found[k]->0.parts + p.parts.skip(p.parts.len() - k) && best_effort(
            p,
            found,
        ).absolute == found[k]->0.absolute,
{
    lemma_first_found(found);
    if 0 <= k < found.len() && found[k] is Some && (forall|j: int|
        0 <= j < k ==> (#[trigger] found[j]) is None) {
        assert(first_found(found) == Some(k)) by {
            let f = first_found(found);
            assert(found[k] is Some);
        }
    }
}

proof fn lemma_first_found(found: Seq<Option<PathV>>)
    ensures
        match first_found(found) {
            Some(k) => 0 <= k < found.len() && found[k] is Some && forall|j: int|
                0 <= j < k ==> (#[trigger] found[j]) is None,
            None => forall|j: int| 0 <= j < found.len() ==> (#[trigger] found[j]) is None,
        },
    decreases found.len(),
{
    if found.len() > 0 {
        let init = found.drop_last();
        lemma_first_found(init);
        assert forall|j: int| 0 <= j < init.len() implies init[j] == #[trigger] found[j] by {}
    }
}

/// The text of a path puts one slash between its components, and one in front exactly where
/// the path is absolute.
pub proof fn law_one_slash_stands_between_components(
    absolute: bool,
    parts: Seq<Seq<char>>,
    part: Seq<char>,
)
    ensures
        path_text(PathV { absolute: false, parts: Seq::empty() }) == Seq::<char>::empty(),
        path_text(PathV { absolute: true, parts: Seq::empty() }) == seq!['/'],
        path_text(PathV { absolute: false, parts: seq![part] }) == part,
        path_text(PathV { absolute: true, parts: seq![part] }) == seq!['/'] + part,
        parts.len() > 0 ==> path_text(PathV { absolute, parts: parts.push(part) }) == path_text(
            PathV { absolute, parts },
        ) + seq!['/'] + part,
{
    reveal_strlit("/");
    assert("/"@ =~= seq!['/']);
    assert(seq!['/'] + Seq::<char>::empty() =~= seq!['/']);
    if parts.len() > 0 {
        assert(parts.push(part).drop_last() =~= parts);
        let body = joined(parts, "/"@);
        assert(seq!['/'] + (body + "/"@ + part) =~= seq!['/'] + body + seq!['/'] + part);
    }
}

} // verus!

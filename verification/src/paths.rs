//! File paths by their components.
//!
//! A path is compared component by component and never by its text: `/w/proj-extra` is
//! not inside `/w/proj`, although the one text begins with the other.
use vstd::prelude::*;

use crate::text::{
    append_str, chars_eq, drop_empty, from_chars, joined, join_strings, nonempty, split_at_char,
    split_on, str_eq, strs, texts, to_chars,
};

verus! {

/// A path taken apart into its components.
#[derive(Debug)]
pub struct LexPath {
    pub absolute: bool,
    pub parts: Vec<String>,
}

/// What a [`LexPath`] holds.
pub struct PathV {
    pub absolute: bool,
    pub parts: Seq<Seq<char>>,
}

impl View for LexPath {
    type V = PathV;

    open spec fn view(&self) -> PathV {
        PathV { absolute: self.absolute, parts: strs(self.parts@) }
    }
}

pub open spec fn opt_path(p: Option<LexPath>) -> Option<PathV> {
    match p {
        Some(p) => Some(p@),
        None => None,
    }
}

/// A text names a path from the root of the file system.
pub open spec fn absolute_text(raw: Seq<char>) -> bool {
    raw.len() > 0 && raw[0] == '/'
}

/// The components of a text: what stands between slashes, empty pieces left out.
pub open spec fn components(raw: Seq<char>) -> Seq<Seq<char>> {
    nonempty(split_on(raw, |c: char| c == '/'))
}

/// The components with `.` dropped and each `..` taking the component before it away;
/// nothing where a `..` has no component to take away.
pub open spec fn resolve_dots(parts: Seq<Seq<char>>) -> Option<Seq<Seq<char>>>
    decreases parts.len(),
{
    if parts.len() == 0 {
        Some(Seq::empty())
    } else {
        match resolve_dots(parts.drop_last()) {
            None => None,
            Some(r) => if parts.last() == "."@ {
                Some(r)
            } else if parts.last() == ".."@ {
                if r.len() == 0 {
                    None
                } else {
                    Some(r.drop_last())
                }
            } else {
                Some(r.push(parts.last()))
            },
        }
    }
}

/// The path that a text names, with `.` and `..` resolved.
pub open spec fn normalized(raw: Seq<char>) -> Option<PathV> {
    match resolve_dots(components(raw)) {
        Some(parts) => Some(PathV { absolute: absolute_text(raw), parts }),
        None => None,
    }
}

/// `p` is `root` or lies below it.
pub open spec fn under(p: PathV, root: PathV) -> bool {
    p.absolute == root.absolute && root.parts.is_prefix_of(p.parts)
}

/// `p` lies directly in `root`.
pub open spec fn child_of(p: PathV, root: PathV) -> bool {
    p.absolute == root.absolute && p.parts.len() == root.parts.len() + 1
        && root.parts.is_prefix_of(p.parts)
}

/// The text of a path.
pub open spec fn path_text(p: PathV) -> Seq<char> {
    if p.absolute {
        seq!['/'] + joined(p.parts, "/"@)
    } else {
        joined(p.parts, "/"@)
    }
}

/// Whether a text names a path from the root of the file system.
pub fn is_absolute(raw: &str) -> (b: bool)
    ensures
        b == absolute_text(raw@),
{
    let v = to_chars(raw);
    v.len() > 0 && v[0] == '/'
}

fn clone_strings(v: &Vec<String>) -> (r: Vec<String>)
    ensures
        strs(r@) == strs(v@),
        r@.len() == v@.len(),
{
    let mut r: Vec<String> = Vec::new();
    for i in 0..v.len()
        invariant
            r@.len() == i,
            forall|j: int| 0 <= j < i ==> (#[trigger] r@[j])@ == v@[j]@,
    {
        r.push(v[i].clone());
    }
    assert(strs(r@) =~= strs(v@));
    r
}

/// Lexically resolves `.` and `..`.
pub fn normalize_lexical(raw: &str) -> (r: Option<LexPath>)
    ensures
        opt_path(r) == normalized(raw@),
{
    let chars = to_chars(raw);
    let comps = drop_empty(split_at_char(&chars, '/'));
    let dot = to_chars(".");
    let dots = to_chars("..");
    let mut parts: Vec<String> = Vec::new();
    let ghost all = texts(comps@);
    for i in 0..comps.len()
        invariant
            all == texts(comps@),
            all == components(raw@),
            dot@ == "."@,
            dots@ == ".."@,
            resolve_dots(all.take(i as int)) == Some(strs(parts@)),
    {
        assert(all.take(i + 1).drop_last() =~= all.take(i as int));
        assert(all[i as int] == comps@[i as int]@);
        let ghost before = strs(parts@);
        if chars_eq(comps[i].as_slice(), dot.as_slice()) {
        } else if chars_eq(comps[i].as_slice(), dots.as_slice()) {
            if parts.len() == 0 {
                proof {
                    lemma_unresolved_stays(all, i + 1);
                }
                return None;
            }
            let _ = parts.pop();
            assert(strs(parts@) =~= before.drop_last());
        } else {
            parts.push(from_chars(comps[i].as_slice()));
            assert(strs(parts@) =~= before.push(all[i as int]));
        }
    }
    assert(all.take(all.len() as int) =~= all);
    Some(LexPath { absolute: is_absolute(raw), parts })
}

/// A `..` that cannot be resolved makes every longer path unresolvable.
proof fn lemma_unresolved_stays(parts: Seq<Seq<char>>, i: int)
    requires
        0 <= i <= parts.len(),
        resolve_dots(parts.take(i)) is None,
    ensures
        resolve_dots(parts) is None,
    decreases parts.len() - i,
{
    if i < parts.len() {
        assert(parts.take(i + 1).drop_last() =~= parts.take(i));
        lemma_unresolved_stays(parts, i + 1);
    } else {
        assert(parts.take(i) =~= parts);
    }
}

impl LexPath {
    /// A path of its own with the same components.
    pub fn clone_path(&self) -> (r: LexPath)
        ensures
            r@ == self@,
    {
        LexPath { absolute: self.absolute, parts: clone_strings(&self.parts) }
    }

    /// Whether this path is `root` or lies below it.
    pub fn starts_with(&self, root: &LexPath) -> (b: bool)
        ensures
            b == under(self@, root@),
    {
        if self.absolute != root.absolute || root.parts.len() > self.parts.len() {
            return false;
        }
        for i in 0..root.parts.len()
            invariant
                root.parts@.len() <= self.parts@.len(),
                forall|j: int| 0 <= j < i ==> self@.parts[j] == root@.parts[j],
        {
            if !str_eq(self.parts[i].as_str(), root.parts[i].as_str()) {
                assert(self@.parts[i as int] != root@.parts[i as int]);
                return false;
            }
        }
        assert(root@.parts.is_prefix_of(self@.parts));
        true
    }

    /// Whether this path lies directly in `root`.
    pub fn is_child_of(&self, root: &LexPath) -> (b: bool)
        ensures
            b == child_of(self@, root@),
    {
        self.starts_with(root) && self.parts.len() - root.parts.len() == 1
    }

    /// Whether one of the components is `name`.
    pub fn has_component(&self, name: &str) -> (b: bool)
        ensures
            b == self@.parts.contains(name@),
    {
        for i in 0..self.parts.len()
            invariant
                forall|j: int| 0 <= j < i ==> self@.parts[j] != name@,
        {
            if str_eq(self.parts[i].as_str(), name) {
                assert(self@.parts[i as int] == name@);
                return true;
            }
        }
        false
    }

    /// The text of the path.
    pub fn text(&self) -> (r: String)
        ensures
            r@ == path_text(self@),
    {
        let body = join_strings(&self.parts, "/");
        if self.absolute {
            let mut out: Vec<char> = Vec::new();
            out.push('/');
            append_str(&mut out, body.as_str());
            assert(out@ =~= seq!['/'] + joined(self@.parts, "/"@));
            from_chars(&out)
        } else {
            body
        }
    }
}

/// A path and what became of asking the file system for its canonical form and for that
/// of each directory above it: `found[k]` answers for the path without its last `k`
/// components.
pub open spec fn best_effort(p: PathV, found: Seq<Option<PathV>>) -> PathV
    decreases found.len(),
{
    if found.len() == 0 {
        p
    } else {
        match first_found(found) {
            None => p,
            Some(k) => PathV {
                absolute: found[k]->0.absolute,
                parts: found[k]->0.parts + p.parts.skip(
                    if k <= p.parts.len() {
                        p.parts.len() - k
                    } else {
                        0
                    },
                ),
            },
        }
    }
}

/// The first answer that is a path.
pub open spec fn first_found(found: Seq<Option<PathV>>) -> Option<int>
    decreases found.len(),
{
    if found.len() == 0 {
        None
    } else {
        match first_found(found.drop_last()) {
            Some(k) => Some(k),
            None => if found.last() is Some {
                Some(found.len() - 1)
            } else {
                None
            },
        }
    }
}

pub open spec fn opt_paths(v: Seq<Option<LexPath>>) -> Seq<Option<PathV>> {
    Seq::new(v.len(), |i: int| opt_path(v[i]))
}

/// The path resolved as far as it exists: the canonical form of its deepest existing
/// ancestor, with the missing rest kept as it is. `found[k]` is the canonical form of
/// `p` without its last `k` components, where that exists.
pub fn resolve_best_effort(p: &LexPath, found: &Vec<Option<LexPath>>) -> (r: LexPath)
    ensures
        r@ == best_effort(p@, opt_paths(found@)),
{
    let ghost all = opt_paths(found@);
    for k in 0..found.len()
        invariant
            all == opt_paths(found@),
            first_found(all.take(k as int)) is None,
    {
        assert(all.take(k + 1).drop_last() =~= all.take(k as int));
        if let Some(base) = &found[k] {
            assert(all[k as int] == Some(base@));
            proof {
                lemma_first_found_stays(all, k + 1);
            }
            let mut parts = clone_strings(&base.parts);
            let from: usize = if k <= p.parts.len() {
                p.parts.len() - k
            } else {
                0
            };
            let ghost head = base@.parts;
            assert(p@.parts.subrange(from as int, from as int) =~= Seq::empty());
            for i in from..p.parts.len()
                invariant
                    from <= p.parts@.len(),
                    strs(parts@) =~= head + p@.parts.subrange(from as int, i as int),
            {
                let ghost before = strs(parts@);
                parts.push(p.parts[i].clone());
                assert(strs(parts@) =~= before.push(p@.parts[i as int]));
            }
            assert(p@.parts.subrange(from as int, p@.parts.len() as int) =~= p@.parts.skip(
                from as int,
            ));
            return LexPath { absolute: base.absolute, parts };
        }
        assert(all[k as int] is None);
    }
    assert(all.take(all.len() as int) =~= all);
    p.clone_path()
}

proof fn lemma_first_found_stays(found: Seq<Option<PathV>>, i: int)
    requires
        0 <= i <= found.len(),
        first_found(found.take(i)) is Some,
    ensures
        first_found(found) == first_found(found.take(i)),
    decreases found.len() - i,
{
    if i < found.len() {
        assert(found.take(i + 1).drop_last() =~= found.take(i));
        lemma_first_found_stays(found, i + 1);
    } else {
        assert(found.take(i) =~= found);
    }
}

/// Joining two lists joins their texts with one separator between.
pub proof fn lemma_joined_concat(a: Seq<Seq<char>>, b: Seq<Seq<char>>, sep: Seq<char>)
    requires
        a.len() > 0,
        b.len() > 0,
    ensures
        joined(a + b, sep) == joined(a, sep) + sep + joined(b, sep),
    decreases b.len(),
{
    let ab = a + b;
    assert(ab.drop_last() =~= a + b.drop_last());
    assert(ab.last() == b.last());
    if b.len() == 1 {
        assert(a + b.drop_last() =~= a);
    } else {
        lemma_joined_concat(a, b.drop_last(), sep);
        assert(joined(ab, sep) =~= joined(a, sep) + sep + joined(b, sep));
    }
}

/// Being inside a directory is decided at component boundaries: the text of a path below
/// `root` goes on with a slash where the text of `root` ends. A sibling whose name merely
/// begins with the name of `root` is not inside it.
pub proof fn law_under_goes_on_with_a_slash(p: PathV, root: PathV)
    requires
        root.parts.len() > 0,
        under(p, root),
    ensures
        p.parts == root.parts || (path_text(root) + "/"@).is_prefix_of(path_text(p)),
{
    let n = root.parts.len() as int;
    if p.parts.len() == n {
        assert(p.parts =~= root.parts);
    } else {
        let rest = p.parts.skip(n);
        assert(p.parts =~= root.parts + rest);
        lemma_joined_concat(root.parts, rest, "/"@);
        let full = path_text(root) + "/"@;
        let text = path_text(p);
        assert(text =~= full + joined(rest, "/"@));
        assert(full =~= text.subrange(0, full.len() as int));
    }
}

/// Being inside is transitive.
pub proof fn law_under_is_transitive(a: PathV, b: PathV, c: PathV)
    requires
        under(a, b),
        under(b, c),
    ensures
        under(a, c),
{
    assert(c.parts =~= b.parts.subrange(0, c.parts.len() as int));
    assert(b.parts =~= a.parts.subrange(0, b.parts.len() as int));
    assert(c.parts =~= a.parts.subrange(0, c.parts.len() as int));
}

/// A path without `.` and `..` names itself.
pub proof fn lemma_plain_parts_resolve(parts: Seq<Seq<char>>)
    requires
        forall|i: int| 0 <= i < parts.len() ==> parts[i] != "."@ && parts[i] != ".."@,
    ensures
        resolve_dots(parts) == Some(parts),
    decreases parts.len(),
{
    if parts.len() > 0 {
        let init = parts.drop_last();
        assert forall|i: int| 0 <= i < init.len() implies init[i] != "."@ && init[i] != ".."@ by {
            assert(init[i] == parts[i]);
        }
        lemma_plain_parts_resolve(init);
        assert(parts =~= init.push(parts.last()));
        let last = parts[parts.len() - 1];
        assert(last != "."@);
    } else {
        assert(parts =~= Seq::empty());
    }
}

/// What [`resolve_dots`] leaves holds no `.` and no `..`, so resolving again changes
/// nothing.
pub proof fn law_resolving_twice_changes_nothing(parts: Seq<Seq<char>>)
    ensures
        resolve_dots(parts) matches Some(r) ==> resolve_dots(r) == Some(r),
{
    lemma_resolved_is_plain(parts);
    if let Some(r) = resolve_dots(parts) {
        lemma_plain_parts_resolve(r);
    }
}

proof fn lemma_resolved_is_plain(parts: Seq<Seq<char>>)
    ensures
        resolve_dots(parts) matches Some(r) ==> forall|i: int|
            0 <= i < r.len() ==> #[trigger] r[i] != "."@ && r[i] != ".."@,
    decreases parts.len(),
{
    if parts.len() > 0 {
        lemma_resolved_is_plain(parts.drop_last());
    }
}

} // verus!

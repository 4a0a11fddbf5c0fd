//! Text as sequences of characters.
//!
//! Every contract in this crate speaks of a string through its view, a `Seq<char>`.
//! This module holds the vocabulary that those contracts share (splitting, trimming,
//! joining, searching, decimal notation, the byte length of a string) together with
//! the executable functions that compute it.
use vstd::prelude::*;

verus! {

/// `String::push` appends one character.
pub assume_specification[ String::push ](s: &mut String, c: char)
    ensures
        final(s)@ == old(s)@.push(c),
;

/// The text that `String::from_utf8_lossy` reads from bytes.
pub uninterp spec fn utf8_lossy(bytes: Seq<u8>) -> Seq<char>;

/// Reads bytes as text with `String::from_utf8_lossy`, which puts a replacement character
/// for each stretch that is not UTF-8.
///
/// Trusted: the outcome is a function of the bytes alone; it is their decoding where they
/// are UTF-8; and it has no more characters than there are bytes, since a replacement
/// character stands for at least one byte.
#[verifier::external_body]
pub(crate) fn lossy_text(bytes: &[u8]) -> (r: String)
    ensures
        r@ == utf8_lossy(bytes@),
        vstd::utf8::valid_utf8(bytes@) ==> r@ == vstd::utf8::decode_utf8(bytes@),
        r@.len() <= bytes@.len(),
{
    String::from_utf8_lossy(bytes).into_owned()
}

/// The views of a list of strings.
pub open spec fn strs(v: Seq<String>) -> Seq<Seq<char>> {
    Seq::new(v.len(), |i: int| v[i]@)
}

/// The views of a list of character vectors.
pub open spec fn texts(v: Seq<Vec<char>>) -> Seq<Seq<char>> {
    Seq::new(v.len(), |i: int| v[i]@)
}

/// The view of an optional string.
pub open spec fn opt_str(o: Option<String>) -> Option<Seq<char>> {
    match o {
        Some(s) => Some(s@),
        None => None,
    }
}

/// The view of an optional borrowed string.
pub open spec fn opt_ref(o: Option<&str>) -> Option<Seq<char>> {
    match o {
        Some(s) => Some(s@),
        None => None,
    }
}

/// The characters of `s`.
pub fn to_chars(s: &str) -> (v: Vec<char>)
    ensures
        v@ == s@,
{
    let mut v: Vec<char> = Vec::new();
    for c in it: s.chars()
        invariant
            v@ == it.seq().take(it.index()),
            it.seq() == s@,
    {
        v.push(c);
        assert(it.seq().take(it.index() + 1) =~= it.seq().take(it.index()).push(c));
    }
    assert(v@ =~= s@);
    v
}

/// The string made of the characters `v`.
pub fn from_chars(v: &[char]) -> (s: String)
    ensures
        s@ == v@,
{
    let mut s = String::new();
    for i in 0..v.len()
        invariant
            s@ == v@.take(i as int),
    {
        s.push(v[i]);
        assert(v@.take(i + 1) =~= v@.take(i as int).push(v@[i as int]));
    }
    assert(v@.take(v@.len() as int) =~= v@);
    s
}

/// The part of `v` from `from` up to `to`.
pub fn slice_chars(v: &[char], from: usize, to: usize) -> (r: Vec<char>)
    requires
        from <= to <= v@.len(),
    ensures
        r@ == v@.subrange(from as int, to as int),
{
    let mut r: Vec<char> = Vec::new();
    for i in from..to
        invariant
            from <= to <= v@.len(),
            r@ == v@.subrange(from as int, i as int),
    {
        r.push(v[i]);
        assert(v@.subrange(from as int, i + 1) =~= v@.subrange(from as int, i as int).push(
            v@[i as int],
        ));
    }
    r
}

/// Appends the characters of `s`.
pub fn append_str(out: &mut Vec<char>, s: &str)
    ensures
        final(out)@ == old(out)@ + s@,
{
    let v = to_chars(s);
    append_chars(out, &v);
}

/// Appends `v`.
pub fn append_chars(out: &mut Vec<char>, v: &[char])
    ensures
        final(out)@ == old(out)@ + v@,
{
    let ghost before = out@;
    assert(before + v@.take(0) =~= before);
    for i in 0..v.len()
        invariant
            out@ == before + v@.take(i as int),
    {
        out.push(v[i]);
        assert(before + v@.take(i + 1) =~= (before + v@.take(i as int)).push(v@[i as int]));
    }
    assert(v@.take(v@.len() as int) =~= v@);
}

/// Whether two strings are equal.
pub fn str_eq(a: &str, b: &str) -> (r: bool)
    ensures
        r == (a@ == b@),
{
    let x = a.as_bytes();
    let y = b.as_bytes();
    if x.len() != y.len() {
        return false;
    }
    for i in 0..x.len()
        invariant
            x@ == vstd::utf8::encode_utf8(a@),
            y@ == vstd::utf8::encode_utf8(b@),
            x@.len() == y@.len(),
            forall|j: int| 0 <= j < i ==> x@[j] == y@[j],
    {
        if x[i] != y[i] {
            return false;
        }
    }
    proof {
        assert(x@ =~= y@);
        vstd::utf8::encode_utf8_decode_utf8(a@);
        vstd::utf8::encode_utf8_decode_utf8(b@);
    }
    true
}

/// Whether two character vectors are equal.
pub fn chars_eq(a: &[char], b: &[char]) -> (r: bool)
    ensures
        r == (a@ == b@),
{
    if a.len() != b.len() {
        return false;
    }
    for i in 0..a.len()
        invariant
            a@.len() == b@.len(),
            forall|j: int| 0 <= j < i ==> a@[j] == b@[j],
    {
        if a[i] != b[i] {
            assert(a@[i as int] != b@[i as int]);
            return false;
        }
    }
    assert(a@ =~= b@);
    true
}

/// Whether an optional string is the given one.
pub fn opt_is(o: &Option<String>, s: &str) -> (r: bool)
    ensures
        r == (opt_str(*o) == Some(s@)),
{
    match o {
        Some(t) => str_eq(t.as_str(), s),
        None => false,
    }
}

/// An optional text of its own.
pub fn own_opt(o: Option<&str>) -> (r: Option<String>)
    ensures
        opt_str(r) == opt_ref(o),
{
    match o {
        Some(s) => Some(s.to_owned()),
        None => None,
    }
}

/// Whether a text is among those of a list.
pub fn has_text(v: &Vec<String>, s: &str) -> (b: bool)
    ensures
        b == strs(v@).contains(s@),
{
    for i in 0..v.len()
        invariant
            forall|j: int| 0 <= j < i ==> strs(v@)[j] != s@,
    {
        if str_eq(v[i].as_str(), s) {
            assert(strs(v@)[i as int] == s@);
            return true;
        }
    }
    false
}

/// A copy of an optional string.
pub fn clone_opt(o: &Option<String>) -> (r: Option<String>)
    ensures
        opt_str(r) == opt_str(*o),
{
    match o {
        Some(s) => Some(s.clone()),
        None => None,
    }
}

/// The length of a string in characters.
pub fn char_count(s: &str) -> (n: usize)
    ensures
        n == s@.len(),
{
    s.unicode_len()
}

// ---- Character classes ----------------------------------------------------------------

/// The characters with the Unicode property `White_Space`.
pub open spec fn white_space(c: char) -> bool {
    ||| '\u{9}' <= c <= '\u{d}'
    ||| c == ' '
    ||| c == '\u{85}'
    ||| c == '\u{a0}'
    ||| c == '\u{1680}'
    ||| '\u{2000}' <= c <= '\u{200a}'
    ||| c == '\u{2028}'
    ||| c == '\u{2029}'
    ||| c == '\u{202f}'
    ||| c == '\u{205f}'
    ||| c == '\u{3000}'
}

pub fn is_white_space(c: char) -> (b: bool)
    ensures
        b == white_space(c),
{
    ('\u{9}' <= c && c <= '\u{d}') || c == ' ' || c == '\u{85}' || c == '\u{a0}' || c == '\u{1680}'
        || ('\u{2000}' <= c && c <= '\u{200a}') || c == '\u{2028}' || c == '\u{2029}' || c
        == '\u{202f}' || c == '\u{205f}' || c == '\u{3000}'
}

/// The predicate behind [`white_space`], to hand to [`split_on`].
pub open spec fn ws() -> spec_fn(char) -> bool {
    |c: char| white_space(c)
}

pub open spec fn ascii_alnum(c: char) -> bool {
    ||| '0' <= c <= '9'
    ||| 'a' <= c <= 'z'
    ||| 'A' <= c <= 'Z'
}

pub fn is_ascii_alnum(c: char) -> (b: bool)
    ensures
        b == ascii_alnum(c),
{
    ('0' <= c && c <= '9') || ('a' <= c && c <= 'z') || ('A' <= c && c <= 'Z')
}

/// The lower-case form of an ASCII letter; any other character itself.
pub open spec fn lower_char(c: char) -> char {
    if 'A' <= c <= 'Z' {
        (c as u8 + 32) as u8 as char
    } else {
        c
    }
}

/// `s` with its ASCII letters in lower case.
pub open spec fn ascii_lower(s: Seq<char>) -> Seq<char> {
    Seq::new(s.len(), |i: int| lower_char(s[i]))
}

pub fn to_lower_char(c: char) -> (r: char)
    ensures
        r == lower_char(c),
{
    if 'A' <= c && c <= 'Z' {
        (c as u8 + 32) as char
    } else {
        c
    }
}

/// `s` with its ASCII letters in lower case.
pub fn to_ascii_lower(s: &[char]) -> (r: Vec<char>)
    ensures
        r@ == ascii_lower(s@),
{
    let mut r: Vec<char> = Vec::new();
    for i in 0..s.len()
        invariant
            r@ == ascii_lower(s@.take(i as int)),
    {
        r.push(to_lower_char(s[i]));
        assert(r@ =~= ascii_lower(s@.take(i + 1)));
    }
    assert(s@.take(s@.len() as int) =~= s@);
    r
}

// ---- Splitting and joining ------------------------------------------------------------

/// The pieces of `s` between the characters that satisfy `p`, empty pieces kept: one
/// piece more than there are such characters.
pub open spec fn split_on(s: Seq<char>, p: spec_fn(char) -> bool) -> Seq<Seq<char>>
    decreases s.len(),
{
    if s.len() == 0 {
        seq![Seq::empty()]
    } else {
        let r = split_on(s.drop_last(), p);
        if p(s.last()) {
            r.push(Seq::empty())
        } else {
            r.drop_last().push(r.last().push(s.last()))
        }
    }
}

/// The non-empty members of a list, in order.
pub open spec fn nonempty(v: Seq<Seq<char>>) -> Seq<Seq<char>>
    decreases v.len(),
{
    if v.len() == 0 {
        Seq::empty()
    } else if v.last().len() == 0 {
        nonempty(v.drop_last())
    } else {
        nonempty(v.drop_last()).push(v.last())
    }
}

/// The maximal runs of characters other than white space.
pub open spec fn words(s: Seq<char>) -> Seq<Seq<char>> {
    nonempty(split_on(s, ws()))
}

/// The members of `v` with `sep` between neighbours.
pub open spec fn joined(v: Seq<Seq<char>>, sep: Seq<char>) -> Seq<char>
    decreases v.len(),
{
    if v.len() == 0 {
        Seq::empty()
    } else if v.len() == 1 {
        v[0]
    } else {
        joined(v.drop_last(), sep) + sep + v.last()
    }
}

/// Splits at the characters that satisfy `f`; `p` is what `f` decides.
pub fn split_chars<F: Fn(char) -> bool>(
    s: &[char],
    f: F,
    Ghost(p): Ghost<spec_fn(char) -> bool>,
) -> (r: Vec<Vec<char>>)
    requires
        forall|c: char| f.requires((c,)),
        forall|c: char, b: bool| f.ensures((c,), b) ==> b == p(c),
    ensures
        texts(r@) == split_on(s@, p),
        r@.len() >= 1,
{
    let mut out: Vec<Vec<char>> = Vec::new();
    let mut cur: Vec<char> = Vec::new();
    for i in 0..s.len()
        invariant
            forall|c: char| f.requires((c,)),
            forall|c: char, b: bool| f.ensures((c,), b) ==> b == p(c),
            texts(out@).push(cur@) =~= split_on(s@.take(i as int), p),
    {
        assert(s@.take(i + 1).drop_last() =~= s@.take(i as int));
        let ghost before = texts(out@);
        if f(s[i]) {
            out.push(cur);
            assert(texts(out@) =~= before.push(out@.last()@));
            cur = Vec::new();
        } else {
            cur.push(s[i]);
        }
    }
    let ghost before = texts(out@);
    out.push(cur);
    assert(texts(out@) =~= before.push(out@.last()@));
    assert(s@.take(s@.len() as int) =~= s@);
    out
}

/// Drops the empty members.
pub fn drop_empty(v: Vec<Vec<char>>) -> (r: Vec<Vec<char>>)
    ensures
        texts(r@) == nonempty(texts(v@)),
{
    let mut r: Vec<Vec<char>> = Vec::new();
    for i in 0..v.len()
        invariant
            texts(r@) == nonempty(texts(v@).take(i as int)),
    {
        assert(texts(v@).take(i + 1).drop_last() =~= texts(v@).take(i as int));
        if v[i].len() > 0 {
            let ghost before = texts(r@);
            let w = slice_chars(v[i].as_slice(), 0, v[i].len());
            assert(w@ =~= v@[i as int]@);
            r.push(w);
            assert(texts(r@) =~= before.push(w@));
        }
    }
    assert(texts(v@).take(v@.len() as int) =~= texts(v@));
    r
}

/// The words of `s`.
pub fn split_words(s: &str) -> (r: Vec<Vec<char>>)
    ensures
        texts(r@) == words(s@),
{
    let v = to_chars(s);
    drop_empty(split_chars(&v, is_white_space, Ghost(ws())))
}

/// Splits at every occurrence of one character.
pub fn split_at_char(s: &[char], sep: char) -> (r: Vec<Vec<char>>)
    ensures
        texts(r@) == split_on(s@, |c: char| c == sep),
        r@.len() >= 1,
{
    let f = |c: char| -> (b: bool)
        ensures
            b == (c == sep),
        { c == sep };
    split_chars(s, f, Ghost(|c: char| c == sep))
}

/// Joins `v` with `sep`.
pub fn join(v: &Vec<Vec<char>>, sep: &str) -> (r: Vec<char>)
    ensures
        r@ == joined(texts(v@), sep@),
{
    let mut r: Vec<char> = Vec::new();
    for i in 0..v.len()
        invariant
            r@ == joined(texts(v@).take(i as int), sep@),
    {
        let ghost t = texts(v@);
        assert(t.take(i + 1).drop_last() =~= t.take(i as int));
        if i > 0 {
            append_str(&mut r, sep);
        }
        append_chars(&mut r, v[i].as_slice());
        if i == 0 {
            assert(t.take(0) =~= Seq::empty());
            assert(r@ =~= t[0]);
        }
    }
    assert(texts(v@).take(v@.len() as int) =~= texts(v@));
    r
}

/// Joins strings with `sep`.
pub fn join_strings(v: &Vec<String>, sep: &str) -> (r: String)
    ensures
        r@ == joined(strs(v@), sep@),
{
    let mut r: Vec<char> = Vec::new();
    for i in 0..v.len()
        invariant
            r@ == joined(strs(v@).take(i as int), sep@),
    {
        let ghost t = strs(v@);
        assert(t.take(i + 1).drop_last() =~= t.take(i as int));
        if i > 0 {
            append_str(&mut r, sep);
        }
        append_str(&mut r, v[i].as_str());
        if i == 0 {
            assert(t.take(0) =~= Seq::empty());
            assert(r@ =~= t[0]);
        }
    }
    assert(strs(v@).take(v@.len() as int) =~= strs(v@));
    from_chars(&r)
}

/// Every piece of a split is free of separators, and there is at least one piece.
pub proof fn lemma_split_pieces(s: Seq<char>, p: spec_fn(char) -> bool)
    ensures
        split_on(s, p).len() >= 1,
        forall|i: int, j: int|
            0 <= i < split_on(s, p).len() && 0 <= j < split_on(s, p)[i].len() ==> !p(
                #[trigger] split_on(s, p)[i][j],
            ),
    decreases s.len(),
{
    if s.len() > 0 {
        lemma_split_pieces(s.drop_last(), p);
        let r = split_on(s.drop_last(), p);
        assert forall|i: int, j: int|
            0 <= i < split_on(s, p).len() && 0 <= j < split_on(s, p)[i].len() implies !p(
            #[trigger] split_on(s, p)[i][j],
        ) by {
            if !p(s.last()) && i == r.len() - 1 {
                if j < r.last().len() {
                    assert(split_on(s, p)[i][j] == r[i][j]);
                }
            } else if i < r.len() {
                assert(split_on(s, p)[i][j] == r[i][j]);
            }
        }
    }
}

/// The members that [`nonempty`] keeps are the non-empty members of the list.
pub proof fn lemma_nonempty_members(v: Seq<Seq<char>>)
    ensures
        forall|i: int|
            0 <= i < nonempty(v).len() ==> (#[trigger] nonempty(v)[i]).len() > 0 && v.contains(
                nonempty(v)[i],
            ),
        forall|x: Seq<char>| v.contains(x) && x.len() > 0 ==> nonempty(v).contains(x),
    decreases v.len(),
{
    if v.len() > 0 {
        lemma_nonempty_members(v.drop_last());
        let prev = nonempty(v.drop_last());
        assert forall|i: int| 0 <= i < nonempty(v).len() implies (#[trigger] nonempty(v)[i]).len()
            > 0 && v.contains(nonempty(v)[i]) by {
            if i < prev.len() {
                assert(nonempty(v)[i] == prev[i]);
                let k = choose|k: int| 0 <= k < v.drop_last().len() && v.drop_last()[k] == prev[i];
                assert(v[k] == prev[i]);
            } else {
                assert(v[v.len() - 1] == nonempty(v)[i]);
            }
        }
        assert forall|x: Seq<char>| v.contains(x) && x.len() > 0 implies nonempty(v).contains(
            x,
        ) by {
            let k = choose|k: int| 0 <= k < v.len() && v[k] == x;
            if k < v.len() - 1 {
                assert(v.drop_last()[k] == x);
                assert(v.drop_last().contains(x));
                let m = choose|m: int| 0 <= m < prev.len() && prev[m] == x;
                assert(nonempty(v)[m] == x) by {
                    assert(nonempty(v) == prev || nonempty(v) == prev.push(v.last()));
                }
            } else {
                assert(nonempty(v)[nonempty(v).len() - 1] == x);
            }
        }
    }
}

/// A piece without separators is added to a split by a separator before it.
pub proof fn lemma_split_append(s: Seq<char>, sep: char, w: Seq<char>, p: spec_fn(char) -> bool)
    requires
        p(sep),
        forall|i: int| 0 <= i < w.len() ==> !p(#[trigger] w[i]),
    ensures
        split_on(s.push(sep) + w, p) == split_on(s, p).push(w),
    decreases w.len(),
{
    let full = s.push(sep) + w;
    lemma_split_pieces(s, p);
    if w.len() == 0 {
        assert(full =~= s.push(sep));
        assert(full.drop_last() =~= s);
        assert(w =~= Seq::empty());
    } else {
        let init = w.drop_last();
        assert forall|i: int| 0 <= i < init.len() implies !p(#[trigger] init[i]) by {
            assert(init[i] == w[i]);
        }
        lemma_split_append(s, sep, init, p);
        assert(full.drop_last() =~= s.push(sep) + init);
        let last = w[w.len() - 1];
        assert(full.last() == last);
        assert(!p(last));
        assert(init.push(last) =~= w);
        let r = split_on(s, p).push(init);
        assert(r.drop_last() =~= split_on(s, p));
        assert(r.last() == init);
    }
}

/// A text without separators is its own only piece.
pub proof fn lemma_split_single(w: Seq<char>, p: spec_fn(char) -> bool)
    requires
        forall|i: int| 0 <= i < w.len() ==> !p(#[trigger] w[i]),
    ensures
        split_on(w, p) == seq![w],
    decreases w.len(),
{
    if w.len() == 0 {
        assert(w =~= Seq::empty());
    } else {
        let init = w.drop_last();
        assert forall|i: int| 0 <= i < init.len() implies !p(#[trigger] init[i]) by {
            assert(init[i] == w[i]);
        }
        lemma_split_single(init, p);
        let last = w[w.len() - 1];
        assert(!p(last));
        assert(init.push(last) =~= w);
        assert(split_on(w, p) =~= seq![w]);
    }
}

/// Words joined by single spaces split into the same words.
pub proof fn lemma_words_joined(v: Seq<Seq<char>>)
    requires
        forall|i: int| 0 <= i < v.len() ==> (#[trigger] v[i]).len() > 0,
        forall|i: int, j: int|
            0 <= i < v.len() && 0 <= j < v[i].len() ==> !white_space(#[trigger] v[i][j]),
    ensures
        words(joined(v, " "@)) == v,
{
    if v.len() == 0 {
        assert(joined(v, " "@) =~= Seq::empty());
        reveal_with_fuel(nonempty, 3);
        assert(split_on(Seq::<char>::empty(), ws()) =~= seq![Seq::<char>::empty()]);
        assert(seq![Seq::<char>::empty()].drop_last() =~= Seq::empty());
        assert(v =~= Seq::empty());
    } else {
        lemma_split_joined(v);
        lemma_nonempty_all(v);
    }
}

proof fn lemma_split_joined(v: Seq<Seq<char>>)
    requires
        v.len() > 0,
        forall|i: int, j: int|
            0 <= i < v.len() && 0 <= j < v[i].len() ==> !white_space(#[trigger] v[i][j]),
    ensures
        split_on(joined(v, " "@), ws()) == v,
    decreases v.len(),
{
    let last = v[v.len() - 1];
    assert forall|i: int| 0 <= i < last.len() implies !ws()(#[trigger] last[i]) by {
        assert(!white_space(v[v.len() - 1][i]));
    }
    if v.len() == 1 {
        lemma_split_single(last, ws());
        assert(v =~= seq![last]);
    } else {
        let init = v.drop_last();
        assert forall|i: int, j: int| 0 <= i < init.len() && 0 <= j < init[i].len() implies
            !white_space(#[trigger] init[i][j]) by {
            assert(init[i][j] == v[i][j]);
        }
        lemma_split_joined(init);
        reveal_strlit(" ");
        let head = joined(init, " "@);
        assert(" "@ =~= seq![' ']);
        assert(head + " "@ + last =~= head.push(' ') + last);
        assert(ws()(' '));
        lemma_split_append(head, ' ', last, ws());
        assert(init.push(last) =~= v);
    }
}

proof fn lemma_nonempty_all(v: Seq<Seq<char>>)
    requires
        forall|i: int| 0 <= i < v.len() ==> (#[trigger] v[i]).len() > 0,
    ensures
        nonempty(v) == v,
    decreases v.len(),
{
    if v.len() == 0 {
        assert(v =~= Seq::empty());
    } else {
        let init = v.drop_last();
        assert forall|i: int| 0 <= i < init.len() implies (#[trigger] init[i]).len() > 0 by {
            assert(init[i] == v[i]);
        }
        lemma_nonempty_all(init);
        let last = v[v.len() - 1];
        assert(last.len() > 0);
        assert(init.push(last) =~= v);
    }
}

/// A word is not empty and holds no white space.
pub proof fn lemma_words_plain(s: Seq<char>)
    ensures
        forall|i: int| 0 <= i < words(s).len() ==> (#[trigger] words(s)[i]).len() > 0,
        forall|i: int, j: int|
            0 <= i < words(s).len() && 0 <= j < words(s)[i].len() ==> !white_space(
                #[trigger] words(s)[i][j],
            ),
{
    let pieces = split_on(s, ws());
    lemma_split_pieces(s, ws());
    lemma_nonempty_members(pieces);
    assert forall|i: int, j: int| 0 <= i < words(s).len() && 0 <= j < words(s)[i].len() implies
        !white_space(#[trigger] words(s)[i][j]) by {
        assert(pieces.contains(words(s)[i]));
        let k = choose|k: int| 0 <= k < pieces.len() && pieces[k] == words(s)[i];
        assert(!ws()(pieces[k][j]));
    }
}

// ---- Trimming -------------------------------------------------------------------------

/// `s` without its longest suffix of characters that satisfy `p`.
pub open spec fn trim_end_by(s: Seq<char>, p: spec_fn(char) -> bool) -> Seq<char>
    decreases s.len(),
{
    if s.len() > 0 && p(s.last()) {
        trim_end_by(s.drop_last(), p)
    } else {
        s
    }
}

/// `s` without its longest prefix of characters that satisfy `p`.
pub open spec fn trim_start_by(s: Seq<char>, p: spec_fn(char) -> bool) -> Seq<char>
    decreases s.len(),
{
    if s.len() > 0 && p(s[0]) {
        trim_start_by(s.drop_first(), p)
    } else {
        s
    }
}

/// `s` without white space at either end.
pub open spec fn trimmed(s: Seq<char>) -> Seq<char> {
    trim_end_by(trim_start_by(s, ws()), ws())
}

pub fn trim_start_chars<F: Fn(char) -> bool>(
    s: &[char],
    f: F,
    Ghost(p): Ghost<spec_fn(char) -> bool>,
) -> (r: Vec<char>)
    requires
        forall|c: char| f.requires((c,)),
        forall|c: char, b: bool| f.ensures((c,), b) ==> b == p(c),
    ensures
        r@ == trim_start_by(s@, p),
{
    let mut i: usize = 0;
    assert(s@.skip(0) =~= s@);
    while i < s.len() && f(s[i])
        invariant
            forall|c: char| f.requires((c,)),
            forall|c: char, b: bool| f.ensures((c,), b) ==> b == p(c),
            i <= s@.len(),
            trim_start_by(s@, p) == trim_start_by(s@.skip(i as int), p),
        decreases s.len() - i,
    {
        assert(s@.skip(i as int).drop_first() =~= s@.skip(i + 1));
        i = i + 1;
    }
    assert(s@.skip(i as int) =~= s@.subrange(i as int, s@.len() as int));
    slice_chars(s, i, s.len())
}

pub fn trim_end_chars<F: Fn(char) -> bool>(
    s: &[char],
    f: F,
    Ghost(p): Ghost<spec_fn(char) -> bool>,
) -> (r: Vec<char>)
    requires
        forall|c: char| f.requires((c,)),
        forall|c: char, b: bool| f.ensures((c,), b) ==> b == p(c),
    ensures
        r@ == trim_end_by(s@, p),
{
    let mut i: usize = s.len();
    assert(s@.take(s@.len() as int) =~= s@);
    while i > 0 && f(s[i - 1])
        invariant
            forall|c: char| f.requires((c,)),
            forall|c: char, b: bool| f.ensures((c,), b) ==> b == p(c),
            i <= s@.len(),
            trim_end_by(s@, p) == trim_end_by(s@.take(i as int), p),
        decreases i,
    {
        assert(s@.take(i as int).drop_last() =~= s@.take(i - 1));
        i = i - 1;
    }
    assert(s@.take(i as int) =~= s@.subrange(0, i as int));
    slice_chars(s, 0, i)
}

/// `s` without white space at either end.
pub fn trim_chars(s: &[char]) -> (r: Vec<char>)
    ensures
        r@ == trimmed(s@),
{
    let t = trim_start_chars(s, is_white_space, Ghost(ws()));
    trim_end_chars(&t, is_white_space, Ghost(ws()))
}

/// `s` without white space at either end.
pub fn trim(s: &str) -> (r: String)
    ensures
        r@ == trimmed(s@),
{
    let v = to_chars(s);
    from_chars(&trim_chars(&v))
}

// ---- Searching ------------------------------------------------------------------------

/// `pat` stands in `s` at `i`.
pub open spec fn occurs_at(s: Seq<char>, pat: Seq<char>, i: int) -> bool {
    0 <= i && i + pat.len() <= s.len() && s.subrange(i, i + pat.len()) == pat
}

/// `pat` stands somewhere in `s`.
pub open spec fn has_sub(s: Seq<char>, pat: Seq<char>) -> bool {
    exists|i: int| occurs_at(s, pat, i)
}

/// Whether `pat` stands in `s` at `i`.
pub fn matches_at(s: &[char], pat: &[char], i: usize) -> (b: bool)
    ensures
        b == occurs_at(s@, pat@, i as int),
{
    if i > s.len() || pat.len() > s.len() - i {
        return false;
    }
    for j in 0..pat.len()
        invariant
            i + pat@.len() <= s@.len(),
            s@.len() <= usize::MAX,
            forall|k: int| 0 <= k < j ==> s@[i + k] == pat@[k],
    {
        if s[i + j] != pat[j] {
            assert(s@.subrange(i as int, i + pat@.len())[j as int] != pat@[j as int]);
            return false;
        }
    }
    assert(s@.subrange(i as int, i + pat@.len()) =~= pat@);
    true
}

/// Whether `pat` stands somewhere in `s`.
pub fn contains_chars(s: &[char], pat: &[char]) -> (b: bool)
    ensures
        b == has_sub(s@, pat@),
{
    let mut i: usize = 0;
    while i <= s.len()
        invariant
            i <= s@.len() + 1,
            s@.len() <= usize::MAX - 1 || i <= s@.len(),
            forall|k: int| 0 <= k < i ==> !occurs_at(s@, pat@, k),
        decreases s@.len() + 1 - i,
    {
        if matches_at(s, pat, i) {
            return true;
        }
        if i == s.len() {
            return false;
        }
        i = i + 1;
    }
    false
}

/// Whether `s` begins with `pat`.
pub fn starts_with(s: &[char], pat: &str) -> (b: bool)
    ensures
        b == pat@.is_prefix_of(s@),
{
    let p = to_chars(pat);
    let b = matches_at(s, &p, 0);
    assert(occurs_at(s@, pat@, 0) == pat@.is_prefix_of(s@));
    b
}

/// Whether one of the characters of `s` is `c`.
pub fn has_char(s: &[char], c: char) -> (b: bool)
    ensures
        b == s@.contains(c),
{
    for i in 0..s.len()
        invariant
            forall|k: int| 0 <= k < i ==> s@[k] != c,
    {
        if s[i] == c {
            assert(s@[i as int] == c);
            return true;
        }
    }
    false
}

// ---- Byte lengths ---------------------------------------------------------------------

/// The number of bytes of a character in UTF-8.
pub open spec fn utf8_width(c: char) -> nat {
    if c <= '\u{7f}' {
        1
    } else if c <= '\u{7ff}' {
        2
    } else if c <= '\u{ffff}' {
        3
    } else {
        4
    }
}

pub fn char_width(c: char) -> (n: usize)
    ensures
        n == utf8_width(c),
{
    if c <= '\u{7f}' {
        1
    } else if c <= '\u{7ff}' {
        2
    } else if c <= '\u{ffff}' {
        3
    } else {
        4
    }
}

/// The number of bytes of `s` in UTF-8.
pub open spec fn utf8_len(s: Seq<char>) -> nat
    decreases s.len(),
{
    if s.len() == 0 {
        0
    } else {
        utf8_len(s.drop_last()) + utf8_width(s.last())
    }
}

/// Byte lengths add up over concatenation, and grow with the prefix.
pub proof fn lemma_utf8_len_take(s: Seq<char>, i: int)
    requires
        0 <= i <= s.len(),
    ensures
        utf8_len(s.take(i)) <= utf8_len(s),
        utf8_len(s.take(i)) >= i,
        i < s.len() ==> utf8_len(s.take(i + 1)) == utf8_len(s.take(i)) + utf8_width(s[i]),
    decreases s.len() - i, i,
{
    lemma_utf8_len_min(s.take(i));
    if i < s.len() {
        assert(s.take(i + 1).drop_last() =~= s.take(i));
        lemma_utf8_len_take(s, i + 1);
    } else {
        assert(s.take(i) =~= s);
    }
}

/// A character takes at least one byte.
pub proof fn lemma_utf8_len_min(s: Seq<char>)
    ensures
        s.len() <= utf8_len(s) <= 4 * s.len(),
    decreases s.len(),
{
    if s.len() > 0 {
        lemma_utf8_len_min(s.drop_last());
    }
}

/// How many leading characters of `s` fit in `max` bytes: characters are dropped from the
/// end until the rest fits.
pub open spec fn fit_len(s: Seq<char>, max: nat) -> nat
    decreases s.len(),
{
    if s.len() == 0 || utf8_len(s) <= max {
        s.len()
    } else {
        fit_len(s.drop_last(), max)
    }
}

proof fn lemma_fit_len(s: Seq<char>, max: nat, i: int)
    requires
        0 <= i <= s.len(),
        utf8_len(s.take(i)) <= max,
        i < s.len() ==> utf8_len(s.take(i + 1)) > max,
    ensures
        fit_len(s, max) == i,
    decreases s.len(),
{
    if i == s.len() {
        assert(s.take(i) =~= s);
    } else {
        lemma_utf8_len_take(s, i + 1);
        let t = s.drop_last();
        assert(t.take(i) =~= s.take(i));
        if i < t.len() {
            assert(t.take(i + 1) =~= s.take(i + 1));
        }
        lemma_fit_len(t, max, i);
    }
}

/// How many leading characters of `s` fit in `max` bytes.
pub fn fitting(s: &[char], max: usize) -> (n: usize)
    requires
        max <= 1000000,
    ensures
        n == fit_len(s@, max as nat),
        n <= s@.len(),
{
    let mut i: usize = 0;
    let mut bytes: usize = 0;
    assert(s@.take(0) =~= Seq::empty());
    while i < s.len()
        invariant
            i <= s@.len(),
            bytes == utf8_len(s@.take(i as int)),
            bytes <= max <= 1000000,
        decreases s.len() - i,
    {
        let w: usize = char_width(s[i]);
        proof {
            lemma_utf8_len_take(s@, i as int);
        }
        if bytes + w > max {
            proof {
                lemma_fit_len(s@, max as nat, i as int);
            }
            return i;
        }
        bytes = bytes + w;
        i = i + 1;
    }
    proof {
        lemma_fit_len(s@, max as nat, i as int);
    }
    i
}

/// Cutting to a number of bytes keeps within it.
pub proof fn lemma_fit_len_bounds(s: Seq<char>, max: nat)
    ensures
        fit_len(s, max) <= s.len(),
        utf8_len(s.take(fit_len(s, max) as int)) <= max,
    decreases s.len(),
{
    if s.len() == 0 || utf8_len(s) <= max {
        assert(s.take(s.len() as int) =~= s);
    } else {
        let t = s.drop_last();
        lemma_fit_len_bounds(t, max);
        assert(t.take(fit_len(t, max) as int) =~= s.take(fit_len(s, max) as int));
    }
}

// ---- Lines ----------------------------------------------------------------------------

/// The predicate that holds of a line feed.
pub open spec fn newline() -> spec_fn(char) -> bool {
    |c: char| c == '\n'
}

/// A line without the carriage return that stood before its line feed.
pub open spec fn without_cr(line: Seq<char>) -> Seq<char> {
    if line.len() > 0 && line.last() == '\r' {
        line.drop_last()
    } else {
        line
    }
}

/// The lines of a text: what stands between line feeds, each without a carriage return
/// before its line feed, and nothing after the last line feed if the text ends there.
pub open spec fn lines_of(s: Seq<char>) -> Seq<Seq<char>> {
    let pieces = split_on(s, newline());
    let ended = Seq::new((pieces.len() - 1) as nat, |i: int| without_cr(pieces[i]));
    if pieces.last().len() == 0 {
        ended
    } else {
        ended.push(pieces.last())
    }
}

/// The lengths of all members, added up.
pub open spec fn total_len(v: Seq<Seq<char>>) -> nat
    decreases v.len(),
{
    if v.len() == 0 {
        0
    } else {
        total_len(v.drop_last()) + v.last().len()
    }
}

proof fn lemma_split_total(s: Seq<char>, p: spec_fn(char) -> bool)
    ensures
        split_on(s, p).len() >= 1,
        total_len(split_on(s, p)) + split_on(s, p).len() == s.len() + 1,
    decreases s.len(),
{
    reveal_with_fuel(total_len, 3);
    if s.len() == 0 {
        assert(split_on(s, p).drop_last() =~= Seq::empty());
    } else {
        lemma_split_total(s.drop_last(), p);
        let r = split_on(s.drop_last(), p);
        if p(s.last()) {
            assert(r.push(Seq::empty()).drop_last() =~= r);
        } else {
            let t = r.drop_last().push(r.last().push(s.last()));
            assert(t.drop_last() =~= r.drop_last());
        }
    }
}

proof fn lemma_total_len_le(a: Seq<Seq<char>>, b: Seq<Seq<char>>)
    requires
        a.len() <= b.len(),
        forall|i: int| 0 <= i < a.len() ==> (#[trigger] a[i]).len() <= b[i].len(),
    ensures
        total_len(a) <= total_len(b),
    decreases b.len(),
{
    if b.len() > 0 {
        if a.len() == b.len() {
            lemma_total_len_le(a.drop_last(), b.drop_last());
            let last = a[a.len() - 1];
            assert(last.len() <= b[a.len() - 1].len());
        } else {
            lemma_total_len_le(a, b.drop_last());
        }
    }
}

/// A part of a list is no longer than the whole.
pub proof fn lemma_total_len_take(v: Seq<Seq<char>>, i: int)
    requires
        0 <= i < v.len(),
    ensures
        total_len(v.take(i + 1)) == total_len(v.take(i)) + v[i].len(),
        total_len(v.take(i + 1)) <= total_len(v),
{
    assert(v.take(i + 1).drop_last() =~= v.take(i));
    lemma_total_len_le(v.take(i + 1), v);
}

/// The lines together are no longer than the text.
pub proof fn lemma_lines_total(s: Seq<char>)
    ensures
        total_len(lines_of(s)) <= s.len(),
{
    lemma_split_total(s, newline());
    lemma_total_len_le(lines_of(s), split_on(s, newline()));
}

/// The lines of `s`.
pub fn split_lines(s: &str) -> (r: Vec<String>)
    ensures
        strs(r@) == lines_of(s@),
        s@.len() <= usize::MAX,
{
    let v = to_chars(s);
    assert(v@.len() == v.len());
    let f = |c: char| -> (b: bool)
        ensures
            b == (c == '\n'),
        { c == '\n' };
    let pieces = split_chars(&v, f, Ghost(newline()));
    let ghost all = texts(pieces@);
    let last: usize = pieces.len() - 1;
    let mut r: Vec<String> = Vec::new();
    for i in 0..last
        invariant
            last + 1 == pieces@.len(),
            all == texts(pieces@),
            r@.len() == i,
            forall|j: int| 0 <= j < i ==> (#[trigger] r@[j])@ == without_cr(all[j]),
    {
        let line = pieces[i].as_slice();
        assert(all[i as int] == line@);
        let mut end: usize = line.len();
        if end > 0 && line[end - 1] == '\r' {
            end = end - 1;
        }
        let piece = slice_chars(line, 0, end);
        assert(piece@ =~= without_cr(all[i as int]));
        r.push(from_chars(&piece));
    }
    if pieces[last].len() > 0 {
        r.push(from_chars(pieces[last].as_slice()));
    }
    assert(strs(r@) =~= lines_of(s@));
    r
}

// ---- Decimal notation -----------------------------------------------------------------

pub open spec fn digit_char(d: int) -> char {
    if d == 0 {
        '0'
    } else if d == 1 {
        '1'
    } else if d == 2 {
        '2'
    } else if d == 3 {
        '3'
    } else if d == 4 {
        '4'
    } else if d == 5 {
        '5'
    } else if d == 6 {
        '6'
    } else if d == 7 {
        '7'
    } else if d == 8 {
        '8'
    } else {
        '9'
    }
}

pub fn digit(d: u64) -> (c: char)
    requires
        d < 10,
    ensures
        c == digit_char(d as int),
{
    if d == 0 {
        '0'
    } else if d == 1 {
        '1'
    } else if d == 2 {
        '2'
    } else if d == 3 {
        '3'
    } else if d == 4 {
        '4'
    } else if d == 5 {
        '5'
    } else if d == 6 {
        '6'
    } else if d == 7 {
        '7'
    } else if d == 8 {
        '8'
    } else {
        '9'
    }
}

/// `n` in decimal, without leading zeros.
pub open spec fn dec(n: nat) -> Seq<char>
    decreases n,
{
    if n < 10 {
        seq![digit_char(n as int)]
    } else {
        dec(n / 10).push(digit_char((n % 10) as int))
    }
}

/// `n` in decimal, with a minus sign when negative.
pub open spec fn dec_int(n: int) -> Seq<char> {
    if n < 0 {
        seq!['-'] + dec((-n) as nat)
    } else {
        dec(n as nat)
    }
}

pub fn dec_chars(n: u64) -> (r: Vec<char>)
    ensures
        r@ == dec(n as nat),
    decreases n,
{
    if n < 10 {
        let mut r: Vec<char> = Vec::new();
        r.push(digit(n));
        assert(r@ =~= dec(n as nat));
        r
    } else {
        let mut r = dec_chars(n / 10);
        r.push(digit(n % 10));
        r
    }
}

/// The magnitude of a signed number.
pub fn magnitude(n: i64) -> (m: u64)
    ensures
        n >= 0 ==> m == n,
        n < 0 ==> m == -n,
{
    if n >= 0 {
        n as u64
    } else {
        ((-(n + 1)) as u64) + 1
    }
}

pub fn dec_int_chars(n: i64) -> (r: Vec<char>)
    ensures
        r@ == dec_int(n as int),
{
    let d = dec_chars(magnitude(n));
    if n < 0 {
        let mut r: Vec<char> = Vec::new();
        r.push('-');
        append_chars(&mut r, &d);
        assert(r@ =~= seq!['-'] + dec((-n) as nat));
        r
    } else {
        d
    }
}

// ---- Order ----------------------------------------------------------------------------

/// The order of strings: by the first character that differs, a proper prefix first.
pub open spec fn str_lt(a: Seq<char>, b: Seq<char>) -> bool
    decreases a.len(),
{
    if b.len() == 0 {
        false
    } else if a.len() == 0 {
        true
    } else if a[0] != b[0] {
        a[0] < b[0]
    } else {
        str_lt(a.drop_first(), b.drop_first())
    }
}

pub fn less(a: &str, b: &str) -> (r: bool)
    ensures
        r == str_lt(a@, b@),
{
    let x = to_chars(a);
    let y = to_chars(b);
    let mut i: usize = 0;
    assert(x@.skip(0) =~= x@);
    assert(y@.skip(0) =~= y@);
    while i < x.len() && i < y.len()
        invariant
            i <= x@.len(),
            i <= y@.len(),
            x@ == a@,
            y@ == b@,
            str_lt(x@, y@) == str_lt(x@.skip(i as int), y@.skip(i as int)),
        decreases x.len() - i,
    {
        if x[i] != y[i] {
            return x[i] < y[i];
        }
        assert(x@.skip(i as int).drop_first() =~= x@.skip(i + 1));
        assert(y@.skip(i as int).drop_first() =~= y@.skip(i + 1));
        i = i + 1;
    }
    i < y.len()
}

pub proof fn lemma_str_lt_total(a: Seq<char>, b: Seq<char>)
    ensures
        str_lt(a, b) || str_lt(b, a) || a == b,
        !(str_lt(a, b) && str_lt(b, a)),
        a == b ==> !str_lt(a, b),
    decreases a.len(),
{
    if a.len() > 0 && b.len() > 0 {
        if a[0] == b[0] {
            lemma_str_lt_total(a.drop_first(), b.drop_first());
            if a.drop_first() == b.drop_first() {
                assert(a =~= seq![a[0]] + a.drop_first());
                assert(b =~= seq![b[0]] + b.drop_first());
            }
        } else {
            assert(a[0] < b[0] || b[0] < a[0]);
        }
    } else if a.len() == 0 && b.len() == 0 {
        assert(a =~= b);
    }
}

pub proof fn lemma_str_lt_trans(a: Seq<char>, b: Seq<char>, c: Seq<char>)
    requires
        str_lt(a, b),
        str_lt(b, c),
    ensures
        str_lt(a, c),
    decreases a.len(),
{
    if a.len() > 0 && a[0] == b[0] && b[0] == c[0] {
        lemma_str_lt_trans(a.drop_first(), b.drop_first(), c.drop_first());
    }
}

} // verus!

//! What holds of texts, whatever they are: how they split, trim and read.
use vstd::prelude::*;

use crate::text::{
    ascii_alnum, ascii_lower, dec, dec_int, digit_char, fit_len, has_sub, joined,
    lemma_fit_len_bounds, lemma_split_pieces, lemma_split_single, lemma_words_plain, lines_of,
    lower_char, newline, nonempty, occurs_at, opt_ref, opt_str, split_on, str_lt, strs,
    trim_end_by, trim_start_by, trimmed, utf8_len, utf8_width, white_space, without_cr, words, ws,
};

verus! {

// ---- Characters ----------------------------------------------------------------------------

/// Among the ASCII characters the space and those from the tab to the carriage return are
/// white space, and no letter, digit or punctuation is. The space that does not break, the
/// ideographic space and the separators of lines and paragraphs are white space too.
pub proof fn law_white_space(c: char)
    ensures
        c <= '\u{7f}' ==> (white_space(c) <==> c == ' ' || c == '\t' || c == '\n' || c == '\u{b}'
            || c == '\u{c}' || c == '\r'),
        c == '\u{85}' || c == '\u{a0}' || c == '\u{1680}' || c == '\u{2028}' || c == '\u{2029}' || c
            == '\u{202f}' || c == '\u{205f}' || c == '\u{3000}' ==> white_space(c),
        '\u{2000}' <= c && c <= '\u{200a}' ==> white_space(c),
        '\u{3001}' <= c ==> !white_space(c),
        '\u{7f}' < c && white_space(c) ==> c == '\u{85}' || c == '\u{a0}' || c == '\u{1680}' || (
        '\u{2000}' <= c && c <= '\u{200a}') || c == '\u{2028}' || c == '\u{2029}' || c
            == '\u{202f}' || c == '\u{205f}' || c == '\u{3000}',
{
}

/// Lower case changes the capital letters of ASCII alone, each into the letter 32 places
/// on; in lower case nothing is left to change.
pub proof fn law_lower_case(c: char)
    ensures
        'A' <= c && c <= 'Z' ==> lower_char(c) as u32 == c as u32 + 32 && 'a' <= lower_char(c)
            && lower_char(c) <= 'z',
        c < 'A' || 'Z' < c ==> lower_char(c) == c,
        lower_char(lower_char(c)) == lower_char(c),
{
}

/// Lower case keeps the length of a text and goes character by character.
pub proof fn law_lower_case_is_per_character(a: Seq<char>, b: Seq<char>)
    ensures
        ascii_lower(a + b) == ascii_lower(a) + ascii_lower(b),
        ascii_lower(a).len() == a.len(),
        ascii_lower(ascii_lower(a)) == ascii_lower(a),
        a.len() == 1 ==> ascii_lower(a) == seq![lower_char(a[0])],
{
    assert(ascii_lower(a + b) =~= ascii_lower(a) + ascii_lower(b));
    assert forall|i: int| 0 <= i < a.len() implies ascii_lower(ascii_lower(a))[i] == ascii_lower(
        a,
    )[i] by {
        law_lower_case(a[i]);
    }
    assert(ascii_lower(ascii_lower(a)) =~= ascii_lower(a));
    if a.len() == 1 {
        assert(ascii_lower(a) =~= seq![lower_char(a[0])]);
    }
}

// ---- Splitting -----------------------------------------------------------------------------

/// Splitting at a separator splits what stands on either side of it.
pub proof fn law_a_separator_parts_a_text(
    a: Seq<char>,
    sep: char,
    b: Seq<char>,
    p: spec_fn(char) -> bool,
)
    requires
        p(sep),
    ensures
        split_on(a.push(sep) + b, p) == split_on(a, p) + split_on(b, p),
    decreases b.len(),
{
    let full = a.push(sep) + b;
    lemma_split_pieces(a, p);
    if b.len() == 0 {
        assert(full =~= a.push(sep));
        assert(full.drop_last() =~= a);
        assert(split_on(b, p) =~= seq![Seq::<char>::empty()]);
        assert(split_on(full, p) =~= split_on(a, p) + split_on(b, p));
    } else {
        let init = b.drop_last();
        law_a_separator_parts_a_text(a, sep, init, p);
        lemma_split_pieces(init, p);
        assert(full.drop_last() =~= a.push(sep) + init);
        assert(full.last() == b.last());
        let r = split_on(a, p) + split_on(init, p);
        assert(r.last() == split_on(init, p).last());
        assert(r.drop_last() =~= split_on(a, p) + split_on(init, p).drop_last());
        assert(split_on(full, p) =~= split_on(a, p) + split_on(b, p));
    }
}

/// A text without separators is not split.
pub proof fn law_no_separator_no_split(a: Seq<char>, p: spec_fn(char) -> bool)
    requires
        forall|i: int| 0 <= i < a.len() ==> !p(#[trigger] a[i]),
    ensures
        split_on(a, p) == seq![a],
{
    lemma_split_single(a, p);
}

pub proof fn lemma_nonempty_concat(a: Seq<Seq<char>>, b: Seq<Seq<char>>)
    ensures
        nonempty(a + b) == nonempty(a) + nonempty(b),
    decreases b.len(),
{
    if b.len() == 0 {
        assert(a + b =~= a);
        assert(nonempty(a) + nonempty(b) =~= nonempty(a));
    } else {
        lemma_nonempty_concat(a, b.drop_last());
        assert((a + b).drop_last() =~= a + b.drop_last());
        assert((a + b).last() == b.last());
        assert(nonempty(a + b) =~= nonempty(a) + nonempty(b));
    }
}

/// The words of a text: white space parts words, and nothing else does. The words on either
/// side of white space are the words of the whole, and a text without white space is one
/// word, or none where it is empty.
pub proof fn law_words_are_parted_by_white_space(a: Seq<char>, sep: char, b: Seq<char>)
    requires
        white_space(sep),
    ensures
        words(a.push(sep) + b) == words(a) + words(b),
        (forall|i: int| 0 <= i < a.len() ==> !white_space(#[trigger] a[i])) ==> words(a)
            == if a.len() == 0 {
            Seq::<Seq<char>>::empty()
        } else {
            seq![a]
        },
{
    law_a_separator_parts_a_text(a, sep, b, ws());
    lemma_nonempty_concat(split_on(a, ws()), split_on(b, ws()));
    if forall|i: int| 0 <= i < a.len() ==> !white_space(#[trigger] a[i]) {
        assert forall|i: int| 0 <= i < a.len() implies !ws()(#[trigger] a[i]) by {}
        lemma_split_single(a, ws());
        assert(seq![a].drop_last() =~= Seq::<Seq<char>>::empty());
        assert(nonempty(Seq::<Seq<char>>::empty()) =~= Seq::empty());
        assert(words(a) =~= if a.len() == 0 {
            Seq::<Seq<char>>::empty()
        } else {
            seq![a]
        });
    }
}

/// A word has no white space in it and is not empty.
pub proof fn law_words_are_solid(s: Seq<char>, i: int, j: int)
    requires
        0 <= i < words(s).len(),
    ensures
        words(s)[i].len() > 0,
        0 <= j < words(s)[i].len() ==> !white_space(words(s)[i][j]),
{
    lemma_words_plain(s);
}

// ---- Lines ---------------------------------------------------------------------------------

/// The lines of a text: the first line ends at the first line feed, a carriage return
/// before it is dropped, and the lines after it are those of the rest. A text without a
/// line feed is one line, or none where it is empty.
pub proof fn law_lines_end_at_line_feeds(first: Seq<char>, rest: Seq<char>)
    requires
        forall|i: int| 0 <= i < first.len() ==> #[trigger] first[i] != '\n',
    ensures
        lines_of(first.push('\n') + rest) == seq![
            if first.len() > 0 && first.last() == '\r' {
                first.drop_last()
            } else {
                first
            },
        ] + lines_of(rest),
        lines_of(first) == if first.len() == 0 {
            Seq::<Seq<char>>::empty()
        } else {
            seq![first]
        },
{
    let p = newline();
    assert forall|i: int| 0 <= i < first.len() implies !p(#[trigger] first[i]) by {}
    lemma_split_single(first, p);
    law_a_separator_parts_a_text(first, '\n', rest, p);
    lemma_split_pieces(rest, p);
    let pieces = split_on(first.push('\n') + rest, p);
    let tail = split_on(rest, p);
    assert(pieces == seq![first] + tail);
    assert(pieces.last() == tail.last());
    let ended = Seq::new((pieces.len() - 1) as nat, |i: int| without_cr(pieces[i]));
    let ended_tail = Seq::new((tail.len() - 1) as nat, |i: int| without_cr(tail[i]));
    assert(ended =~= seq![without_cr(first)] + ended_tail);
    assert(lines_of(first.push('\n') + rest) =~= seq![without_cr(first)] + lines_of(rest));
    assert(lines_of(first) =~= if first.len() == 0 {
        Seq::<Seq<char>>::empty()
    } else {
        seq![first]
    });
}

// ---- Trimming ------------------------------------------------------------------------------

proof fn lemma_trim_end(s: Seq<char>, p: spec_fn(char) -> bool) -> (n: int)
    ensures
        0 <= n <= s.len(),
        trim_end_by(s, p) == s.take(n),
        forall|i: int| n <= i < s.len() ==> p(#[trigger] s[i]),
        n > 0 ==> !p(s[n - 1]),
    decreases s.len(),
{
    if s.len() > 0 && p(s.last()) {
        let n = lemma_trim_end(s.drop_last(), p);
        assert(s.drop_last().take(n) =~= s.take(n));
        assert forall|i: int| n <= i < s.len() implies p(#[trigger] s[i]) by {
            if i < s.len() - 1 {
                assert(s.drop_last()[i] == s[i]);
            }
        }
        if n > 0 {
            assert(s.drop_last()[n - 1] == s[n - 1]);
        }
        n
    } else {
        assert(s.take(s.len() as int) =~= s);
        s.len() as int
    }
}

proof fn lemma_trim_start(s: Seq<char>, p: spec_fn(char) -> bool) -> (n: int)
    ensures
        0 <= n <= s.len(),
        trim_start_by(s, p) == s.skip(n),
        forall|i: int| 0 <= i < n ==> p(#[trigger] s[i]),
        n < s.len() ==> !p(s[n]),
    decreases s.len(),
{
    if s.len() > 0 && p(s[0]) {
        let rest = s.drop_first();
        let n = lemma_trim_start(rest, p);
        assert(rest.skip(n) =~= s.skip(n + 1));
        assert forall|i: int| 0 <= i < n + 1 implies p(#[trigger] s[i]) by {
            if i > 0 {
                assert(rest[i - 1] == s[i]);
            }
        }
        if n + 1 < s.len() {
            assert(rest[n] == s[n + 1]);
        }
        n + 1
    } else {
        assert(s.skip(0) =~= s);
        0
    }
}

/// Some stretch at the end satisfies `p`, the character before it does not, and the rest is
/// what is left.
pub open spec fn cut_at_the_end(
    s: Seq<char>,
    n: int,
    left: Seq<char>,
    p: spec_fn(char) -> bool,
) -> bool {
    &&& 0 <= n <= s.len()
    &&& left == s.take(n)
    &&& forall|i: int| n <= i < s.len() ==> p(#[trigger] s[i])
    &&& n > 0 ==> !p(s[n - 1])
}

pub open spec fn cut_at_the_start(
    s: Seq<char>,
    n: int,
    left: Seq<char>,
    p: spec_fn(char) -> bool,
) -> bool {
    &&& 0 <= n <= s.len()
    &&& left == s.skip(n)
    &&& forall|i: int| 0 <= i < n ==> p(#[trigger] s[i])
    &&& n < s.len() ==> !p(s[n])
}

/// Trimming takes off the longest stretch at an end, and nothing more.
pub proof fn law_trimming_takes_off_the_longest_stretch(s: Seq<char>, p: spec_fn(char) -> bool)
    ensures
        exists|n: int| cut_at_the_end(s, n, trim_end_by(s, p), p),
        exists|n: int| cut_at_the_start(s, n, trim_start_by(s, p), p),
{
    let n = lemma_trim_end(s, p);
    assert(cut_at_the_end(s, n, trim_end_by(s, p), p));
    let m = lemma_trim_start(s, p);
    assert(cut_at_the_start(s, m, trim_start_by(s, p), p));
}

/// `t` is what stands between white space in `s`.
pub open spec fn core_of(s: Seq<char>, t: Seq<char>, i: int) -> bool {
    &&& 0 <= i && i + t.len() <= s.len()
    &&& t == s.subrange(i, i + t.len())
    &&& forall|k: int| 0 <= k < i ==> white_space(#[trigger] s[k])
    &&& forall|k: int| i + t.len() <= k < s.len() ==> white_space(#[trigger] s[k])
}

/// A trimmed text is what stands between the white space at either end: nothing but white
/// space was taken off, and what is left begins and ends without any.
pub proof fn law_trimming_leaves_the_core(s: Seq<char>)
    ensures
        exists|i: int| core_of(s, trimmed(s), i),
        trimmed(s).len() > 0 ==> !white_space(trimmed(s)[0]) && !white_space(trimmed(s).last()),
        trimmed(s).len() == 0 <==> forall|k: int| 0 <= k < s.len() ==> white_space(#[trigger] s[k]),
{
    let a = lemma_trim_start(s, ws());
    let u = trim_start_by(s, ws());
    let b = lemma_trim_end(u, ws());
    let t = trimmed(s);
    assert(t =~= s.subrange(a, a + t.len()));
    assert forall|k: int| 0 <= k < a implies white_space(#[trigger] s[k]) by {
        assert(ws()(s[k]));
    }
    assert forall|k: int| a + t.len() <= k < s.len() implies white_space(#[trigger] s[k]) by {
        assert(u[k - a] == s[k]);
        assert(ws()(u[k - a]));
    }
    assert(core_of(s, t, a));
    if t.len() > 0 {
        assert(t[0] == s[a]);
        assert(t.last() == u[b - 1]);
        assert(!ws()(s[a]));
        assert(!ws()(u[b - 1]));
    }
    if forall|k: int| 0 <= k < s.len() ==> white_space(#[trigger] s[k]) {
        if t.len() > 0 {
            assert(white_space(s[a]));
        }
    }
}

// ---- Decimal -------------------------------------------------------------------------------

/// The number that digits read as.
pub open spec fn digits_value(d: Seq<char>) -> int
    decreases d.len(),
{
    if d.len() == 0 {
        0
    } else {
        10 * digits_value(d.drop_last()) + (d.last() as u32 - '0' as u32)
    }
}

/// A number in decimal reads as the number, is made of digits, and has no zero in front
/// unless it is zero.
pub proof fn law_decimal_reads_back(n: nat)
    ensures
        digits_value(dec(n)) == n,
        dec(n).len() > 0,
        forall|i: int| 0 <= i < dec(n).len() ==> '0' <= #[trigger] dec(n)[i] && dec(n)[i] <= '9',
        n > 0 ==> dec(n)[0] != '0',
    decreases n,
{
    if n < 10 {
        assert(dec(n).drop_last() =~= Seq::<char>::empty());
        assert(digits_value(dec(n).drop_last()) == 0);
        assert(dec(n).last() == digit_char(n as int));
        assert(digit_char(n as int) as u32 == '0' as u32 + n);
    } else {
        law_decimal_reads_back(n / 10);
        let d = dec(n / 10);
        assert(dec(n).drop_last() =~= d);
        assert(digit_char((n % 10) as int) as u32 == '0' as u32 + n % 10);
        assert forall|i: int| 0 <= i < dec(n).len() implies '0' <= #[trigger] dec(n)[i] && dec(n)[i]
            <= '9' by {
            if i < d.len() {
                assert(dec(n)[i] == d[i]);
            }
        }
        assert(dec(n)[0] == d[0]);
    }
}

/// A negative number has a minus sign in front of its magnitude.
pub proof fn law_a_minus_sign_is_for_negatives(n: int)
    ensures
        n >= 0 ==> digits_value(dec_int(n)) == n,
        n < 0 ==> dec_int(n)[0] == '-' && digits_value(dec_int(n).drop_first()) == -n,
{
    if n < 0 {
        law_decimal_reads_back((-n) as nat);
        assert(dec_int(n).drop_first() =~= dec((-n) as nat));
    } else {
        law_decimal_reads_back(n as nat);
    }
}

// ---- Order ---------------------------------------------------------------------------------

/// Texts are ordered by the first character in which they differ, and a beginning comes
/// before what it begins.
pub proof fn law_texts_are_ordered_by_the_first_difference(
    common: Seq<char>,
    a: Seq<char>,
    b: Seq<char>,
)
    ensures
        a.len() > 0 && b.len() > 0 && a[0] != b[0] ==> (str_lt(common + a, common + b) <==> a[0]
            < b[0]),
        a.len() == 0 ==> (str_lt(common + a, common + b) <==> b.len() > 0),
    decreases common.len(),
{
    if common.len() == 0 {
        assert(common + a =~= a);
        assert(common + b =~= b);
    } else {
        law_texts_are_ordered_by_the_first_difference(common.drop_first(), a, b);
        assert((common + a).drop_first() =~= common.drop_first() + a);
        assert((common + b).drop_first() =~= common.drop_first() + b);
    }
}

// ---- Joining -------------------------------------------------------------------------------

/// Joining puts the separator between neighbours and nowhere else.
pub proof fn law_joining_puts_the_separator_between(
    v: Seq<Seq<char>>,
    w: Seq<char>,
    sep: Seq<char>,
)
    ensures
        joined(Seq::<Seq<char>>::empty(), sep) == Seq::<char>::empty(),
        joined(seq![w], sep) == w,
        v.len() > 0 ==> joined(v.push(w), sep) == joined(v, sep) + sep + w,
{
    assert(v.push(w).drop_last() =~= v);
}

// ---- Bytes ---------------------------------------------------------------------------------

proof fn lemma_utf8_len_front(s: Seq<char>)
    requires
        s.len() > 0,
    ensures
        utf8_len(s) == utf8_width(s[0]) + utf8_len(s.drop_first()),
    decreases s.len(),
{
    if s.len() == 1 {
        assert(s.drop_last() =~= Seq::<char>::empty());
        assert(s.drop_first() =~= Seq::<char>::empty());
        assert(utf8_len(s.drop_last()) == 0);
    } else {
        lemma_utf8_len_front(s.drop_last());
        assert(s.drop_last().drop_first() =~= s.drop_first().drop_last());
        assert(s.drop_first().last() == s.last());
    }
}

proof fn lemma_scalar_width(c: char)
    ensures
        vstd::utf8::encode_scalar(c as u32).len() == utf8_width(c),
{
    vstd::utf8::char_is_scalar(c);
}

/// The length of a text in bytes is the length of its UTF-8 encoding.
pub proof fn law_byte_lengths_are_those_of_utf8(s: Seq<char>)
    ensures
        utf8_len(s) == vstd::utf8::encode_utf8(s).len(),
    decreases s.len(),
{
    if s.len() > 0 {
        lemma_utf8_len_front(s);
        law_byte_lengths_are_those_of_utf8(s.drop_first());
        lemma_scalar_width(s[0]);
    }
}

/// As many characters are kept as fit: those that are kept take no more than `max` bytes,
/// and one more would.
pub proof fn law_as_many_characters_are_kept_as_fit(s: Seq<char>, max: nat)
    ensures
        ({
            let n = fit_len(s, max) as int;
            &&& 0 <= n <= s.len()
            &&& vstd::utf8::encode_utf8(s.take(n)).len() <= max
            &&& n < s.len() ==> vstd::utf8::encode_utf8(s.take(n + 1)).len() > max
        }),
    decreases s.len(),
{
    lemma_fit_len_bounds(s, max);
    let n = fit_len(s, max) as int;
    law_byte_lengths_are_those_of_utf8(s.take(n));
    if n < s.len() {
        law_byte_lengths_are_those_of_utf8(s.take(n + 1));
        let t = s.drop_last();
        law_as_many_characters_are_kept_as_fit(t, max);
        if n + 1 <= t.len() {
            assert(t.take(n + 1) =~= s.take(n + 1));
        } else {
            assert(s.take(n + 1) =~= s);
        }
    }
}

// ---- Parts of a text -----------------------------------------------------------------------

/// A text holds another exactly where it is something, the other, and something.
pub proof fn law_a_text_holds_its_parts(s: Seq<char>, pat: Seq<char>)
    ensures
        has_sub(s, pat) <==> exists|a: Seq<char>, b: Seq<char>| s == #[trigger] (a + pat + b),
{
    if has_sub(s, pat) {
        let i = choose|i: int| occurs_at(s, pat, i);
        let a = s.take(i);
        let b = s.skip(i + pat.len());
        assert forall|k: int| 0 <= k < pat.len() implies s[i + k] == pat[k] by {
            assert(s.subrange(i, i + pat.len())[k] == pat[k]);
        }
        assert(s =~= a + pat + b);
    }
    if exists|a: Seq<char>, b: Seq<char>| s == #[trigger] (a + pat + b) {
        let (a, b) = choose|a: Seq<char>, b: Seq<char>| s == #[trigger] (a + pat + b);
        let i = a.len() as int;
        assert(s.subrange(i, i + pat.len()) =~= pat);
        assert(occurs_at(s, pat, i));
    }
}

/// The ASCII letters of both cases and the digits, and nothing else.
pub proof fn law_ascii_letters_and_digits(c: char)
    ensures
        ascii_alnum(c) <==> ('0' <= c && c <= '9') || ('a' <= lower_char(c) && lower_char(c)
            <= 'z'),
{
}

/// Lists of texts and optional texts are seen as they are.
pub proof fn law_texts_are_seen_as_they_are(v: Seq<String>, o: Option<String>, r: Option<&str>, i: int)
    ensures
        strs(v).len() == v.len(),
        0 <= i < v.len() ==> strs(v)[i] == v[i]@,
        opt_str(o) is Some <==> o is Some,
        o is Some ==> opt_str(o)->0 == o->0@,
        opt_ref(r) is Some <==> r is Some,
        r is Some ==> opt_ref(r)->0 == r->0@,
{
}

} // verus!

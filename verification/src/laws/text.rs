//! Trimming, lines, words, splitting and joining.

use vstd::prelude::*;

verus! {

use crate::text::{
    after_word, drop_leading, find_from, first_word, is_white, joined, lemma_find_from, lemma_until_at,
    lemma_word_len_at, lines, same_ignoring_case, split, split_once, starts_with, strip_prefix, trim, trim_end,
    trim_start, upper_all,
};

/// Whether a text is whitespace from end to end.
pub open spec fn all_white(s: Seq<char>) -> bool {
    forall|i: int| 0 <= i < s.len() ==> is_white(#[trigger] s[i])
}

/// Whether a text neither begins nor ends with whitespace.
pub open spec fn solid(s: Seq<char>) -> bool {
    s.len() > 0 ==> !is_white(s[0]) && !is_white(s.last())
}

/// Whether a text can be a line: it holds no line break, nor the first half of one
/// at its end.
pub open spec fn is_line(s: Seq<char>) -> bool {
    !s.contains('\n') && (s.len() > 0 ==> s.last() != '\r')
}

/// Whether `p` occurs in `s`.
pub open spec fn occurs(s: Seq<char>, p: Seq<char>) -> bool {
    exists|i: int| 0 <= i && i + p.len() <= s.len() && #[trigger] s.subrange(i, i + p.len()) == p
}

/// Blanks, tabs and line breaks are whitespace, and so are the other characters that
/// Unicode counts as such; letters, digits and marks are not.
pub proof fn law_whitespace(c: char)
    ensures
        is_white(c) <==> (c == ' ' || c == '\t' || c == '\n' || c == '\r' || c == '\u{b}' || c == '\u{c}' || c
            == '\u{85}' || c == '\u{a0}' || c == '\u{1680}' || '\u{2000}' <= c <= '\u{200a}' || c == '\u{2028}' || c
            == '\u{2029}' || c == '\u{202f}' || c == '\u{205f}' || c == '\u{3000}'),
{
}

proof fn lemma_trim_start_of(a: Seq<char>, x: Seq<char>)
    requires
        all_white(a),
        x.len() > 0 ==> !is_white(x[0]),
    ensures
        trim_start(a + x) == x,
    decreases a.len(),
{
    if a.len() == 0 {
        assert(a + x =~= x);
    } else {
        let rest = a.drop_first();
        assert((a + x)[0] == a[0]);
        assert forall|i: int| 0 <= i < rest.len() implies is_white(#[trigger] rest[i]) by {
            assert(rest[i] == a[i + 1]);
        }
        lemma_trim_start_of(rest, x);
        assert((a + x).drop_first() =~= rest + x);
    }
}

proof fn lemma_trim_end_of(x: Seq<char>, b: Seq<char>)
    requires
        all_white(b),
        x.len() > 0 ==> !is_white(x.last()),
    ensures
        trim_end(x + b) == x,
    decreases b.len(),
{
    if b.len() == 0 {
        assert(x + b =~= x);
    } else {
        let rest = b.drop_last();
        assert((x + b).last() == b[b.len() - 1]);
        assert forall|i: int| 0 <= i < rest.len() implies is_white(#[trigger] rest[i]) by {
            assert(rest[i] == b[i]);
        }
        lemma_trim_end_of(x, rest);
        assert((x + b).drop_last() =~= x + rest);
    }
}

/// Trimming takes away the whitespace around a text and nothing of the text.
pub proof fn law_trim(a: Seq<char>, x: Seq<char>, b: Seq<char>)
    requires
        all_white(a),
        all_white(b),
        solid(x),
    ensures
        trim(a + x + b) == x,
        x.len() > 0 ==> trim_start(a + x + b) == x + b,
        x.len() > 0 ==> trim_end(a + x + b) == a + x,
{
    if x.len() > 0 {
        assert(a + x + b =~= a + (x + b));
        lemma_trim_start_of(a, x + b);
        lemma_trim_end_of(x, b);
        assert((a + x).last() == x.last());
        lemma_trim_end_of(a + x, b);
    } else {
        let s = a + x + b;
        assert forall|i: int| 0 <= i < s.len() implies is_white(#[trigger] s[i]) by {
            if i < a.len() {
                assert(s[i] == a[i]);
            } else {
                assert(s[i] == b[i - a.len()]);
            }
        }
        lemma_trim_start_of(s, Seq::empty());
        assert(s + Seq::<char>::empty() =~= s);
        assert(trim(s) =~= x);
    }
}

/// The first line of a text ends at the first line break, which may be `\r\n`; the
/// last one may end with the text.
pub proof fn law_lines(a: Seq<char>, b: Seq<char>)
    requires
        !a.contains('\n'),
    ensures
        a.len() > 0 ==> lines(a) == seq![a],
        a.len() == 0 ==> lines(a) == Seq::<Seq<char>>::empty(),
        a.len() > 0 && a.last() == '\r' ==> lines(a + seq!['\n'] + b) == seq![a.drop_last()] + lines(b),
        a.len() == 0 || a.last() != '\r' ==> lines(a + seq!['\n'] + b) == seq![a] + lines(b),
{
    let x = a + seq!['\n'] + b;
    let n = a.len() as int;
    assert forall|i: int| 0 <= i < n implies a[i] != '\n' && x[i] != '\n' by {
        assert(a.contains(a[i]));
        assert(x[i] == a[i]);
    }
    lemma_until_at(a, '\n', n);
    lemma_until_at(x, '\n', n);
    assert(x.take(n) =~= a);
    assert(x.skip(n + 1) =~= b);
}

/// A word ends at the whitespace after it, and what is before it does not count.
pub proof fn law_words(before: Seq<char>, word: Seq<char>, rest: Seq<char>)
    requires
        all_white(before),
        word.len() > 0,
        forall|i: int| 0 <= i < word.len() ==> !is_white(#[trigger] word[i]),
        rest.len() > 0 ==> is_white(rest[0]),
    ensures
        first_word(before + word + rest) == word,
        after_word(before + word + rest) == rest,
{
    let t = word + rest;
    assert(before + word + rest =~= before + t);
    assert(t[0] == word[0]);
    lemma_trim_start_of(before, t);
    assert forall|i: int| 0 <= i < word.len() implies !is_white(#[trigger] t[i]) by {
        assert(t[i] == word[i]);
    }
    if rest.len() > 0 {
        assert(t[word.len() as int] == rest[0]);
    }
    lemma_word_len_at(t, word.len() as int);
    assert(t.take(word.len() as int) =~= word);
    assert(t.skip(word.len() as int) =~= rest);
}

/// A text is split at the first mark: nothing of either side is lost, whatever marks
/// the second side holds.
pub proof fn law_split_once(a: Seq<char>, c: char, b: Seq<char>)
    requires
        !a.contains(c),
    ensures
        split_once(a + seq![c] + b, c) == Some((a, b)),
        split_once(a, c) is None,
{
    let x = a + seq![c] + b;
    let n = a.len() as int;
    assert forall|i: int| 0 <= i < n implies a[i] != c && x[i] != c by {
        assert(a.contains(a[i]));
        assert(x[i] == a[i]);
    }
    lemma_until_at(a, c, n);
    lemma_until_at(x, c, n);
    assert(x.take(n) =~= a);
    assert(x.skip(n + 1) =~= b);
}

/// A text is split at every mark.
pub proof fn law_split(a: Seq<char>, c: char, b: Seq<char>)
    requires
        !a.contains(c),
    ensures
        split(a, c) == seq![a],
        split(a + seq![c] + b, c) == seq![a] + split(b, c),
{
    law_split_once(a, c, b);
}

/// Joining puts the mark between neighbours and nowhere else.
pub proof fn law_joined(a: Seq<Seq<char>>, b: Seq<Seq<char>>, sep: Seq<char>)
    ensures
        joined(Seq::<Seq<char>>::empty(), sep) == Seq::<char>::empty(),
        a.len() == 1 ==> joined(a, sep) == a[0],
        a.len() > 0 && b.len() > 0 ==> joined(a + b, sep) == joined(a, sep) + sep + joined(b, sep),
    decreases b.len(),
{
    if a.len() > 0 && b.len() > 0 {
        let front = b.drop_last();
        assert((a + b).drop_last() =~= a + front);
        assert((a + b).last() == b.last());
        if front.len() > 0 {
            law_joined(a, front, sep);
            assert(joined(a, sep) + sep + joined(front, sep) + sep + b.last() =~= joined(a, sep) + sep + (joined(
                front,
                sep,
            ) + sep + b.last()));
        } else {
            assert(a + front =~= a);
            assert(b[0] == b.last());
        }
    }
}

/// Texts are the same without regard to case where they agree character by character,
/// ASCII letters of either case counting as one.
pub proof fn law_case(a: Seq<char>, b: Seq<char>)
    ensures
        upper_all(a).len() == a.len(),
        forall|i: int|
            0 <= i < a.len() ==> if 'a' <= a[i] <= 'z' {
                (#[trigger] upper_all(a)[i]) as int == a[i] as int - 32
            } else {
                upper_all(a)[i] == a[i]
            },
        same_ignoring_case(a, b) <==> upper_all(a) == upper_all(b),
{
}

/// A text with a prefix is the prefix and the rest.
pub proof fn law_prefix(s: Seq<char>, p: Seq<char>, x: Seq<char>)
    ensures
        starts_with(p + x, p),
        strip_prefix(p + x, p) == Some(x),
        starts_with(s, p) <==> s == p + s.skip(p.len() as int) && p.len() <= s.len(),
        starts_with(s, p) <==> strip_prefix(s, p) is Some,
{
    assert((p + x).subrange(0, p.len() as int) =~= p);
    assert((p + x).skip(p.len() as int) =~= x);
    if starts_with(s, p) {
        assert(s.subrange(0, p.len() as int) + s.skip(p.len() as int) =~= s);
    }
    if s == p + s.skip(p.len() as int) && p.len() <= s.len() {
        assert(s.subrange(0, p.len() as int) =~= p);
    }
}

/// All leading characters of a set go, and no others.
pub proof fn law_drop_leading(a: Seq<char>, x: Seq<char>, set: Seq<char>)
    requires
        forall|i: int| 0 <= i < a.len() ==> set.contains(#[trigger] a[i]),
        x.len() > 0 ==> !set.contains(x[0]),
    ensures
        drop_leading(a + x, set) == x,
    decreases a.len(),
{
    if a.len() == 0 {
        assert(a + x =~= x);
    } else {
        let rest = a.drop_first();
        assert((a + x)[0] == a[0]);
        assert forall|i: int| 0 <= i < rest.len() implies set.contains(#[trigger] rest[i]) by {
            assert(rest[i] == a[i + 1]);
        }
        law_drop_leading(rest, x, set);
        assert((a + x).drop_first() =~= rest + x);
    }
}

/// A search finds the first place, where there is one.
pub proof fn law_search(s: Seq<char>, p: Seq<char>)
    ensures
        find_from(s, p, 0) is Some <==> occurs(s, p),
        find_from(s, p, 0) matches Some(k) ==> 0 <= k && k + p.len() <= s.len() && s.subrange(k, k + p.len()) == p
            && forall|j: int| 0 <= j < k ==> #[trigger] s.subrange(j, j + p.len()) != p,
{
    lemma_find_from(s, p, 0);
    if let Some(k) = find_from(s, p, 0) {
        assert(s.subrange(k, k + p.len()) == p);
    }
}

/// Lines with a line break after each.
pub open spec fn with_breaks(ls: Seq<Seq<char>>) -> Seq<char>
    decreases ls.len(),
{
    if ls.len() == 0 {
        seq![]
    } else {
        ls[0] + seq!['\n'] + with_breaks(ls.drop_first())
    }
}

/// Whether texts can be lines.
pub open spec fn are_lines(ls: Seq<Seq<char>>) -> bool {
    forall|i: int| 0 <= i < ls.len() ==> is_line(#[trigger] ls[i])
}

/// Lines that are written out are read back.
pub proof fn law_lines_read_back(ls: Seq<Seq<char>>)
    requires
        are_lines(ls),
    ensures
        lines(with_breaks(ls)) == ls,
    decreases ls.len(),
{
    if ls.len() == 0 {
        law_lines(Seq::empty(), Seq::empty());
    } else {
        let rest = ls.drop_first();
        assert forall|i: int| 0 <= i < rest.len() implies is_line(#[trigger] rest[i]) by {
            assert(rest[i] == ls[i + 1]);
        }
        assert(is_line(ls[0]));
        law_lines_read_back(rest);
        law_lines(ls[0], with_breaks(rest));
        assert(seq![ls[0]] + rest =~= ls);
    }
}

/// Lines that are joined are read back, where the last one is not empty.
pub proof fn law_joined_lines_read_back(ls: Seq<Seq<char>>)
    requires
        are_lines(ls),
        ls.len() > 0 ==> ls.last().len() > 0,
    ensures
        lines(joined(ls, seq!['\n'])) == ls,
    decreases ls.len(),
{
    if ls.len() == 0 {
        law_lines(Seq::empty(), Seq::empty());
    } else if ls.len() == 1 {
        assert(is_line(ls[0]));
        law_lines(ls[0], Seq::empty());
        assert(seq![ls[0]] =~= ls);
    } else {
        let rest = ls.drop_first();
        assert forall|i: int| 0 <= i < rest.len() implies is_line(#[trigger] rest[i]) by {
            assert(rest[i] == ls[i + 1]);
        }
        assert(is_line(ls[0]));
        law_joined_lines_read_back(rest);
        law_joined(seq![ls[0]], rest, seq!['\n']);
        assert(seq![ls[0]] + rest =~= ls);
        law_lines(ls[0], joined(rest, seq!['\n']));
    }
}

/// Text that follows whitespace: trimming gives its beginning.
pub proof fn lemma_indented(indent: Seq<char>, t: Seq<char>)
    requires
        all_white(indent),
        t.len() > 0,
        !is_white(t[0]),
    ensures
        trim_start(indent + t) == t,
        trim(indent + t).len() > 0,
        trim(indent + t) == t.take(trim(indent + t).len() as int),
        trim(indent + t).len() <= t.len(),
        forall|n: int| 0 < n <= t.len() && !is_white(#[trigger] t[n - 1]) ==> n <= trim(indent + t).len(),
{
    lemma_trim_start_of(indent, t);
    lemma_trim_end_prefix(t);
    assert forall|n: int| 0 < n <= t.len() && !is_white(#[trigger] t[n - 1]) implies n <= trim_end(t).len() by {
        crate::text::lemma_trim_end_keeps(t, n);
    }
    assert(!is_white(t[1 - 1]));
}

proof fn lemma_trim_end_prefix(t: Seq<char>)
    ensures
        trim_end(t).len() <= t.len(),
        trim_end(t) == t.take(trim_end(t).len() as int),
    decreases t.len(),
{
    if t.len() > 0 && is_white(t.last()) {
        lemma_trim_end_prefix(t.drop_last());
        let n = trim_end(t).len() as int;
        assert(t.drop_last().take(n) =~= t.take(n));
    } else {
        assert(t.take(t.len() as int) =~= t);
    }
}

/// Nothing is left of whitespace.
pub proof fn lemma_all_white_start(s: Seq<char>)
    requires
        all_white(s),
    ensures
        trim_start(s).len() == 0,
{
    lemma_trim_start_of(s, Seq::empty());
    assert(s + Seq::<char>::empty() =~= s);
}

}

//! Executable counterparts of the notions in [`crate::text`].

use vstd::prelude::*;
use vstd::slice::slice_subrange;

use crate::text::chars;

verus! {

use crate::text::{
    after_word, chomp, drop_leading, find_from, first_word, is_white, joined, lines, same_ignoring_case, split,
    split_once, starts_with, strip_prefix, trim, trim_end, trim_start, until, upper, upper_all, views,
};
use crate::text::{lemma_until, lemma_until_at, lemma_word_len_at};

/// Whether a character is whitespace.
pub fn white(c: char) -> (r: bool)
    ensures
        r == is_white(c),
{
    let n: u32 = c as u32;
    (0x09 <= n && n <= 0x0d) || n == 0x20 || n == 0x85 || n == 0xa0 || n == 0x1680 || (0x2000 <= n && n <= 0x200a)
        || n == 0x2028 || n == 0x2029 || n == 0x202f || n == 0x205f || n == 0x3000
}

/// A text without its leading whitespace.
pub fn trimmed_start(s: &[char]) -> (r: &[char])
    ensures
        r@ == trim_start(s@),
{
    let n: usize = s.len();
    let mut i: usize = 0;
    assert(s@.skip(0) =~= s@);
    while i < n && white(s[i])
        invariant
            i <= n == s@.len(),
            trim_start(s@) == trim_start(s@.skip(i as int)),
        decreases n - i,
    {
        assert(s@.skip(i as int).drop_first() =~= s@.skip(i + 1));
        i = i + 1;
    }
    assert(s@.subrange(i as int, n as int) =~= s@.skip(i as int));
    slice_subrange(s, i, n)
}

/// A text without its trailing whitespace.
pub fn trimmed_end(s: &[char]) -> (r: &[char])
    ensures
        r@ == trim_end(s@),
{
    let mut n: usize = s.len();
    assert(s@.take(n as int) =~= s@);
    while n > 0 && white(s[n - 1])
        invariant
            n <= s@.len(),
            trim_end(s@) == trim_end(s@.take(n as int)),
        decreases n,
    {
        assert(s@.take(n as int).drop_last() =~= s@.take(n - 1));
        n = n - 1;
    }
    assert(s@.subrange(0, n as int) =~= s@.take(n as int));
    slice_subrange(s, 0, n)
}

/// A text without leading and trailing whitespace.
pub fn trimmed(s: &[char]) -> (r: &[char])
    ensures
        r@ == trim(s@),
{
    trimmed_end(trimmed_start(s))
}

/// Whether `c` is one of `set`.
fn among(c: char, set: &[char]) -> (r: bool)
    ensures
        r == set@.contains(c),
{
    let mut i: usize = 0;
    while i < set.len()
        invariant
            i <= set@.len(),
            forall|j: int| 0 <= j < i ==> set@[j] != c,
        decreases set@.len() - i,
    {
        if set[i] == c {
            return true;
        }
        i = i + 1;
    }
    false
}

/// A text without its longest prefix of characters from `set`.
pub fn without_leading<'a>(s: &'a [char], set: &str) -> (r: &'a [char])
    ensures
        r@ == drop_leading(s@, set@),
{
    let marks = chars(set);
    let n: usize = s.len();
    let mut i: usize = 0;
    assert(s@.skip(0) =~= s@);
    while i < n && among(s[i], marks.as_slice())
        invariant
            i <= n == s@.len(),
            marks@ == set@,
            drop_leading(s@, set@) == drop_leading(s@.skip(i as int), set@),
        decreases n - i,
    {
        assert(s@.skip(i as int).drop_first() =~= s@.skip(i + 1));
        i = i + 1;
    }
    assert(s@.subrange(i as int, n as int) =~= s@.skip(i as int));
    slice_subrange(s, i, n)
}

/// Whether `p` occurs in `s` at position `at`.
pub fn occurs_at(s: &[char], p: &[char], at: usize) -> (r: bool)
    ensures
        r == (at + p@.len() <= s@.len() && s@.subrange(at as int, at + p@.len()) == p@),
{
    if at > s.len() || p.len() > s.len() - at {
        return false;
    }
    let mut i: usize = 0;
    while i < p.len()
        invariant
            i <= p@.len(),
            at + p@.len() <= s@.len() <= usize::MAX,
            forall|j: int| 0 <= j < i ==> s@[at + j] == p@[j],
        decreases p@.len() - i,
    {
        if s[at + i] != p[i] {
            assert(s@.subrange(at as int, at + p@.len())[i as int] == s@[at + i]);
            return false;
        }
        i = i + 1;
    }
    assert(s@.subrange(at as int, at + p@.len()) =~= p@);
    true
}

/// Whether a text begins with `p`.
pub fn begins_with(s: &[char], p: &str) -> (r: bool)
    ensures
        r == starts_with(s@, p@),
{
    let q = chars(p);
    occurs_at(s, q.as_slice(), 0)
}

/// A text after the prefix `p`, where it has that prefix.
pub fn after_prefix<'a>(s: &'a [char], p: &str) -> (r: Option<&'a [char]>)
    ensures
        (r matches Some(x) ==> strip_prefix(s@, p@) == Some(x@)),
        r is None ==> strip_prefix(s@, p@) is None,
{
    let q = chars(p);
    if occurs_at(s, q.as_slice(), 0) {
        assert(s@.subrange(q@.len() as int, s@.len() as int) =~= s@.skip(p@.len() as int));
        Some(slice_subrange(s, q.len(), s.len()))
    } else {
        None
    }
}

/// The position of the first `c`, or the length of the text.
pub fn position_of(s: &[char], c: char) -> (r: usize)
    ensures
        r == until(s@, c),
        r <= s@.len(),
{
    let mut i: usize = 0;
    while i < s.len() && s[i] != c
        invariant
            i <= s@.len(),
            forall|j: int| 0 <= j < i ==> s@[j] != c,
        decreases s@.len() - i,
    {
        i = i + 1;
    }
    proof {
        lemma_until_at(s@, c, i as int);
    }
    i
}

/// The two sides of the first `c`.
pub fn halves<'a>(s: &'a [char], c: char) -> (r: Option<(&'a [char], &'a [char])>)
    ensures
        (r matches Some((a, b)) ==> split_once(s@, c) == Some((a@, b@))),
        r is None ==> split_once(s@, c) is None,
{
    let n: usize = position_of(s, c);
    if n < s.len() {
        assert(s@.subrange(0, n as int) =~= s@.take(n as int));
        assert(s@.subrange(n + 1, s@.len() as int) =~= s@.skip(n + 1));
        Some((slice_subrange(s, 0, n), slice_subrange(s, n + 1, s.len())))
    } else {
        None
    }
}

/// The parts of a text between its `c`s.
pub fn parts<'a>(s: &'a [char], c: char) -> (r: Vec<&'a [char]>)
    ensures
        views(r@) == split(s@, c),
{
    let mut r: Vec<&'a [char]> = Vec::new();
    let mut rest: &'a [char] = s;
    assert(views(r@) + split(rest@, c) =~= split(s@, c));
    loop
        invariant
            views(r@) + split(rest@, c) == split(s@, c),
        decreases rest@.len(),
    {
        let ghost before = r@;
        match halves(rest, c) {
            Some((a, b)) => {
                proof {
                    lemma_until(rest@, c);
                }
                r.push(a);
                assert(views(r@) =~= views(before).push(a@));
                assert(views(before) + (seq![a@] + split(b@, c)) =~= views(r@) + split(b@, c));
                rest = b;
            },
            None => {
                r.push(rest);
                assert(views(r@) =~= views(before) + seq![rest@]);
                return r;
            },
        }
    }
}

/// The lines of a text.
pub fn line_list<'a>(s: &'a [char]) -> (r: Vec<&'a [char]>)
    ensures
        views(r@) == lines(s@),
{
    let mut r: Vec<&'a [char]> = Vec::new();
    let mut rest: &'a [char] = s;
    assert(views(r@) + lines(rest@) =~= lines(s@));
    while rest.len() > 0
        invariant
            views(r@) + lines(rest@) == lines(s@),
        decreases rest@.len(),
    {
        let ghost before = r@;
        match halves(rest, '\n') {
            Some((a, b)) => {
                proof {
                    lemma_until(rest@, '\n');
                }
                let line: &'a [char] = if a.len() > 0 && a[a.len() - 1] == '\r' {
                    assert(a@.subrange(0, a@.len() - 1) =~= a@.drop_last());
                    slice_subrange(a, 0, a.len() - 1)
                } else {
                    a
                };
                assert(line@ == chomp(a@));
                r.push(line);
                assert(views(r@) =~= views(before).push(line@));
                assert(views(before) + (seq![line@] + lines(b@)) =~= views(r@) + lines(b@));
                rest = b;
            },
            None => {
                r.push(rest);
                assert(views(r@) =~= views(before) + seq![rest@]);
                return r;
            },
        }
    }
    assert(views(r@) + lines(rest@) =~= views(r@));
    r
}

/// The first word of a text and what follows it.
pub fn word<'a>(s: &'a [char]) -> (r: (&'a [char], &'a [char]))
    ensures
        r.0@ == first_word(s@),
        r.1@ == after_word(s@),
{
    let t = trimmed_start(s);
    let mut i: usize = 0;
    while i < t.len() && !white(t[i])
        invariant
            i <= t@.len(),
            forall|j: int| 0 <= j < i ==> !is_white(#[trigger] t@[j]),
        decreases t@.len() - i,
    {
        i = i + 1;
    }
    proof {
        lemma_word_len_at(t@, i as int);
    }
    assert(t@.subrange(0, i as int) =~= t@.take(i as int));
    assert(t@.subrange(i as int, t@.len() as int) =~= t@.skip(i as int));
    (slice_subrange(t, 0, i), slice_subrange(t, i, t.len()))
}

/// The first position at or after `from` where `p` occurs.
pub fn find(s: &[char], p: &[char], from: usize) -> (r: Option<usize>)
    requires
        from <= s@.len(),
    ensures
        (r matches Some(k) ==> find_from(s@, p@, from as int) == Some(k as int)),
        r is None ==> find_from(s@, p@, from as int) is None,
{
    let mut i: usize = from;
    while i <= s.len() && p.len() <= s.len() - i
        invariant
            from <= i <= s@.len() + 1,
            find_from(s@, p@, from as int) == find_from(s@, p@, i as int),
        decreases s@.len() + 1 - i,
    {
        if occurs_at(s, p, i) {
            return Some(i);
        }
        if i == s.len() {
            assert(find_from(s@, p@, i + 1) is None);
            return None;
        }
        i = i + 1;
    }
    None
}

/// An ASCII letter in upper case; any other character as it is.
fn uppercase_char(c: char) -> (r: char)
    ensures
        r == upper(c),
{
    if 'a' <= c && c <= 'z' {
        ((c as u8) - 32) as char
    } else {
        c
    }
}

/// A text with its ASCII letters in upper case.
pub fn uppercase(s: &[char]) -> (r: Vec<char>)
    ensures
        r@ == upper_all(s@),
{
    let mut r: Vec<char> = Vec::new();
    let mut i: usize = 0;
    while i < s.len()
        invariant
            i <= s@.len(),
            r@.len() == i,
            forall|j: int| 0 <= j < i ==> r@[j] == upper(#[trigger] s@[j]),
        decreases s@.len() - i,
    {
        r.push(uppercase_char(s[i]));
        i = i + 1;
    }
    assert(r@ =~= upper_all(s@));
    r
}

/// Whether two texts are the same.
pub fn equal(a: &[char], b: &[char]) -> (r: bool)
    ensures
        r == (a@ == b@),
{
    if a.len() != b.len() {
        return false;
    }
    let r: bool = occurs_at(a, b, 0);
    assert(a@.subrange(0, a@.len() as int) =~= a@);
    r
}

/// Whether two texts differ at most in the case of ASCII letters.
pub fn equal_ignoring_case(a: &[char], b: &[char]) -> (r: bool)
    ensures
        r == same_ignoring_case(a@, b@),
{
    let x = uppercase(a);
    let y = uppercase(b);
    equal(x.as_slice(), y.as_slice())
}

/// The texts one after another, with `sep` between them.
pub fn join(texts: &Vec<String>, sep: &str) -> (r: String)
    ensures
        r@ == joined(views(texts@), sep@),
{
    let mut r = String::new();
    let mut i: usize = 0;
    assert(views(texts@).take(0) =~= seq![]);
    while i < texts.len()
        invariant
            i <= texts@.len(),
            r@ == joined(views(texts@).take(i as int), sep@),
        decreases texts@.len() - i,
    {
        if i > 0 {
            r.append(sep);
        }
        r.append(texts[i].as_str());
        assert(views(texts@).take(i + 1).drop_last() =~= views(texts@).take(i as int));
        i = i + 1;
    }
    assert(views(texts@).take(i as int) =~= views(texts@));
    r
}

/// Whether two strings are the same.
pub fn same(a: &str, b: &str) -> (r: bool)
    ensures
        r == (a@ == b@),
{
    let x = chars(a);
    let y = chars(b);
    equal(x.as_slice(), y.as_slice())
}

}

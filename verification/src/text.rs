//! Text as a sequence of characters: the whitespace, line, word and search
//! notions that the `.http` format is written in.

use vstd::prelude::*;

verus! {

/// `String::push` appends one character at the end.
pub assume_specification[ String::push ](s: &mut String, c: char)
    ensures
        final(s)@ == old(s)@.push(c),
;

/// The views of a sequence of values.
pub open spec fn views<T: View>(s: Seq<T>) -> Seq<T::V> {
    Seq::new(s.len(), |i: int| s[i]@)
}

/// The view of an optional text.
pub open spec fn opt_text(o: Option<String>) -> Option<Seq<char>> {
    match o {
        Some(s) => Some(s@),
        None => None,
    }
}

/// The view of an optional borrowed text.
pub open spec fn opt_str(o: Option<&str>) -> Option<Seq<char>> {
    match o {
        Some(s) => Some(s@),
        None => None,
    }
}

/// The characters with the Unicode property `White_Space`.
pub open spec fn is_white(c: char) -> bool {
    let n = c as u32;
    ||| 0x09 <= n <= 0x0d
    ||| n == 0x20
    ||| n == 0x85
    ||| n == 0xa0
    ||| n == 0x1680
    ||| 0x2000 <= n <= 0x200a
    ||| n == 0x2028
    ||| n == 0x2029
    ||| n == 0x202f
    ||| n == 0x205f
    ||| n == 0x3000
}

/// `s` without its leading whitespace.
pub open spec fn trim_start(s: Seq<char>) -> Seq<char>
    decreases s.len(),
{
    if s.len() > 0 && is_white(s[0]) {
        trim_start(s.drop_first())
    } else {
        s
    }
}

/// `s` without its trailing whitespace.
pub open spec fn trim_end(s: Seq<char>) -> Seq<char>
    decreases s.len(),
{
    if s.len() > 0 && is_white(s.last()) {
        trim_end(s.drop_last())
    } else {
        s
    }
}

/// `s` without leading and trailing whitespace.
pub open spec fn trim(s: Seq<char>) -> Seq<char> {
    trim_end(trim_start(s))
}

/// `s` without its longest prefix of characters from `set`.
pub open spec fn drop_leading(s: Seq<char>, set: Seq<char>) -> Seq<char>
    decreases s.len(),
{
    if s.len() > 0 && set.contains(s[0]) {
        drop_leading(s.drop_first(), set)
    } else {
        s
    }
}

/// Whether `s` begins with `p`.
pub open spec fn starts_with(s: Seq<char>, p: Seq<char>) -> bool {
    p.len() <= s.len() && s.subrange(0, p.len() as int) == p
}

/// `s` after the prefix `p`, where it has that prefix.
pub open spec fn strip_prefix(s: Seq<char>, p: Seq<char>) -> Option<Seq<char>> {
    if starts_with(s, p) {
        Some(s.skip(p.len() as int))
    } else {
        None
    }
}

/// The position of the first `c` in `s`, or the length of `s`.
pub open spec fn until(s: Seq<char>, c: char) -> int
    decreases s.len(),
{
    if s.len() == 0 || s[0] == c {
        0
    } else {
        1 + until(s.drop_first(), c)
    }
}

/// The two sides of the first `c` in `s`.
pub open spec fn split_once(s: Seq<char>, c: char) -> Option<(Seq<char>, Seq<char>)> {
    let n = until(s, c);
    if n < s.len() {
        Some((s.take(n), s.skip(n + 1)))
    } else {
        None
    }
}

/// The parts of `s` between its `c`s: one more than there are `c`s.
pub open spec fn split(s: Seq<char>, c: char) -> Seq<Seq<char>>
    decreases s.len(),
{
    match split_once(s, c) {
        Some((first, rest)) => if rest.len() < s.len() {
            seq![first] + split(rest, c)
        } else {
            seq![]
        },
        None => seq![s],
    }
}

/// A line without the carriage return that ends it.
pub open spec fn chomp(s: Seq<char>) -> Seq<char> {
    if s.len() > 0 && s.last() == '\r' {
        s.drop_last()
    } else {
        s
    }
}

/// The lines of a text. Each ends with `\n` or `\r\n`, which it does not hold;
/// the last one may end with the text itself.
pub open spec fn lines(s: Seq<char>) -> Seq<Seq<char>>
    decreases s.len(),
{
    if s.len() == 0 {
        seq![]
    } else {
        match split_once(s, '\n') {
            Some((first, rest)) => if rest.len() < s.len() {
                seq![chomp(first)] + lines(rest)
            } else {
                seq![]
            },
            None => seq![s],
        }
    }
}

/// How many `\n` a text holds.
pub open spec fn line_breaks(s: Seq<char>) -> nat
    decreases s.len(),
{
    if s.len() == 0 {
        0
    } else {
        line_breaks(s.drop_first()) + if s[0] == '\n' {
            1nat
        } else {
            0nat
        }
    }
}

/// The length of the run of non-white characters that `s` begins with.
pub open spec fn word_len(s: Seq<char>) -> int
    decreases s.len(),
{
    if s.len() == 0 || is_white(s[0]) {
        0
    } else {
        1 + word_len(s.drop_first())
    }
}

/// The first word of `s`, empty where there is none.
pub open spec fn first_word(s: Seq<char>) -> Seq<char> {
    let t = trim_start(s);
    t.take(word_len(t))
}

/// What follows the first word of `s`.
pub open spec fn after_word(s: Seq<char>) -> Seq<char> {
    let t = trim_start(s);
    t.skip(word_len(t))
}

/// The first position at or after `i` where `p` occurs in `s`.
pub open spec fn find_from(s: Seq<char>, p: Seq<char>, i: int) -> Option<int>
    decreases s.len() + 1 - i,
{
    if i < 0 || i + p.len() > s.len() {
        None
    } else if s.subrange(i, i + p.len()) == p {
        Some(i)
    } else {
        find_from(s, p, i + 1)
    }
}

/// An ASCII letter in upper case; any other character as it is.
pub open spec fn upper(c: char) -> char {
    if 'a' <= c <= 'z' {
        ((c as u8) - 32) as char
    } else {
        c
    }
}

/// A text with its ASCII letters in upper case.
pub open spec fn upper_all(s: Seq<char>) -> Seq<char> {
    Seq::new(s.len(), |i: int| upper(s[i]))
}

/// Whether two texts differ at most in the case of ASCII letters.
pub open spec fn same_ignoring_case(a: Seq<char>, b: Seq<char>) -> bool {
    upper_all(a) == upper_all(b)
}

/// The parts one after another, with `sep` between them.
pub open spec fn joined(parts: Seq<Seq<char>>, sep: Seq<char>) -> Seq<char>
    decreases parts.len(),
{
    if parts.len() == 0 {
        seq![]
    } else if parts.len() == 1 {
        parts[0]
    } else {
        joined(parts.drop_last(), sep) + sep + parts.last()
    }
}

/// Where the first `c` is, and that nothing before is one.
pub proof fn lemma_until(s: Seq<char>, c: char)
    ensures
        0 <= until(s, c) <= s.len(),
        until(s, c) < s.len() ==> s[until(s, c)] == c,
        forall|i: int| 0 <= i < until(s, c) ==> s[i] != c,
    decreases s.len(),
{
    if s.len() > 0 && s[0] != c {
        let rest = s.drop_first();
        lemma_until(rest, c);
        assert forall|i: int| 0 <= i < until(s, c) implies s[i] != c by {
            if i > 0 {
                assert(s[i] == rest[i - 1]);
            }
        }
    }
}

/// The first `c` is at `n` when `n` holds it and nothing before does.
pub proof fn lemma_until_at(s: Seq<char>, c: char, n: int)
    requires
        0 <= n <= s.len(),
        forall|i: int| 0 <= i < n ==> s[i] != c,
        n < s.len() ==> s[n] == c,
    ensures
        until(s, c) == n,
    decreases s.len(),
{
    if n > 0 {
        let rest = s.drop_first();
        assert forall|i: int| 0 <= i < n - 1 implies rest[i] != c by {
            assert(rest[i] == s[i + 1]);
        }
        assert(s[0] != c);
        lemma_until_at(rest, c, n - 1);
    }
}

proof fn lemma_line_breaks(s: Seq<char>)
    ensures
        until(s, '\n') < s.len() ==> line_breaks(s) == 1 + line_breaks(s.skip(until(s, '\n') + 1)),
        until(s, '\n') == s.len() ==> line_breaks(s) == 0,
    decreases s.len(),
{
    lemma_until(s, '\n');
    if s.len() > 0 {
        let rest = s.drop_first();
        if s[0] == '\n' {
            assert(s.skip(1) =~= rest);
        } else {
            lemma_line_breaks(rest);
            lemma_until(rest, '\n');
            if until(s, '\n') < s.len() {
                assert(rest.skip(until(rest, '\n') + 1) =~= s.skip(until(s, '\n') + 1));
            }
        }
    }
}

/// Where the first line of `a + "\n" + b` ends.
proof fn lemma_first_break(a: Seq<char>, b: Seq<char>)
    ensures
        ({
            let n = until(a, '\n');
            let x = a + seq!['\n'] + b;
            &&& 0 <= n <= a.len()
            &&& until(x, '\n') == n
            &&& x.take(n) == a.take(n)
            &&& n < a.len() ==> x.skip(n + 1) == a.skip(n + 1) + seq!['\n'] + b
            &&& n == a.len() ==> x.skip(n + 1) == b
        }),
{
    let n = until(a, '\n');
    let x = a + seq!['\n'] + b;
    lemma_until(a, '\n');
    assert forall|i: int| 0 <= i < n implies x[i] != '\n' by {
        assert(x[i] == a[i]);
    }
    lemma_until_at(x, '\n', n);
    assert(x.take(n) =~= a.take(n));
    if n < a.len() {
        assert(x.skip(n + 1) =~= a.skip(n + 1) + seq!['\n'] + b);
    } else {
        assert(x.skip(n + 1) =~= b);
    }
}

/// The lines of two texts with a line break between them are those of the one,
/// ended by it, and then those of the other.
pub proof fn lemma_lines_joined(a: Seq<char>, b: Seq<char>)
    ensures
        lines(a + seq!['\n'] + b) == lines(a + seq!['\n']) + lines(b),
        lines(a + seq!['\n']).len() == line_breaks(a) + 1,
    decreases a.len(),
{
    let n = until(a, '\n');
    let x = a + seq!['\n'] + b;
    let y = a + seq!['\n'];
    assert(y =~= a + seq!['\n'] + Seq::<char>::empty());
    lemma_first_break(a, b);
    lemma_first_break(a, Seq::empty());
    lemma_line_breaks(a);
    if n < a.len() {
        let rest = a.skip(n + 1);
        lemma_lines_joined(rest, b);
        assert(rest + seq!['\n'] + Seq::<char>::empty() =~= rest + seq!['\n']);
        assert(lines(x) =~= lines(y) + lines(b));
    } else {
        assert(lines(y) =~= seq![chomp(a.take(n))]) by {
            assert(lines(Seq::<char>::empty()) =~= seq![]);
        }
        assert(lines(x) =~= lines(y) + lines(b));
    }
}

/// A line break at the end of a text adds an empty line to it only where the text
/// is empty or has one there already.
pub proof fn lemma_lines_ended(a: Seq<char>)
    requires
        a.len() > 0 ==> a.last() != '\r',
    ensures
        lines(a + seq!['\n']) == if a.len() == 0 || a.last() == '\n' {
            lines(a).push(seq![])
        } else {
            lines(a)
        },
    decreases a.len(),
{
    let n = until(a, '\n');
    let y = a + seq!['\n'];
    assert(y =~= a + seq!['\n'] + Seq::<char>::empty());
    lemma_first_break(a, Seq::empty());
    lemma_until(a, '\n');
    if n < a.len() {
        let rest = a.skip(n + 1);
        assert(rest.len() > 0 ==> rest.last() == a.last());
        lemma_lines_ended(rest);
        assert(rest + seq!['\n'] + Seq::<char>::empty() =~= rest + seq!['\n']);
        if rest.len() == 0 {
            assert(a[n] == a.last());
        }
        assert(seq![chomp(a.take(n))] + lines(rest).push(seq![]) =~= (seq![chomp(a.take(n))] + lines(rest)).push(seq![]));
    } else {
        assert(lines(Seq::<char>::empty()) =~= seq![]);
        assert(a.take(n) =~= a);
        assert(lines(y) =~= seq![chomp(a)]);
        if a.len() > 0 {
            assert(a[a.len() - 1] != '\n');
            assert(lines(a) =~= seq![a]);
        } else {
            assert(a =~= seq![]);
            assert(lines(y) =~= lines(a).push(seq![]));
        }
    }
}

/// Trimming keeps what ends before the end of the text begins to be white.
pub proof fn lemma_trim_end_keeps(s: Seq<char>, n: int)
    requires
        0 < n <= s.len(),
        !is_white(s[n - 1]),
    ensures
        n <= trim_end(s).len() <= s.len(),
        trim_end(s).take(n) == s.take(n),
    decreases s.len(),
{
    if is_white(s.last()) {
        lemma_trim_end_keeps(s.drop_last(), n);
        assert(s.drop_last().take(n) =~= s.take(n));
    }
}

/// A word ends at `n` when `n` holds whitespace and nothing before does.
pub proof fn lemma_word_len_at(s: Seq<char>, n: int)
    requires
        0 <= n <= s.len(),
        forall|i: int| 0 <= i < n ==> !is_white(#[trigger] s[i]),
        n < s.len() ==> is_white(s[n]),
    ensures
        word_len(s) == n,
    decreases s.len(),
{
    if n > 0 {
        let rest = s.drop_first();
        assert forall|i: int| 0 <= i < n - 1 implies !is_white(#[trigger] rest[i]) by {
            assert(rest[i] == s[i + 1]);
        }
        assert(!is_white(s[0]));
        lemma_word_len_at(rest, n - 1);
    }
}

proof fn lemma_trim_start_first(s: Seq<char>)
    ensures
        trim_start(s).len() > 0 ==> !is_white(trim_start(s)[0]),
    decreases s.len(),
{
    if s.len() > 0 && is_white(s[0]) {
        lemma_trim_start_first(s.drop_first());
    }
}

proof fn lemma_trim_end_ends(s: Seq<char>)
    ensures
        trim_end(s).len() > 0 ==> !is_white(trim_end(s).last()) && trim_end(s)[0] == s[0],
        trim_end(s).len() <= s.len(),
    decreases s.len(),
{
    if s.len() > 0 && is_white(s.last()) {
        lemma_trim_end_ends(s.drop_last());
    }
}

/// Nothing is left to trim of a trimmed text.
pub proof fn lemma_trim_twice(s: Seq<char>)
    ensures
        trim(trim(s)) == trim(s),
{
    lemma_trim_start_first(s);
    lemma_trim_end_ends(trim_start(s));
}

/// Where a search ends, and that nothing before matched.
pub proof fn lemma_find_from(s: Seq<char>, p: Seq<char>, i: int)
    requires
        0 <= i,
    ensures
        find_from(s, p, i) matches Some(k) ==> i <= k && k + p.len() <= s.len() && s.subrange(
            k,
            k + p.len(),
        ) == p,
        find_from(s, p, i) matches Some(k) ==> forall|j: int|
            i <= j < k ==> #[trigger] s.subrange(j, j + p.len()) != p,
        find_from(s, p, i) is None ==> forall|j: int|
            i <= j && j + p.len() <= s.len() ==> #[trigger] s.subrange(j, j + p.len()) != p,
    decreases s.len() + 1 - i,
{
    if i + p.len() <= s.len() && s.subrange(i, i + p.len()) != p {
        lemma_find_from(s, p, i + 1);
    }
}

/// The characters of a text.
pub fn chars(s: &str) -> (r: Vec<char>)
    ensures
        r@ == s@,
{
    let mut r: Vec<char> = Vec::new();
    for c in it: s.chars()
        invariant
            r@ == it.seq().take(it.index() as int),
            it.seq() == s@,
    {
        r.push(c);
        assert(it.seq().take(it.index() + 1) =~= it.seq().take(it.index() as int).push(c));
    }
    r
}

/// The text of some characters.
pub fn string(s: &[char]) -> (r: String)
    ensures
        r@ == s@,
{
    let mut r = String::new();
    let mut i: usize = 0;
    while i < s.len()
        invariant
            i <= s@.len(),
            r@ == s@.take(i as int),
        decreases s@.len() - i,
    {
        r.push(s[i]);
        assert(s@.take(i + 1) =~= s@.take(i as int).push(s@[i as int]));
        i = i + 1;
    }
    assert(s@.take(i as int) =~= s@);
    r
}

}

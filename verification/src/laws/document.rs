//! What a `.http` file says: a request that is written out is read back, whatever
//! stands in it and around it.

use vstd::prelude::*;

verus! {

use crate::document::{
    alphanumeric, body_end, body_of, body_start, comment_text, document, document_from, ends_head, head_end, header,
    header_list, is_comment, is_method, is_query, is_separator, is_variable_name, line_number, query_tail,
    request_at, uncommented, variable, without_blank_tail, DocumentView, RequestView,
};
use crate::laws::text::{
    all_white, are_lines, is_line, law_drop_leading, law_joined_lines_read_back, law_lines_read_back, law_prefix,
    law_split_once, law_trim, law_whitespace, law_words, lemma_all_white_start, lemma_indented, solid, with_breaks,
};
use crate::text::{first_word, is_white, joined, lines, starts_with, strip_prefix, trim, trim_start, upper, upper_all};

/// Whether a text opens a comment.
pub open spec fn opens_comment(t: Seq<char>) -> bool {
    t.len() > 0 && (t[0] == '#' || (t.len() > 1 && t[0] == '/' && t[1] == '/'))
}

/// Whether a text opens a separator.
pub open spec fn opens_separator(t: Seq<char>) -> bool {
    t.len() > 2 && t[0] == '#' && t[1] == '#' && t[2] == '#'
}

/// Whether a text opens a line of a query string.
pub open spec fn opens_query(t: Seq<char>) -> bool {
    t.len() > 0 && (t[0] == '?' || t[0] == '&')
}

proof fn lemma_openings(t: Seq<char>)
    ensures
        is_comment(t) == opens_comment(t),
        is_separator(t) == opens_separator(t),
        is_query(t) == opens_query(t),
        strip_prefix(t, "@"@) is Some <==> t.len() > 0 && t[0] == '@',
{
    reveal_strlit("#");
    reveal_strlit("//");
    reveal_strlit("###");
    reveal_strlit("?");
    reveal_strlit("&");
    reveal_strlit("@");
    if t.len() > 0 {
        assert(t.subrange(0, 1) =~= seq![t[0]]);
        assert("#"@ =~= seq!['#']);
        assert("?"@ =~= seq!['?']);
        assert("&"@ =~= seq!['&']);
        assert("@"@ =~= seq!['@']);
        assert(seq![t[0]][0] == t[0]);
        assert(seq!['#'][0] == '#');
        assert(seq!['?'][0] == '?');
        assert(seq!['&'][0] == '&');
        assert(seq!['@'][0] == '@');
    }
    if t.len() > 1 {
        assert("//"@ =~= seq!['/', '/']);
        if t[0] == '/' && t[1] == '/' {
            assert(t.subrange(0, 2) =~= "//"@);
        }
        if starts_with(t, "//"@) {
            assert(t.subrange(0, 2)[0] == t[0]);
            assert(t.subrange(0, 2)[1] == t[1]);
        }
    }
    if t.len() > 2 {
        assert("###"@ =~= seq!['#', '#', '#']);
        if opens_separator(t) {
            assert(t.subrange(0, 3) =~= "###"@);
        }
        if starts_with(t, "###"@) {
            assert(t.subrange(0, 3)[0] == t[0]);
            assert(t.subrange(0, 3)[1] == t[1]);
            assert(t.subrange(0, 3)[2] == t[2]);
        }
    }
}

/// What a line begins with is what its first characters say, trimmed or not.
proof fn lemma_line_openings(indent: Seq<char>, t: Seq<char>)
    requires
        all_white(indent),
        t.len() > 0,
        !is_white(t[0]),
    ensures
        trim_start(indent + t) == t,
        trim(indent + t).len() > 0,
        is_comment(trim(indent + t)) == opens_comment(t),
        is_separator(trim(indent + t)) == opens_separator(t),
        is_query(trim(indent + t)) == opens_query(t),
        is_comment(trim_start(indent + t)) == opens_comment(t),
        is_separator(trim_start(indent + t)) == opens_separator(t),
        ends_head(indent + t) == opens_separator(t),
{
    lemma_indented(indent, t);
    let u = trim(indent + t);
    lemma_openings(u);
    lemma_openings(t);
    assert(u[0] == t[0]);
    law_whitespace('/');
    law_whitespace('#');
    if t.len() > 1 {
        if !is_white(t[2 - 1]) {
            assert(u.len() >= 2);
            assert(u[1] == t[1]);
        } else if u.len() > 1 {
            assert(u[1] == t[1]);
        }
    }
    if t.len() > 2 {
        if !is_white(t[3 - 1]) {
            assert(u.len() >= 3);
            assert(u[2] == t[2]);
        } else if u.len() > 2 {
            assert(u[2] == t[2]);
        }
    }
}

proof fn lemma_blank(l: Seq<char>)
    requires
        all_white(l),
    ensures
        trim(l).len() == 0,
        trim_start(l).len() == 0,
        ends_head(l),
{
    law_trim(l, Seq::empty(), Seq::empty());
    assert(l + Seq::<char>::empty() + Seq::<char>::empty() =~= l);
    assert(all_white(Seq::<char>::empty()));
    crate::laws::text::lemma_all_white_start(l);
}

/// A line between the request line and the blank line that ends the head.
pub enum HeadLine {
    /// `name: value`, with whitespace around either.
    Header {
        indent: Seq<char>,
        name: Seq<char>,
        before: Seq<char>,
        after: Seq<char>,
        value: Seq<char>,
        tail: Seq<char>,
    },
    /// A line of the query string.
    Query { indent: Seq<char>, text: Seq<char>, tail: Seq<char> },
    /// A comment.
    Comment { indent: Seq<char>, text: Seq<char> },
    /// A line without a colon, or without anything before it.
    Other { indent: Seq<char>, text: Seq<char> },
}

/// The line.
pub open spec fn head_line(h: HeadLine) -> Seq<char> {
    match h {
        HeadLine::Header { indent, name, before, after, value, tail } => indent + (name + before + seq![':'] + (after
            + value + tail)),
        HeadLine::Query { indent, text, tail } => indent + (text + tail),
        HeadLine::Comment { indent, text } => indent + text,
        HeadLine::Other { indent, text } => indent + text,
    }
}

/// Whether the parts are what they are called.
pub open spec fn valid_head(h: HeadLine) -> bool {
    is_line(head_line(h)) && match h {
        HeadLine::Header { indent, name, before, after, value, tail } => {
            &&& all_white(indent) && all_white(before) && all_white(after) && all_white(tail)
            &&& name.len() > 0 && solid(name) && !name.contains(':')
            &&& !opens_comment(name) && !opens_query(name)
            &&& solid(value)
        },
        HeadLine::Query { indent, text, tail } => {
            &&& all_white(indent) && all_white(tail)
            &&& solid(text) && opens_query(text)
        },
        HeadLine::Comment { indent, text } => all_white(indent) && opens_comment(text) && !opens_separator(text),
        HeadLine::Other { indent, text } => {
            &&& all_white(indent)
            &&& text.len() > 0 && !is_white(text[0]) && !opens_comment(text) && !opens_query(text)
            &&& !text.contains(':') || text[0] == ':'
        },
    }
}

/// What the head adds to the URL.
pub open spec fn written_query(hs: Seq<HeadLine>) -> Seq<char>
    decreases hs.len(),
{
    if hs.len() == 0 {
        seq![]
    } else {
        written_query(hs.drop_last()) + match hs.last() {
            HeadLine::Query { text, .. } => text,
            _ => seq![],
        }
    }
}

/// The headers of the head.
pub open spec fn written_headers(hs: Seq<HeadLine>) -> Seq<(Seq<char>, Seq<char>)>
    decreases hs.len(),
{
    if hs.len() == 0 {
        seq![]
    } else {
        written_headers(hs.drop_last()) + match hs.last() {
            HeadLine::Header { name, value, .. } => seq![(name, value)],
            _ => seq![],
        }
    }
}

/// One line of a head: `name: value` is a header with all of its value, colons and
/// blanks in it too; a line of the query string and a comment are none.
pub proof fn law_head_line(h: HeadLine)
    requires
        valid_head(h),
    ensures
        !ends_head(head_line(h)),
        header(head_line(h)) == (match h {
            HeadLine::Header { name, value, .. } => Some((name, value)),
            _ => None,
        }),
        is_query(trim(head_line(h))) == (h is Query),
        h matches HeadLine::Query { text, .. } ==> trim(head_line(h)) == text,
{
    let l = head_line(h);
    law_whitespace('#');
    law_whitespace('/');
    law_whitespace('?');
    law_whitespace('&');
    law_whitespace(':');
    match h {
        HeadLine::Header { indent, name, before, after, value, tail } => {
            let t = name + before + seq![':'] + (after + value + tail);
            assert(t[0] == name[0]);
            assert(opens_comment(t) == opens_comment(name)) by {
                if name.len() == 1 {
                    if before.len() > 0 {
                        assert(t[1] == before[0]);
                    } else {
                        assert(t[1] == ':');
                    }
                } else {
                    assert(t[1] == name[1]);
                }
            }
            assert(!opens_separator(t));
            lemma_line_openings(indent, t);
            let k = indent + name + before;
            let v = after + value + tail;
            assert(l =~= k + seq![':'] + v);
            assert forall|i: int| 0 <= i < k.len() implies k[i] != ':' by {
                if i < indent.len() {
                    assert(k[i] == indent[i]);
                } else if i < indent.len() + name.len() {
                    assert(k[i] == name[i - indent.len()]);
                    assert(name.contains(name[i - indent.len()]));
                } else {
                    assert(k[i] == before[i - indent.len() - name.len()]);
                }
            }
            law_split_once(k, ':', v);
            law_trim(indent, name, before);
            law_trim(after, value, tail);
        },
        HeadLine::Query { indent, text, tail } => {
            let t = text + tail;
            assert(t[0] == text[0]);
            lemma_line_openings(indent, t);
            assert(indent + text + tail =~= l);
            law_trim(indent, text, tail);
        },
        HeadLine::Comment { indent, text } => {
            lemma_line_openings(indent, text);
        },
        HeadLine::Other { indent, text } => {
            lemma_line_openings(indent, text);
            if text[0] == ':' {
                let v = text.skip(1);
                assert(l =~= indent + seq![':'] + v);
                assert forall|i: int| 0 <= i < indent.len() implies indent[i] != ':' by {}
                law_split_once(indent, ':', v);
                lemma_blank(indent);
            } else {
                assert forall|i: int| 0 <= i < l.len() implies l[i] != ':' by {
                    if i < indent.len() {
                        assert(l[i] == indent[i]);
                    } else {
                        assert(l[i] == text[i - indent.len()]);
                        assert(text.contains(text[i - indent.len()]));
                    }
                }
                law_split_once(l, ':', Seq::empty());
            }
        },
    }
}

/// The lines of a head.
pub open spec fn head_lines(hs: Seq<HeadLine>) -> Seq<Seq<char>> {
    Seq::new(hs.len(), |i: int| head_line(hs[i]))
}

/// Whether the lines of a head are what they are called.
pub open spec fn valid_heads(hs: Seq<HeadLine>) -> bool {
    forall|i: int| 0 <= i < hs.len() ==> valid_head(#[trigger] hs[i])
}

proof fn lemma_heads(hs: Seq<HeadLine>)
    requires
        valid_heads(hs),
    ensures
        query_tail(head_lines(hs)) == written_query(hs),
        header_list(head_lines(hs)) == written_headers(hs),
    decreases hs.len(),
{
    if hs.len() > 0 {
        let front = hs.drop_last();
        assert forall|i: int| 0 <= i < front.len() implies valid_head(#[trigger] front[i]) by {
            assert(front[i] == hs[i]);
        }
        assert(valid_head(hs[hs.len() - 1]));
        lemma_heads(front);
        law_head_line(hs.last());
        assert(head_lines(hs).drop_last() =~= head_lines(front));
        assert(query_tail(head_lines(hs)) =~= written_query(hs));
        assert(header_list(head_lines(hs)) =~= written_headers(hs));
    }
}

/// A line above a request.
pub enum AboveLine {
    /// `# @name ...`.
    Name { indent: Seq<char>, marks: Seq<char>, gap: Seq<char>, after: Seq<char>, name: Seq<char>, tail: Seq<char> },
    /// `# @timeout ...`.
    Timeout {
        indent: Seq<char>,
        marks: Seq<char>,
        gap: Seq<char>,
        after: Seq<char>,
        seconds: Seq<char>,
        tail: Seq<char>,
    },
    /// Any other comment.
    Comment { indent: Seq<char>, marks: Seq<char>, gap: Seq<char>, text: Seq<char> },
    /// `@name = value`.
    Variable {
        indent: Seq<char>,
        gap: Seq<char>,
        name: Seq<char>,
        before: Seq<char>,
        after: Seq<char>,
        value: Seq<char>,
        tail: Seq<char>,
    },
    /// A blank line.
    Blank { text: Seq<char> },
    /// A line that means nothing.
    Other { indent: Seq<char>, word: Seq<char>, rest: Seq<char> },
}

/// The line.
pub open spec fn above_line(a: AboveLine) -> Seq<char> {
    match a {
        AboveLine::Name { indent, marks, gap, after, name, tail } => indent + (marks + (gap
            + seq!['@', 'n', 'a', 'm', 'e'] + (after + name + tail))),
        AboveLine::Timeout { indent, marks, gap, after, seconds, tail } => indent + (marks + (gap
            + seq!['@', 't', 'i', 'm', 'e', 'o', 'u', 't'] + (after + seconds + tail))),
        AboveLine::Comment { indent, marks, gap, text } => indent + (marks + (gap + text)),
        AboveLine::Variable { indent, gap, name, before, after, value, tail } => indent + (seq!['@'] + (gap + name
            + before + seq!['='] + (after + value + tail))),
        AboveLine::Blank { text } => text,
        AboveLine::Other { indent, word, rest } => indent + (word + rest),
    }
}

/// Whether a text marks a comment: `#` and `/` alone, one or more of them, that open a
/// comment and no separator.
pub open spec fn is_marks(m: Seq<char>) -> bool {
    &&& forall|i: int| 0 <= i < m.len() ==> (#[trigger] m[i]) == '#' || m[i] == '/'
    &&& opens_comment(m)
    &&& !opens_separator(m)
}

/// Whether the parts are what they are called.
pub open spec fn valid_above(a: AboveLine) -> bool {
    is_line(above_line(a)) && match a {
        AboveLine::Name { indent, marks, gap, after, name, tail } => {
            &&& all_white(indent) && all_white(gap) && all_white(after) && all_white(tail)
            &&& is_marks(marks) && solid(name)
        },
        AboveLine::Timeout { indent, marks, gap, after, seconds, tail } => {
            &&& all_white(indent) && all_white(gap) && all_white(after) && all_white(tail)
            &&& is_marks(marks) && solid(seconds)
        },
        AboveLine::Comment { indent, marks, gap, text } => {
            &&& all_white(indent) && all_white(gap) && is_marks(marks)
            &&& text.len() > 0 && !is_white(text[0]) && text[0] != '@' && text[0] != '#' && text[0] != '/'
        },
        AboveLine::Variable { indent, gap, name, before, after, value, tail } => {
            &&& all_white(indent) && all_white(gap) && all_white(before) && all_white(after) && all_white(tail)
            &&& name.len() > 0 && solid(name) && !name.contains('=')
            &&& forall|i: int| 0 <= i < name.len() ==> alphanumeric(#[trigger] name[i]) || name[i] == '_'
            &&& solid(value)
        },
        AboveLine::Blank { text } => all_white(text),
        AboveLine::Other { indent, word, rest } => {
            &&& all_white(indent)
            &&& word.len() > 0 && forall|i: int| 0 <= i < word.len() ==> !is_white(#[trigger] word[i])
            &&& rest.len() > 0 ==> is_white(rest[0])
            &&& !method_word(word) && !opens_comment(word) && word[0] != '@'
        },
    }
}

/// The name, the timeout and the variables that the lines above a request give. The
/// last one counts.
pub open spec fn given_above(above: Seq<AboveLine>) -> (
    Option<Seq<char>>,
    Option<Seq<char>>,
    Map<Seq<char>, Seq<char>>,
)
    decreases above.len(),
{
    if above.len() == 0 {
        (None, None, Map::empty())
    } else {
        let (n, t, v) = given_above(above.drop_last());
        match above.last() {
            AboveLine::Name { name, .. } => (Some(name), t, v),
            AboveLine::Timeout { seconds, .. } => (n, Some(seconds), v),
            AboveLine::Variable { name, value, .. } => (n, t, v.insert(name, value)),
            _ => (n, t, v),
        }
    }
}

/// The text of a comment line.
proof fn lemma_comment_text(indent: Seq<char>, marks: Seq<char>, rest: Seq<char>)
    requires
        all_white(indent),
        is_marks(marks),
        rest.len() > 0,
        rest[0] != '#',
        rest[0] != '/',
    ensures
        trim_start(indent + (marks + rest)) == marks + rest,
        !is_separator(marks + rest),
        variable(marks + rest) is None,
        is_comment(marks + rest),
        comment_text(marks + rest) == trim(rest),
{
    let t = marks + rest;
    law_whitespace('#');
    law_whitespace('/');
    assert forall|i: int| 0 <= i < t.len() implies t[i] == (if i < marks.len() {
        marks[i]
    } else {
        rest[i - marks.len()]
    }) by {}
    lemma_indented(indent, t);
    lemma_openings(t);
    reveal_strlit("#/");
    let set = "#/"@;
    assert(set[0] == '#' && set[1] == '/');
    assert(set.contains('#') && set.contains('/'));
    assert(!set.contains(rest[0])) by {
        if set.contains(rest[0]) {
            let k = choose|k: int| 0 <= k < set.len() && set[k] == rest[0];
            assert(k == 0 || k == 1);
        }
    }
    assert forall|i: int| 0 <= i < marks.len() implies set.contains(#[trigger] marks[i]) by {
        assert(marks[i] == '#' || marks[i] == '/');
    }
    law_drop_leading(marks, rest, set);
}

proof fn lemma_directive_text(gap: Seq<char>, word: Seq<char>, after: Seq<char>, x: Seq<char>, tail: Seq<char>)
    requires
        all_white(gap),
        all_white(after),
        all_white(tail),
        solid(x),
        solid(word),
        word.len() > 0,
    ensures
        trim(gap + word + (after + x + tail)) == word + if x.len() > 0 {
            after + x
        } else {
            seq![]
        },
        trim(if x.len() > 0 {
            after + x
        } else {
            seq![]
        }) == x,
{
    let none = Seq::<char>::empty();
    if x.len() > 0 {
        let w = word + after + x;
        assert(w[0] == word[0]);
        assert(w.last() == x.last());
        law_trim(gap, w, tail);
        assert(gap + word + (after + x + tail) =~= gap + w + tail);
        assert(w =~= word + (after + x));
        law_trim(after, x, none);
        assert(after + x + none =~= after + x);
    } else {
        let w = after + tail;
        assert(after + x + tail =~= w);
        assert forall|i: int| 0 <= i < w.len() implies is_white(#[trigger] w[i]) by {
            if i < after.len() {
                assert(w[i] == after[i]);
            } else {
                assert(w[i] == tail[i - after.len()]);
            }
        }
        law_trim(gap, word, w);
        assert(word + none =~= word);
        law_trim(none, none, none);
        assert(none + none + none =~= none);
        assert(x =~= none);
    }
}

/// One line above a request: what it does to the name, the timeout and the variables.
proof fn lemma_above_line(
    ls: Seq<Seq<char>>,
    i: int,
    name: Option<Seq<char>>,
    timeout: Option<Seq<char>>,
    found: DocumentView,
    a: AboveLine,
)
    requires
        0 <= i < ls.len(),
        valid_above(a),
        ls[i] == above_line(a),
    ensures
        document_from(ls, i, name, timeout, found) == document_from(
            ls,
            i + 1,
            match a {
                AboveLine::Name { name, .. } => Some(name),
                _ => name,
            },
            match a {
                AboveLine::Timeout { seconds, .. } => Some(seconds),
                _ => timeout,
            },
            match a {
                AboveLine::Variable { name, value, .. } => DocumentView {
                    vars: found.vars.insert(name, value),
                    ..found
                },
                _ => found,
            },
        ),
{
    law_whitespace('#');
    law_whitespace('/');
    law_whitespace('@');
    law_whitespace('=');
    law_whitespace('e');
    law_whitespace('t');
    let t = trim_start(ls[i]);
    reveal_strlit("@name");
    reveal_strlit("@timeout");
    let at_name = seq!['@', 'n', 'a', 'm', 'e'];
    let at_timeout = seq!['@', 't', 'i', 'm', 'e', 'o', 'u', 't'];
    assert("@name"@ =~= at_name);
    assert("@timeout"@ =~= at_timeout);
    match a {
        AboveLine::Name { indent, marks, gap, after, name: n, tail } => {
            let rest = gap + at_name + (after + n + tail);
            assert(rest[0] == if gap.len() > 0 {
                gap[0]
            } else {
                '@'
            });
            lemma_comment_text(indent, marks, rest);
            lemma_directive_text(gap, at_name, after, n, tail);
            let x = if n.len() > 0 {
                after + n
            } else {
                seq![]
            };
            law_prefix(at_name + x, at_name, x);
        },
        AboveLine::Timeout { indent, marks, gap, after, seconds, tail } => {
            let rest = gap + at_timeout + (after + seconds + tail);
            assert(rest[0] == if gap.len() > 0 {
                gap[0]
            } else {
                '@'
            });
            lemma_comment_text(indent, marks, rest);
            lemma_directive_text(gap, at_timeout, after, seconds, tail);
            let x = if seconds.len() > 0 {
                after + seconds
            } else {
                seq![]
            };
            law_prefix(at_timeout + x, at_timeout, x);
            if starts_with(at_timeout + x, at_name) {
                assert((at_timeout + x).subrange(0, 5)[1] == (at_timeout + x)[1]);
            }
        },
        AboveLine::Comment { indent, marks, gap, text } => {
            let rest = gap + text;
            assert(rest[0] == if gap.len() > 0 {
                gap[0]
            } else {
                text[0]
            });
            lemma_comment_text(indent, marks, rest);
            lemma_indented(gap, text);
            let u = trim(rest);
            assert(u[0] == text[0]);
            if starts_with(u, at_name) {
                assert(u.subrange(0, 5)[0] == u[0]);
            }
            if starts_with(u, at_timeout) {
                assert(u.subrange(0, 8)[0] == u[0]);
            }
        },
        AboveLine::Variable { indent, gap, name: n, before, after, value, tail } => {
            let k = gap + n + before;
            let v = after + value + tail;
            let rest = k + seq!['='] + v;
            let u = seq!['@'] + rest;
            assert(ls[i] =~= indent + u);
            assert(u[0] == '@');
            lemma_indented(indent, u);
            lemma_openings(u);
            reveal_strlit("@");
            assert("@"@ =~= seq!['@']);
            law_prefix(u, seq!['@'], rest);
            assert forall|j: int| 0 <= j < k.len() implies k[j] != '=' by {
                if j < gap.len() {
                    assert(k[j] == gap[j]);
                } else if j < gap.len() + n.len() {
                    assert(k[j] == n[j - gap.len()]);
                    assert(n.contains(n[j - gap.len()]));
                } else {
                    assert(k[j] == before[j - gap.len() - n.len()]);
                }
            }
            law_split_once(k, '=', v);
            law_trim(gap, n, before);
            law_trim(after, value, tail);
            assert(is_variable_name(n));
        },
        AboveLine::Blank { text } => {
            lemma_blank(text);
            assert(t.len() == 0);
            lemma_openings(t);
            crate::document::lemma_no_method(t);
        },
        AboveLine::Other { indent, word, rest } => {
            let u = word + rest;
            assert(u[0] == word[0]);
            if word.len() == 1 {
                if rest.len() > 0 {
                    assert(u[1] == rest[0]);
                }
            } else {
                assert(u[1] == word[1]);
            }
            lemma_indented(indent, u);
            lemma_openings(u);
            law_words(Seq::empty(), word, rest);
            assert(Seq::<char>::empty() + word + rest =~= u);
            law_methods(word);
        },
    }
}

/// The lines above a request.
pub open spec fn above_lines(above: Seq<AboveLine>) -> Seq<Seq<char>> {
    Seq::new(above.len(), |i: int| above_line(above[i]))
}

/// Whether the lines above a request are what they are called.
pub open spec fn valid_aboves(above: Seq<AboveLine>) -> bool {
    forall|i: int| 0 <= i < above.len() ==> valid_above(#[trigger] above[i])
}

proof fn lemma_aboves(ls: Seq<Seq<char>>, above: Seq<AboveLine>)
    requires
        above.len() <= ls.len(),
        ls.take(above.len() as int) == above_lines(above),
        valid_aboves(above),
    ensures
        ({
            let (n, t, v) = given_above(above);
            document_from(ls, 0, None, None, DocumentView { vars: Map::empty(), requests: seq![] }) == document_from(
                ls,
                above.len() as int,
                n,
                t,
                DocumentView { vars: v, requests: seq![] },
            )
        }),
    decreases above.len(),
{
    if above.len() > 0 {
        let front = above.drop_last();
        let k = front.len() as int;
        assert forall|i: int| 0 <= i < front.len() implies valid_above(#[trigger] front[i]) by {
            assert(front[i] == above[i]);
        }
        assert(valid_above(above[k]));
        assert(ls.take(k) =~= above_lines(front)) by {
            assert forall|i: int| 0 <= i < k implies ls.take(k)[i] == above_lines(front)[i] by {
                assert(ls.take(k + 1)[i] == above_lines(above)[i]);
            }
        }
        lemma_aboves(ls, front);
        let (n, t, v) = given_above(front);
        assert(ls.take(k + 1)[k] == above_lines(above)[k]);
        lemma_above_line(ls, k, n, t, DocumentView { vars: v, requests: seq![] }, above[k]);
    }
}

/// Whether a word is one of the methods, in either case.
pub open spec fn method_word(m: Seq<char>) -> bool {
    let u = upper_all(m);
    ||| u == "GET"@
    ||| u == "POST"@
    ||| u == "PUT"@
    ||| u == "DELETE"@
    ||| u == "PATCH"@
    ||| u == "HEAD"@
    ||| u == "OPTIONS"@
    ||| u == "TRACE"@
    ||| u == "CONNECT"@
}

/// The methods are these nine, in either case.
pub proof fn law_methods(m: Seq<char>)
    ensures
        is_method(m) <==> method_word(m),
{
}

spec fn letters(s: Seq<char>) -> bool {
    forall|i: int| 0 <= i < s.len() ==> 'A' <= #[trigger] s[i] <= 'Z'
}

proof fn lemma_method_letters(m: Seq<char>)
    requires
        method_word(m),
    ensures
        m.len() > 0,
        forall|i: int|
            0 <= i < m.len() ==> !is_white(#[trigger] m[i]) && m[i] != '#' && m[i] != '/' && m[i] != '@',
{
    reveal_strlit("GET");
    reveal_strlit("POST");
    reveal_strlit("PUT");
    reveal_strlit("DELETE");
    reveal_strlit("PATCH");
    reveal_strlit("HEAD");
    reveal_strlit("OPTIONS");
    reveal_strlit("TRACE");
    reveal_strlit("CONNECT");
    let u = upper_all(m);
    assert(letters("GET"@));
    assert(letters("POST"@));
    assert(letters("PUT"@));
    assert(letters("DELETE"@));
    assert(letters("PATCH"@));
    assert(letters("HEAD"@));
    assert(letters("OPTIONS"@));
    assert(letters("TRACE"@));
    assert(letters("CONNECT"@));
    assert(u.len() > 0);
    assert(letters(u));
    assert forall|i: int| 0 <= i < m.len() implies !is_white(#[trigger] m[i]) && m[i] != '#' && m[i] != '/' && m[i]
        != '@' by {
        assert(u[i] == upper(m[i]));
        law_whitespace(m[i]);
    }
}

/// Whether a line of a body is its indentation and a text that is no comment.
pub open spec fn valid_body_line(l: (Seq<char>, Seq<char>)) -> bool {
    is_line(l.0 + l.1) && all_white(l.0) && (l.1.len() > 0 ==> !is_white(l.1[0]) && !opens_comment(l.1))
}

/// The lines of a body.
pub open spec fn body_lines(body: Seq<(Seq<char>, Seq<char>)>) -> Seq<Seq<char>> {
    Seq::new(body.len(), |i: int| body[i].0 + body[i].1)
}

proof fn lemma_head_end_at(ls: Seq<Seq<char>>, i: int, e: int)
    requires
        0 <= i <= e <= ls.len(),
        forall|j: int| i <= j < e ==> !ends_head(#[trigger] ls[j]),
        e < ls.len() ==> ends_head(ls[e]),
    ensures
        head_end(ls, i) == e,
    decreases e - i,
{
    if i < e {
        assert(!ends_head(ls[i]));
        lemma_head_end_at(ls, i + 1, e);
    }
}

proof fn lemma_body_end_at(ls: Seq<Seq<char>>, i: int)
    requires
        0 <= i <= ls.len(),
        forall|j: int| i <= j < ls.len() ==> !is_separator(trim_start(#[trigger] ls[j])),
    ensures
        body_end(ls, i) == ls.len(),
    decreases ls.len() - i,
{
    if i < ls.len() {
        assert(!is_separator(trim_start(ls[i])));
        lemma_body_end_at(ls, i + 1);
    }
}

proof fn lemma_all_uncommented(ls: Seq<Seq<char>>)
    requires
        forall|j: int| 0 <= j < ls.len() ==> !is_comment(trim_start(#[trigger] ls[j])),
    ensures
        uncommented(ls) == ls,
    decreases ls.len(),
{
    if ls.len() > 0 {
        let front = ls.drop_last();
        assert(!is_comment(trim_start(ls[ls.len() - 1])));
        assert forall|j: int| 0 <= j < front.len() implies !is_comment(trim_start(#[trigger] front[j])) by {
            assert(front[j] == ls[j]);
        }
        lemma_all_uncommented(front);
        assert(front.push(ls.last()) =~= ls);
    }
}

proof fn lemma_body_line(l: (Seq<char>, Seq<char>))
    requires
        valid_body_line(l),
    ensures
        !is_separator(trim_start(l.0 + l.1)),
        !is_comment(trim_start(l.0 + l.1)),
        l.1.len() > 0 ==> trim(l.0 + l.1).len() > 0,
{
    if l.1.len() > 0 {
        lemma_line_openings(l.0, l.1);
    } else {
        assert(l.0 + l.1 =~= l.0);
        lemma_blank(l.0);
        lemma_openings(trim_start(l.0));
    }
}

/// The lines of a document with one request. The blank line below the head may be
/// missing, and with it the body.
pub open spec fn request_lines(
    above: Seq<AboveLine>,
    line: Seq<char>,
    head: Seq<HeadLine>,
    blank: Option<Seq<char>>,
    body: Seq<(Seq<char>, Seq<char>)>,
) -> Seq<Seq<char>> {
    above_lines(above) + seq![line] + head_lines(head) + (match blank {
        Some(b) => seq![b] + body_lines(body),
        None => seq![],
    })
}

/// A request that is written out is read back: its method, its URL with the lines of
/// the query string, its headers with their whole values, its body with its lines as
/// they are, its line, and the name and the timeout that the comments above give it.
/// So are the variables above it. The URL, the head and the body may be missing.
/// Indentation, blanks around the parts, comments and other lines in the head change
/// nothing.
pub proof fn law_request_is_read_back(
    above: Seq<AboveLine>,
    indent: Seq<char>,
    method: Seq<char>,
    gap: Seq<char>,
    url: Seq<char>,
    tail: Seq<char>,
    head: Seq<HeadLine>,
    blank: Option<Seq<char>>,
    body: Seq<(Seq<char>, Seq<char>)>,
)
    requires
        valid_aboves(above),
        all_white(indent),
        method_word(method),
        all_white(gap),
        url.len() > 0 ==> gap.len() > 0,
        url.len() == 0 ==> tail.len() == 0,
        forall|i: int| 0 <= i < url.len() ==> !is_white(#[trigger] url[i]),
        tail.len() > 0 ==> is_white(tail[0]),
        is_line(indent + method + (gap + url + tail)),
        valid_heads(head),
        blank matches Some(b) ==> is_line(b) && all_white(b),
        blank is None ==> body.len() == 0,
        forall|i: int| 0 <= i < body.len() ==> valid_body_line(#[trigger] body[i]),
        body.len() > 0 ==> body.last().1.len() > 0,
    ensures
        ({
            let line = indent + method + (gap + url + tail);
            let text = with_breaks(request_lines(above, line, head, blank, body));
            let (name, timeout, vars) = given_above(above);
            &&& document(text).vars == vars
            &&& document(text).requests == seq![
                RequestView {
                    name,
                    line: line_number(above.len() as int),
                    method,
                    url: url + written_query(head),
                    headers: written_headers(head),
                    body: if body.len() == 0 {
                        None
                    } else {
                        Some(joined(body_lines(body), seq!['\n']))
                    },
                    timeout_raw: timeout,
                },
            ]
        }),
{
    let line = indent + method + (gap + url + tail);
    let ls = request_lines(above, line, head, blank, body);
    let text = with_breaks(ls);
    let (name, timeout, vars) = given_above(above);
    let i = above.len() as int;
    let e = i + 1 + head.len();
    let start = e + if blank is Some {
        1int
    } else {
        0int
    };
    let n = ls.len() as int;
    assert(n == start + body.len());
    assert forall|j: int| 0 <= j < n implies is_line(#[trigger] ls[j]) by {
        if j < i {
            assert(ls[j] == above_line(above[j]));
            assert(valid_above(above[j]));
        } else if j == i {
            assert(ls[j] == line);
        } else if j < e {
            assert(ls[j] == head_line(head[j - i - 1]));
            assert(valid_head(head[j - i - 1]));
        } else if j == e {
            assert(Some(ls[j]) == blank);
        } else {
            assert(ls[j] == body_lines(body)[j - start]);
            assert(valid_body_line(body[j - start]));
        }
    }
    law_lines_read_back(ls);
    assert(lines(text) == ls);
    assert(ls.take(i) =~= above_lines(above));
    lemma_aboves(ls, above);
    // The request line.
    assert(ls[i] == line);
    let rest = gap + url + tail;
    let t = method + rest;
    lemma_method_letters(method);
    if rest.len() > 0 {
        assert(rest[0] == gap[0]);
    }
    assert(t[0] == method[0]);
    assert(line =~= indent + t);
    lemma_line_openings(indent, t);
    lemma_openings(t);
    law_words(indent, method, rest);
    law_words(Seq::empty(), method, rest);
    assert(Seq::<char>::empty() + method + rest =~= t);
    if url.len() > 0 {
        law_words(gap, url, tail);
    } else {
        assert(rest =~= gap);
        lemma_all_white_start(gap);
        assert(first_word(rest) =~= url);
    }
    assert(variable(t) is None);
    assert(is_method(first_word(t)));
    // The head.
    assert forall|j: int| i + 1 <= j < e implies !ends_head(#[trigger] ls[j]) by {
        assert(ls[j] == head_line(head[j - i - 1]));
        assert(valid_head(head[j - i - 1]));
        law_head_line(head[j - i - 1]);
    }
    if let Some(b) = blank {
        assert(ls[e] == b);
        lemma_blank(b);
    }
    lemma_head_end_at(ls, i + 1, e);
    assert(ls.subrange(i + 1, e) =~= head_lines(head));
    lemma_heads(head);
    assert(body_start(ls, i + 1) == start);
    // The body.
    assert forall|j: int| start <= j < n implies !is_separator(trim_start(#[trigger] ls[j])) by {
        assert(ls[j] == body_lines(body)[j - start]);
        assert(valid_body_line(body[j - start]));
        lemma_body_line(body[j - start]);
    }
    lemma_body_end_at(ls, start);
    let part = ls.subrange(start, n);
    assert(part =~= body_lines(body));
    assert forall|j: int| 0 <= j < part.len() implies !is_comment(trim_start(#[trigger] part[j])) by {
        assert(valid_body_line(body[j]));
        lemma_body_line(body[j]);
    }
    lemma_all_uncommented(part);
    if body.len() > 0 {
        assert(valid_body_line(body[body.len() - 1]));
        lemma_body_line(body.last());
        assert(part.last() == body.last().0 + body.last().1);
    }
    assert(without_blank_tail(part) == part);
    reveal_strlit("\n");
    assert("\n"@ =~= seq!['\n']);
    let r = request_at(ls, i, name, timeout);
    let found = DocumentView { vars, requests: seq![] };
    crate::document::lemma_body_start(ls, i + 1);
    assert(document_from(ls, i, name, timeout, found) == document_from(
        ls,
        n,
        None,
        None,
        DocumentView { requests: found.requests.push(r), ..found },
    ));
    assert(found.requests.push(r) =~= seq![r]);
}

/// What a document holds is what its lines hold: the kind of its line breaks, and
/// whether there is one at its end, change nothing.
pub proof fn law_line_breaks_change_nothing(ls: Seq<Seq<char>>, text: Seq<char>)
    requires
        are_lines(ls),
        lines(text) == ls,
    ensures
        document(text) == document(with_breaks(ls)),
        ls.len() > 0 && ls.last().len() > 0 ==> document(text) == document(joined(ls, seq!['\n'])),
{
    law_lines_read_back(ls);
    if ls.len() > 0 && ls.last().len() > 0 {
        law_joined_lines_read_back(ls);
    }
}

/// A line `@name = value` declares a variable exactly where the name is made of
/// letters, digits and `_`; its value is all that follows the first `=`, without the
/// whitespace around it. Lines without `@` or without `=` declare nothing.
pub proof fn law_variable_lines(a: Seq<char>, name: Seq<char>, b: Seq<char>, value: Seq<char>, t: Seq<char>)
    requires
        all_white(a),
        all_white(b),
        solid(name),
        !(a + name + b).contains('='),
    ensures
        ({
            let line = seq!['@'] + (a + name + b + seq!['='] + value);
            let named = name.len() > 0 && forall|i: int|
                0 <= i < name.len() ==> alphanumeric(#[trigger] name[i]) || name[i] == '_';
            &&& named ==> variable(line) == Some((name, trim(value)))
            &&& !named ==> variable(line) is None
        }),
        t.len() == 0 || t[0] != '@' ==> variable(t) is None,
        t.len() > 0 && !t.contains('=') ==> variable(t) is None,
{
    reveal_strlit("@");
    assert("@"@ =~= seq!['@']);
    let rest = a + name + b + seq!['='] + value;
    law_prefix(t, seq!['@'], rest);
    law_split_once(a + name + b, '=', value);
    law_trim(a, name, b);
    if starts_with(t, "@"@) {
        assert(t.subrange(0, 1)[0] == t[0]);
        let u = t.skip(1);
        if !t.contains('=') {
            if u.contains('=') {
                let i = choose|i: int| 0 <= i < u.len() && u[i] == '=';
                assert(t[i + 1] == '=');
            }
            law_split_once(u, '=', Seq::empty());
        }
    }
}

/// Blank lines after a body are not part of it.
pub proof fn law_blank_lines_after_the_body(ls: Seq<Seq<char>>, blank: Seq<char>)
    requires
        all_white(blank),
    ensures
        body_of(ls.push(blank)) == body_of(ls),
{
    lemma_blank(blank);
    lemma_openings(trim_start(blank));
    assert(ls.push(blank).drop_last() =~= ls);
    assert(uncommented(ls.push(blank)) == uncommented(ls).push(blank));
    assert(uncommented(ls).push(blank).drop_last() =~= uncommented(ls));
}

}

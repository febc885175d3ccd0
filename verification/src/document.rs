//! The `.http` format: file variables and requests.

use vstd::prelude::*;

use crate::scan::{
    after_prefix, begins_with, equal, halves, join, line_list, trimmed, trimmed_start, uppercase, without_leading, word,
};
use crate::table::Table;
use crate::text::{chars, string};

verus! {

use crate::text::{
    after_word, drop_leading, first_word, joined, lemma_lines_ended, lemma_lines_joined, lemma_trim_end_keeps,
    lemma_until_at, line_breaks, lines, opt_text, split_once, starts_with, strip_prefix, trim, trim_start, upper_all,
    views,
};

/// Whether Unicode counts a character as a letter or a digit.
pub uninterp spec fn alphanumeric(c: char) -> bool;

/// `char::is_alphanumeric` tells whether a character has the Unicode property
/// `Alphabetic` or is in a numeric category. Among the ASCII characters those
/// are the letters and the digits.
pub assume_specification[ char::is_alphanumeric ](c: char) -> (r: bool)
    ensures
        r == alphanumeric(c),
        (c as u32) < 0x80 ==> r == ('a' <= c <= 'z' || 'A' <= c <= 'Z' || '0' <= c <= '9'),
;

/// One request of a document.
pub struct HttpRequest {
    /// What `# @name` calls it.
    pub name: Option<String>,
    /// The line of the method, counted from zero: where the code lens sits.
    pub line: u32,
    pub method: String,
    pub url: String,
    pub headers: Vec<(String, String)>,
    pub body: Option<String>,
    /// What `# @timeout` says, not yet read as a number.
    pub timeout_raw: Option<String>,
}

/// A request in mathematical terms.
pub struct RequestView {
    pub name: Option<Seq<char>>,
    pub line: u32,
    pub method: Seq<char>,
    pub url: Seq<char>,
    pub headers: Seq<(Seq<char>, Seq<char>)>,
    pub body: Option<Seq<char>>,
    pub timeout_raw: Option<Seq<char>>,
}

/// The view of a list of pairs of texts.
pub open spec fn pairs(s: Seq<(String, String)>) -> Seq<(Seq<char>, Seq<char>)> {
    Seq::new(s.len(), |i: int| (s[i].0@, s[i].1@))
}

impl View for HttpRequest {
    type V = RequestView;

    open spec fn view(&self) -> RequestView {
        RequestView {
            name: opt_text(self.name),
            line: self.line,
            method: self.method@,
            url: self.url@,
            headers: pairs(self.headers@),
            body: opt_text(self.body),
            timeout_raw: opt_text(self.timeout_raw),
        }
    }
}

/// What a document holds.
pub struct DocumentView {
    pub vars: Map<Seq<char>, Seq<char>>,
    pub requests: Seq<RequestView>,
}

/// Whether a word names an HTTP method, in either case.
pub open spec fn is_method(s: Seq<char>) -> bool {
    let u = upper_all(s);
    ||| u == "GET"@
    ||| u == "POST"@
    ||| u == "PUT"@
    ||| u == "DELETE"@
    ||| u == "PATCH"@
    ||| u == "HEAD"@
    ||| u == "OPTIONS"@
    ||| u == "TRACE"@
    ||| u == "CONNECT"@
}

/// Whether a line, without its indentation, separates requests.
pub open spec fn is_separator(t: Seq<char>) -> bool {
    starts_with(t, "###"@)
}

/// Whether a line, without its indentation, is a comment.
pub open spec fn is_comment(t: Seq<char>) -> bool {
    starts_with(t, "#"@) || starts_with(t, "//"@)
}

/// Whether a line, without its indentation, continues a query string.
pub open spec fn is_query(t: Seq<char>) -> bool {
    starts_with(t, "?"@) || starts_with(t, "&"@)
}

/// Whether a text can name a file variable.
pub open spec fn is_variable_name(k: Seq<char>) -> bool {
    k.len() > 0 && forall|i: int| 0 <= i < k.len() ==> alphanumeric(#[trigger] k[i]) || k[i] == '_'
}

/// The file variable that a line `@name = value` declares.
pub open spec fn variable(t: Seq<char>) -> Option<(Seq<char>, Seq<char>)> {
    match strip_prefix(t, "@"@) {
        Some(rest) => match split_once(rest, '=') {
            Some((k, v)) => if is_variable_name(trim(k)) {
                Some((trim(k), trim(v)))
            } else {
                None
            },
            None => None,
        },
        None => None,
    }
}

/// A comment without its marks.
pub open spec fn comment_text(t: Seq<char>) -> Seq<char> {
    trim(drop_leading(t, "#/"@))
}

/// The name for the next request after a comment line.
pub open spec fn name_after(t: Seq<char>, current: Option<Seq<char>>) -> Option<Seq<char>> {
    match strip_prefix(comment_text(t), "@name"@) {
        Some(n) => Some(trim(n)),
        None => current,
    }
}

/// The timeout text for the next request after a comment line.
pub open spec fn timeout_after(t: Seq<char>, current: Option<Seq<char>>) -> Option<Seq<char>> {
    if strip_prefix(comment_text(t), "@name"@) is Some {
        current
    } else {
        match strip_prefix(comment_text(t), "@timeout"@) {
            Some(n) => Some(trim(n)),
            None => current,
        }
    }
}

/// Whether the lines below a request line stop before this one: a blank line
/// or a separator.
pub open spec fn ends_head(l: Seq<char>) -> bool {
    trim(l).len() == 0 || is_separator(trim(l))
}

/// The first line at or after `i` that ends the head of a request.
pub open spec fn head_end(ls: Seq<Seq<char>>, i: int) -> int
    decreases ls.len() - i,
{
    if i < 0 || i >= ls.len() || ends_head(ls[i]) {
        i
    } else {
        head_end(ls, i + 1)
    }
}

/// The query string that the lines of a head add to the URL.
pub open spec fn query_tail(ls: Seq<Seq<char>>) -> Seq<char>
    decreases ls.len(),
{
    if ls.len() == 0 {
        seq![]
    } else if is_query(trim(ls.last())) {
        query_tail(ls.drop_last()) + trim(ls.last())
    } else {
        query_tail(ls.drop_last())
    }
}

/// The header that a line of a head gives.
pub open spec fn header(l: Seq<char>) -> Option<(Seq<char>, Seq<char>)> {
    if is_comment(trim(l)) || is_query(trim(l)) {
        None
    } else {
        match split_once(l, ':') {
            Some((k, v)) => if trim(k).len() > 0 {
                Some((trim(k), trim(v)))
            } else {
                None
            },
            None => None,
        }
    }
}

/// The headers that the lines of a head give, in order.
pub open spec fn header_list(ls: Seq<Seq<char>>) -> Seq<(Seq<char>, Seq<char>)>
    decreases ls.len(),
{
    if ls.len() == 0 {
        seq![]
    } else {
        match header(ls.last()) {
            Some(h) => header_list(ls.drop_last()).push(h),
            None => header_list(ls.drop_last()),
        }
    }
}

/// Where the body of a request begins: one blank line after the head is skipped.
pub open spec fn body_start(ls: Seq<Seq<char>>, i: int) -> int {
    let e = head_end(ls, i);
    if e < ls.len() && trim(ls[e]).len() == 0 {
        e + 1
    } else {
        e
    }
}

/// The first separator at or after `i`.
pub open spec fn body_end(ls: Seq<Seq<char>>, i: int) -> int
    decreases ls.len() - i,
{
    if i < 0 || i >= ls.len() || is_separator(trim_start(ls[i])) {
        i
    } else {
        body_end(ls, i + 1)
    }
}

/// The lines that are no comments.
pub open spec fn uncommented(ls: Seq<Seq<char>>) -> Seq<Seq<char>>
    decreases ls.len(),
{
    if ls.len() == 0 {
        seq![]
    } else if is_comment(trim_start(ls.last())) {
        uncommented(ls.drop_last())
    } else {
        uncommented(ls.drop_last()).push(ls.last())
    }
}

/// The lines without the blank ones at the end.
pub open spec fn without_blank_tail(ls: Seq<Seq<char>>) -> Seq<Seq<char>>
    decreases ls.len(),
{
    if ls.len() > 0 && trim(ls.last()).len() == 0 {
        without_blank_tail(ls.drop_last())
    } else {
        ls
    }
}

/// The body that some lines make up.
pub open spec fn body_of(ls: Seq<Seq<char>>) -> Option<Seq<char>> {
    let kept = without_blank_tail(uncommented(ls));
    if kept.len() == 0 {
        None
    } else {
        Some(joined(kept, "\n"@))
    }
}

/// The number of a line, as the protocol carries it.
pub open spec fn line_number(i: int) -> u32 {
    (i % 0x1_0000_0000) as u32
}

/// The request whose method stands on line `i`.
pub open spec fn request_at(
    ls: Seq<Seq<char>>,
    i: int,
    name: Option<Seq<char>>,
    timeout: Option<Seq<char>>,
) -> RequestView {
    let head = ls.subrange(i + 1, head_end(ls, i + 1));
    let start = body_start(ls, i + 1);
    RequestView {
        name,
        line: line_number(i),
        method: first_word(ls[i]),
        url: first_word(after_word(ls[i])) + query_tail(head),
        headers: header_list(head),
        body: body_of(ls.subrange(start, body_end(ls, start))),
        timeout_raw: timeout,
    }
}

proof fn lemma_ends(ls: Seq<Seq<char>>, i: int)
    requires
        0 <= i <= ls.len(),
    ensures
        i <= head_end(ls, i) <= ls.len(),
        i <= body_end(ls, i) <= ls.len(),
    decreases ls.len() - i,
{
    if i < ls.len() {
        lemma_ends(ls, i + 1);
    }
}

/// Where the body of a request lies.
pub proof fn lemma_body_start(ls: Seq<Seq<char>>, i: int)
    requires
        0 <= i <= ls.len(),
    ensures
        i <= body_start(ls, i) <= ls.len(),
        i <= body_end(ls, body_start(ls, i)) <= ls.len(),
{
    lemma_ends(ls, i);
    lemma_ends(ls, body_start(ls, i));
}

/// What the lines from `i` on add to `found`, with the name and the timeout
/// that the comments above have set for the next request.
pub open spec fn document_from(
    ls: Seq<Seq<char>>,
    i: int,
    name: Option<Seq<char>>,
    timeout: Option<Seq<char>>,
    found: DocumentView,
) -> DocumentView
    decreases ls.len() - i,
{
    if i < 0 || i >= ls.len() {
        found
    } else {
        let t = trim_start(ls[i]);
        if is_separator(t) {
            document_from(ls, i + 1, None, None, found)
        } else if let Some((k, v)) = variable(t) {
            document_from(ls, i + 1, name, timeout, DocumentView { vars: found.vars.insert(k, v), ..found })
        } else if is_comment(t) {
            document_from(ls, i + 1, name_after(t, name), timeout_after(t, timeout), found)
        } else if is_method(first_word(t)) {
            proof {
                lemma_body_start(ls, i + 1);
            }
            document_from(
                ls,
                body_end(ls, body_start(ls, i + 1)),
                None,
                None,
                DocumentView { requests: found.requests.push(request_at(ls, i, name, timeout)), ..found },
            )
        } else {
            document_from(ls, i + 1, name, timeout, found)
        }
    }
}

/// The variables and the requests of a document.
pub open spec fn document(text: Seq<char>) -> DocumentView {
    document_from(
        lines(text),
        0,
        None,
        None,
        DocumentView { vars: Map::empty(), requests: seq![] },
    )
}

/// Whether a word names an HTTP method.
fn method_word(s: &[char]) -> (r: bool)
    ensures
        r == is_method(s@),
{
    let u = uppercase(s);
    let w = u.as_slice();
    word_is(w, "GET") || word_is(w, "POST") || word_is(w, "PUT") || word_is(w, "DELETE") || word_is(w, "PATCH")
        || word_is(w, "HEAD") || word_is(w, "OPTIONS") || word_is(w, "TRACE") || word_is(w, "CONNECT")
}

fn word_is(s: &[char], w: &str) -> (r: bool)
    ensures
        r == (s@ == w@),
{
    let c = chars(w);
    equal(s, c.as_slice())
}

/// Whether a text names an HTTP method, in either case.
pub fn is_http_method(s: &str) -> (r: bool)
    ensures
        r == is_method(s@),
{
    let c = chars(s);
    method_word(c.as_slice())
}

fn comment_line(t: &[char]) -> (r: bool)
    ensures
        r == is_comment(t@),
{
    begins_with(t, "#") || begins_with(t, "//")
}

fn query_line(t: &[char]) -> (r: bool)
    ensures
        r == is_query(t@),
{
    begins_with(t, "?") || begins_with(t, "&")
}

fn variable_name(k: &[char]) -> (r: bool)
    ensures
        r == is_variable_name(k@),
{
    let mut i: usize = 0;
    while i < k.len()
        invariant
            i <= k@.len(),
            forall|j: int| 0 <= j < i ==> alphanumeric(#[trigger] k@[j]) || k@[j] == '_',
        decreases k@.len() - i,
    {
        let c: char = k[i];
        if !c.is_alphanumeric() && c != '_' {
            return false;
        }
        i = i + 1;
    }
    k.len() > 0
}

/// The file variable that a line declares.
fn declared(t: &[char]) -> (r: Option<(String, String)>)
    ensures
        match r {
            Some((k, v)) => variable(t@) == Some((k@, v@)),
            None => variable(t@) is None,
        },
{
    match after_prefix(t, "@") {
        Some(rest) => match halves(rest, '=') {
            Some((k, v)) => {
                let key = trimmed(k);
                if variable_name(key) {
                    Some((string(key), string(trimmed(v))))
                } else {
                    None
                }
            },
            None => None,
        },
        None => None,
    }
}

/// The head of the request whose lines begin at `start`: where it ends, what
/// it adds to the URL, and its headers.
fn read_head(ls: &Vec<&[char]>, start: usize) -> (r: (usize, String, Vec<(String, String)>))
    requires
        start <= ls@.len(),
    ensures
        r.0 == head_end(views(ls@), start as int),
        start <= r.0 <= ls@.len(),
        r.1@ == query_tail(views(ls@).subrange(start as int, r.0 as int)),
        pairs(r.2@) == header_list(views(ls@).subrange(start as int, r.0 as int)),
{
    let ghost all = views(ls@);
    let mut query = String::new();
    let mut headers: Vec<(String, String)> = Vec::new();
    let mut i: usize = start;
    assert(all.subrange(start as int, start as int) =~= seq![]);
    assert(pairs(headers@) =~= seq![]);
    while i < ls.len()
        invariant
            start <= i <= ls@.len(),
            all == views(ls@),
            head_end(all, start as int) == head_end(all, i as int),
            query@ == query_tail(all.subrange(start as int, i as int)),
            pairs(headers@) == header_list(all.subrange(start as int, i as int)),
        decreases ls@.len() - i,
    {
        let l: &[char] = ls[i];
        assert(l@ == all[i as int]);
        let t = trimmed(l);
        if t.len() == 0 || begins_with(t, "###") {
            return (i, query, headers);
        }
        let ghost seen = all.subrange(start as int, i + 1);
        assert(seen.drop_last() =~= all.subrange(start as int, i as int));
        assert(seen.last() == l@);
        proof {
            reveal_strlit("#");
            reveal_strlit("//");
            reveal_strlit("?");
            reveal_strlit("&");
            if is_comment(t@) && is_query(t@) {
                assert(t@[0] == t@.subrange(0, 1)[0]);
                if starts_with(t@, "//"@) {
                    assert(t@[0] == t@.subrange(0, 2)[0]);
                }
            }
        }
        if comment_line(t) {
            i = i + 1;
            continue ;
        }
        if query_line(t) {
            query.append(string(t).as_str());
            i = i + 1;
            continue ;
        }
        if let Some((k, v)) = halves(l, ':') {
            let key = trimmed(k);
            if key.len() > 0 {
                let ghost before = headers@;
                headers.push((string(key), string(trimmed(v))));
                assert(pairs(headers@) =~= pairs(before).push((trim(k@), trim(v@))));
            }
        }
        i = i + 1;
    }
    (i, query, headers)
}

/// The body whose lines begin at `start`, and where it ends.
fn read_body(ls: &Vec<&[char]>, start: usize) -> (r: (usize, Option<String>))
    requires
        start <= ls@.len(),
    ensures
        r.0 == body_end(views(ls@), start as int),
        start <= r.0 <= ls@.len(),
        opt_text(r.1) == body_of(views(ls@).subrange(start as int, r.0 as int)),
{
    let ghost all = views(ls@);
    let mut kept: Vec<&[char]> = Vec::new();
    let mut i: usize = start;
    assert(all.subrange(start as int, start as int) =~= seq![]);
    assert(views(kept@) =~= seq![]);
    while i < ls.len() && !begins_with(trimmed_start(ls[i]), "###")
        invariant
            start <= i <= ls@.len(),
            all == views(ls@),
            body_end(all, start as int) == body_end(all, i as int),
            views(kept@) == uncommented(all.subrange(start as int, i as int)),
        decreases ls@.len() - i,
    {
        let l: &[char] = ls[i];
        let ghost seen = all.subrange(start as int, i + 1);
        assert(seen.drop_last() =~= all.subrange(start as int, i as int));
        assert(seen.last() == l@);
        if !comment_line(trimmed_start(l)) {
            let ghost before = kept@;
            kept.push(l);
            assert(views(kept@) =~= views(before).push(l@));
        }
        i = i + 1;
    }
    assert(i < ls@.len() ==> ls@[i as int]@ == all[i as int]);
    let ghost region = all.subrange(start as int, i as int);
    let mut n: usize = kept.len();
    assert(views(kept@).take(n as int) =~= views(kept@));
    while n > 0 && trimmed(kept[n - 1]).len() == 0
        invariant
            n <= kept@.len(),
            without_blank_tail(uncommented(region)) == without_blank_tail(views(kept@).take(n as int)),
        decreases n,
    {
        assert(views(kept@).take(n as int).drop_last() =~= views(kept@).take(n - 1));
        assert(views(kept@).take(n as int).last() == kept@[n - 1]@);
        n = n - 1;
    }
    let ghost last = views(kept@).take(n as int);
    assert(n > 0 ==> last.last() == kept@[n - 1]@);
    assert(without_blank_tail(last) == last);
    if n == 0 {
        return (i, None);
    }
    let mut texts: Vec<String> = Vec::new();
    let mut j: usize = 0;
    while j < n
        invariant
            j <= n <= kept@.len(),
            views(texts@) =~= views(kept@).take(j as int),
        decreases n - j,
    {
        let ghost before = texts@;
        texts.push(string(kept[j]));
        assert(views(texts@) =~= views(before).push(kept@[j as int]@));
        j = j + 1;
    }
    (i, Some(join(&texts, "\n")))
}

/// The file variables (`@name = value`) and the requests of a document.
pub fn parse_document(text: &str) -> (r: (Table<String>, Vec<HttpRequest>))
    ensures
        r.0@ == document(text@).vars,
        views(r.1@) == document(text@).requests,
{
    let source = chars(text);
    let ls = line_list(source.as_slice());
    let ghost all = views(ls@);
    let mut vars: Table<String> = Table::new();
    let mut reqs: Vec<HttpRequest> = Vec::new();
    let mut name: Option<String> = None;
    let mut timeout: Option<String> = None;
    let mut i: usize = 0;
    assert(views(reqs@) =~= seq![]);
    while i < ls.len()
        invariant
            i <= ls@.len(),
            all == views(ls@),
            all == lines(text@),
            document(text@) == document_from(
                all,
                i as int,
                opt_text(name),
                opt_text(timeout),
                DocumentView { vars: vars@, requests: views(reqs@) },
            ),
        decreases ls@.len() - i,
    {
        let raw: &[char] = ls[i];
        assert(raw@ == all[i as int]);
        let t = trimmed_start(raw);
        if begins_with(t, "###") {
            name = None;
            timeout = None;
            i = i + 1;
            continue ;
        }
        if let Some((k, v)) = declared(t) {
            let _ = vars.insert(k, v);
            i = i + 1;
            continue ;
        }
        if comment_line(t) {
            let content = trimmed(without_leading(t, "#/"));
            if let Some(n) = after_prefix(content, "@name") {
                name = Some(string(trimmed(n)));
            } else if let Some(n) = after_prefix(content, "@timeout") {
                timeout = Some(string(trimmed(n)));
            }
            i = i + 1;
            continue ;
        }
        proof {
            lemma_trim_start_twice(raw@);
        }
        let (method, rest) = word(t);
        if !method_word(method) {
            i = i + 1;
            continue ;
        }
        let (target, _) = word(rest);
        let mut url = string(target);
        let line: u32 = (i as u64 % 0x1_0000_0000u64) as u32;
        let (end, query, headers) = read_head(&ls, i + 1);
        url.append(query.as_str());
        let begin: usize = if end < ls.len() && trimmed(ls[end]).len() == 0 {
            end + 1
        } else {
            end
        };
        assert(end < ls@.len() ==> ls@[end as int]@ == all[end as int]);
        assert(begin == body_start(all, i + 1));
        let (next, body) = read_body(&ls, begin);
        let ghost before = reqs@;
        let ghost expected = request_at(all, i as int, opt_text(name), opt_text(timeout));
        let req = HttpRequest {
            name,
            line,
            method: string(method),
            url,
            headers,
            body,
            timeout_raw: timeout,
        };
        assert(req@ == expected);
        reqs.push(req);
        assert(views(reqs@) =~= views(before).push(expected));
        name = None;
        timeout = None;
        i = next;
    }
    (vars, reqs)
}

proof fn lemma_trim_start_twice(s: Seq<char>)
    ensures
        trim_start(trim_start(s)) == trim_start(s),
        first_word(trim_start(s)) == first_word(s),
        after_word(trim_start(s)) == after_word(s),
    decreases s.len(),
{
    if s.len() > 0 && crate::text::is_white(s[0]) {
        lemma_trim_start_twice(s.drop_first());
    }
}

proof fn lemma_uncommented_joined(a: Seq<Seq<char>>, b: Seq<Seq<char>>)
    ensures
        uncommented(a + b) == uncommented(a) + uncommented(b),
    decreases b.len(),
{
    if b.len() == 0 {
        assert(a + b =~= a);
        assert(uncommented(a) + uncommented(b) =~= uncommented(a));
    } else {
        assert((a + b).drop_last() =~= a + b.drop_last());
        assert((a + b).last() == b.last());
        lemma_uncommented_joined(a, b.drop_last());
        assert(uncommented(a + b) =~= uncommented(a) + uncommented(b));
    }
}

/// A comment among or after the lines of a body does not end up in the body.
pub proof fn law_comments_stay_out_of_the_body(
    before: Seq<Seq<char>>,
    comment: Seq<char>,
    after: Seq<Seq<char>>,
)
    requires
        is_comment(trim_start(comment)),
    ensures
        body_of(before + seq![comment] + after) == body_of(before + after),
{
    reveal_with_fuel(uncommented, 2);
    lemma_uncommented_joined(before + seq![comment], after);
    lemma_uncommented_joined(before, seq![comment]);
    lemma_uncommented_joined(before, after);
    assert(seq![comment].drop_last() =~= seq![]);
    assert(uncommented(seq![comment]) =~= seq![]);
    assert(uncommented(before) + uncommented(seq![comment]) =~= uncommented(before));
}

proof fn lemma_query_joined(a: Seq<Seq<char>>, b: Seq<Seq<char>>)
    ensures
        query_tail(a + b) == query_tail(a) + query_tail(b),
        header_list(a + b) == header_list(a) + header_list(b),
    decreases b.len(),
{
    if b.len() == 0 {
        assert(a + b =~= a);
        assert(query_tail(a) + query_tail(b) =~= query_tail(a));
        assert(header_list(a) + header_list(b) =~= header_list(a));
    } else {
        assert((a + b).drop_last() =~= a + b.drop_last());
        assert((a + b).last() == b.last());
        lemma_query_joined(a, b.drop_last());
        assert(query_tail(a + b) =~= query_tail(a) + query_tail(b));
        assert(header_list(a + b) =~= header_list(a) + header_list(b));
    }
}

/// A comment among the lines below a request line, such as a query parameter that
/// is commented out, changes neither the URL nor the headers.
pub proof fn law_comments_stay_out_of_the_head(
    before: Seq<Seq<char>>,
    comment: Seq<char>,
    after: Seq<Seq<char>>,
)
    requires
        is_comment(trim(comment)),
    ensures
        query_tail(before + seq![comment] + after) == query_tail(before + after),
        header_list(before + seq![comment] + after) == header_list(before + after),
{
    reveal_with_fuel(query_tail, 2);
    reveal_with_fuel(header_list, 2);
    reveal_strlit("#");
    reveal_strlit("//");
    reveal_strlit("?");
    reveal_strlit("&");
    let t = trim(comment);
    assert(!is_query(t)) by {
        if starts_with(t, "#"@) {
            assert(t.subrange(0, 1)[0] == t[0]);
        } else {
            assert(t.subrange(0, 2)[0] == t[0]);
        }
        if starts_with(t, "?"@) {
            assert(t.subrange(0, 1)[0] == t[0]);
        }
        if starts_with(t, "&"@) {
            assert(t.subrange(0, 1)[0] == t[0]);
        }
    }
    lemma_query_joined(before + seq![comment], after);
    lemma_query_joined(before, seq![comment]);
    lemma_query_joined(before, after);
    assert(seq![comment].drop_last() =~= seq![]);
    assert(query_tail(seq![comment]) =~= seq![]);
    assert(header_list(seq![comment]) =~= seq![]);
    assert(query_tail(before) + query_tail(seq![comment]) =~= query_tail(before));
    assert(header_list(before) + header_list(seq![comment]) =~= header_list(before));
}

/// Whether requests stand on lines below `end`, in order, each on a line whose first
/// word is its method.
pub open spec fn in_order(ls: Seq<Seq<char>>, reqs: Seq<RequestView>, end: int) -> bool {
    &&& forall|i: int|
        0 <= i < reqs.len() ==> (#[trigger] reqs[i]).line < end && is_method(first_word(trim_start(ls[reqs[i].line as int])))
            && reqs[i].method == first_word(ls[reqs[i].line as int])
    &&& forall|i: int, j: int| 0 <= i < j < reqs.len() ==> (#[trigger] reqs[i]).line < (#[trigger] reqs[j]).line
}

proof fn lemma_in_order(
    ls: Seq<Seq<char>>,
    i: int,
    name: Option<Seq<char>>,
    timeout: Option<Seq<char>>,
    found: DocumentView,
)
    requires
        0 <= i <= ls.len() <= 0x1_0000_0000,
        in_order(ls, found.requests, i),
    ensures
        in_order(ls, document_from(ls, i, name, timeout, found).requests, ls.len() as int),
    decreases ls.len() - i,
{
    if i < ls.len() {
        let t = trim_start(ls[i]);
        if is_separator(t) {
            lemma_in_order(ls, i + 1, None, None, found);
        } else if let Some((k, v)) = variable(t) {
            lemma_in_order(ls, i + 1, name, timeout, DocumentView { vars: found.vars.insert(k, v), ..found });
        } else if is_comment(t) {
            lemma_in_order(ls, i + 1, name_after(t, name), timeout_after(t, timeout), found);
        } else if is_method(first_word(t)) {
            lemma_body_start(ls, i + 1);
            let end = body_end(ls, body_start(ls, i + 1));
            let r = request_at(ls, i, name, timeout);
            let more = DocumentView { requests: found.requests.push(r), ..found };
            assert(r.line == i);
            assert forall|a: int, b: int| 0 <= a < b < more.requests.len() implies (#[trigger] more.requests[a]).line < (
            #[trigger] more.requests[b]).line by {
                if b < found.requests.len() {
                    assert(found.requests[a].line < found.requests[b].line);
                } else {
                    assert(found.requests[a].line < i);
                }
            }
            lemma_in_order(ls, end, None, None, more);
        } else {
            lemma_in_order(ls, i + 1, name, timeout, found);
        }
    }
}

/// Each request stands on a line of its own, whose first word is its method, and
/// the requests come in the order of their lines. So a line names at most one
/// request.
pub proof fn law_requests_stand_on_their_lines(text: Seq<char>)
    requires
        lines(text).len() <= 0x1_0000_0000,
    ensures
        in_order(lines(text), document(text).requests, lines(text).len() as int),
{
    lemma_in_order(lines(text), 0, None, None, DocumentView { vars: Map::empty(), requests: seq![] });
}

/// The lines at some places.
pub open spec fn lines_at(ls: Seq<Seq<char>>, places: Seq<int>) -> Seq<Seq<char>> {
    Seq::new(places.len(), |j: int| ls[places[j]])
}

/// Whether places are those of lines below `from`, in order, none of them a comment.
pub open spec fn uncommented_places(ls: Seq<Seq<char>>, from: int, places: Seq<int>) -> bool {
    &&& forall|j: int|
        0 <= j < places.len() ==> from < (#[trigger] places[j]) < ls.len() && !is_comment(trim_start(ls[places[j]]))
    &&& forall|j: int, k: int| 0 <= j < k < places.len() ==> (#[trigger] places[j]) < (#[trigger] places[k])
}

/// Whether a body is made of the lines at some places below `from`, as they are and
/// in order: none of them is a comment, and the last one is not blank.
pub open spec fn body_from(ls: Seq<Seq<char>>, from: int, places: Seq<int>, body: Seq<char>) -> bool {
    &&& uncommented_places(ls, from, places)
    &&& places.len() > 0
    &&& trim(ls[places.last()]).len() > 0
    &&& body == joined(lines_at(ls, places), "\n"@)
}

/// Where the lines that are no comments stand among those from `start` to `end`.
proof fn lemma_uncommented_places(ls: Seq<Seq<char>>, start: int, end: int) -> (places: Seq<int>)
    requires
        0 <= start <= end <= ls.len(),
    ensures
        uncommented_places(ls, start - 1, places),
        forall|j: int| 0 <= j < places.len() ==> (#[trigger] places[j]) < end,
        lines_at(ls, places) == uncommented(ls.subrange(start, end)),
    decreases end - start,
{
    let part = ls.subrange(start, end);
    if start == end {
        let places: Seq<int> = seq![];
        assert(lines_at(ls, places) =~= uncommented(part));
        places
    } else {
        let before = lemma_uncommented_places(ls, start, end - 1);
        assert(part.drop_last() =~= ls.subrange(start, end - 1));
        assert(part.last() == ls[end - 1]);
        if is_comment(trim_start(ls[end - 1])) {
            before
        } else {
            let places = before.push(end - 1);
            assert(lines_at(ls, places) =~= lines_at(ls, before).push(ls[end - 1]));
            places
        }
    }
}

/// Without the blank lines at the end, some lines end in one that is not blank.
proof fn lemma_blank_tail(ls: Seq<Seq<char>>)
    ensures
        without_blank_tail(ls).len() <= ls.len(),
        without_blank_tail(ls) == ls.take(without_blank_tail(ls).len() as int),
        without_blank_tail(ls).len() > 0 ==> trim(without_blank_tail(ls).last()).len() > 0,
    decreases ls.len(),
{
    if ls.len() > 0 && trim(ls.last()).len() == 0 {
        lemma_blank_tail(ls.drop_last());
        let n = without_blank_tail(ls).len() as int;
        assert(ls.drop_last().take(n) =~= ls.take(n));
    } else {
        assert(ls.take(ls.len() as int) =~= ls);
    }
}

/// Where the lines of the body stand that the lines from `start` to `end` make up.
proof fn lemma_body_from(ls: Seq<Seq<char>>, from: int, start: int, end: int) -> (places: Seq<int>)
    requires
        0 <= start <= end <= ls.len(),
        from < start,
    ensures
        body_of(ls.subrange(start, end)) is Some ==> body_from(
            ls,
            from,
            places,
            body_of(ls.subrange(start, end))->0,
        ),
{
    let all = lemma_uncommented_places(ls, start, end);
    let kept = without_blank_tail(uncommented(ls.subrange(start, end)));
    lemma_blank_tail(uncommented(ls.subrange(start, end)));
    let places = all.take(kept.len() as int);
    assert(lines_at(ls, places) =~= kept);
    if kept.len() > 0 {
        assert(kept.last() == ls[places.last()]);
    }
    places
}

/// Whether the body of each request is made of lines below its own one.
pub open spec fn bodies_from(ls: Seq<Seq<char>>, reqs: Seq<RequestView>) -> bool {
    forall|i: int|
        0 <= i < reqs.len() ==> ((#[trigger] reqs[i]).body matches Some(b) ==> exists|places: Seq<int>|
            #[trigger] body_from(ls, reqs[i].line as int, places, b))
}

proof fn lemma_bodies_from(
    ls: Seq<Seq<char>>,
    i: int,
    name: Option<Seq<char>>,
    timeout: Option<Seq<char>>,
    found: DocumentView,
)
    requires
        0 <= i <= ls.len() <= 0x1_0000_0000,
        bodies_from(ls, found.requests),
    ensures
        bodies_from(ls, document_from(ls, i, name, timeout, found).requests),
    decreases ls.len() - i,
{
    if i < ls.len() {
        let t = trim_start(ls[i]);
        if is_separator(t) {
            lemma_bodies_from(ls, i + 1, None, None, found);
        } else if let Some((k, v)) = variable(t) {
            lemma_bodies_from(ls, i + 1, name, timeout, DocumentView { vars: found.vars.insert(k, v), ..found });
        } else if is_comment(t) {
            lemma_bodies_from(ls, i + 1, name_after(t, name), timeout_after(t, timeout), found);
        } else if is_method(first_word(t)) {
            lemma_body_start(ls, i + 1);
            let start = body_start(ls, i + 1);
            let end = body_end(ls, start);
            lemma_ends(ls, start);
            let r = request_at(ls, i, name, timeout);
            let more = DocumentView { requests: found.requests.push(r), ..found };
            assert(r.line == i);
            let places = lemma_body_from(ls, i, start, end);
            assert(r.body matches Some(b) ==> body_from(ls, r.line as int, places, b));
            assert forall|j: int| 0 <= j < more.requests.len() implies ((#[trigger] more.requests[j]).body matches Some(
                b,
            ) ==> exists|places: Seq<int>| #[trigger] body_from(ls, more.requests[j].line as int, places, b)) by {
                if j < found.requests.len() {
                    assert(more.requests[j] == found.requests[j]);
                }
            }
            lemma_bodies_from(ls, end, None, None, more);
        } else {
            lemma_bodies_from(ls, i + 1, name, timeout, found);
        }
    }
}

/// A body is made of lines of the text below the request line, unchanged and in
/// their order. No comment is among them, and the last one is not blank.
pub proof fn law_bodies_are_lines_of_the_text(text: Seq<char>)
    requires
        lines(text).len() <= 0x1_0000_0000,
    ensures
        bodies_from(lines(text), document(text).requests),
{
    lemma_bodies_from(lines(text), 0, None, None, DocumentView { vars: Map::empty(), requests: seq![] });
}

/// Requests with their lines moved down.
pub open spec fn shifted(reqs: Seq<RequestView>, by: int) -> Seq<RequestView> {
    Seq::new(reqs.len(), |i: int| RequestView { line: line_number(reqs[i].line + by), ..reqs[i] })
}

/// A blank line after the lines of a body changes nothing of the body.
proof fn lemma_blank_after_body(ls: Seq<Seq<char>>)
    ensures
        body_of(ls.push(seq![])) == body_of(ls),
{
    let blank: Seq<char> = seq![];
    let all = ls.push(blank);
    assert(all.drop_last() =~= ls);
    reveal_strlit("#");
    reveal_strlit("//");
    assert(!is_comment(trim_start(blank)));
    assert(uncommented(all) == uncommented(ls).push(blank));
    assert(uncommented(all).drop_last() =~= uncommented(ls));
    assert(trim(blank).len() == 0);
}

/// Where the head and the body of a request end, with a blank line after the lines.
proof fn lemma_ends_before_blank(ls: Seq<Seq<char>>, i: int)
    requires
        0 <= i <= ls.len(),
    ensures
        head_end(ls.push(seq![]), i) == head_end(ls, i),
        body_end(ls, i) < ls.len() ==> body_end(ls.push(seq![]), i) == body_end(ls, i),
        body_end(ls, i) == ls.len() ==> body_end(ls.push(seq![]), i) == ls.len() + 1,
    decreases ls.len() - i,
{
    let all = ls.push(seq![]);
    reveal_strlit("###");
    if i < ls.len() {
        assert(all[i] == ls[i]);
        lemma_ends_before_blank(ls, i + 1);
    } else {
        assert(all[i].len() == 0);
        assert(trim(all[i]).len() == 0);
        assert(!is_separator(trim_start(all[i])));
        assert(body_end(all, i + 1) == i + 1);
    }
}

/// A blank line at the end of a document changes nothing.
proof fn lemma_blank_at_end(
    ls: Seq<Seq<char>>,
    i: int,
    name: Option<Seq<char>>,
    timeout: Option<Seq<char>>,
    found: DocumentView,
)
    requires
        0 <= i <= ls.len(),
    ensures
        document_from(ls.push(seq![]), i, name, timeout, found) == document_from(ls, i, name, timeout, found),
    decreases ls.len() - i,
{
    let all = ls.push(seq![]);
    if i == ls.len() {
        reveal_strlit("###");
        reveal_strlit("@");
        reveal_strlit("#");
        reveal_strlit("//");
        let t = trim_start(all[i]);
        assert(t.len() == 0);
        assert(!is_method(first_word(t))) by {
            lemma_no_method(t);
        }
        assert(document_from(all, i + 1, name, timeout, found) == found);
    } else {
        assert(all[i] == ls[i]);
        let t = trim_start(ls[i]);
        if is_separator(t) {
            lemma_blank_at_end(ls, i + 1, None, None, found);
        } else if let Some((k, v)) = variable(t) {
            lemma_blank_at_end(ls, i + 1, name, timeout, DocumentView { vars: found.vars.insert(k, v), ..found });
        } else if is_comment(t) {
            lemma_blank_at_end(ls, i + 1, name_after(t, name), timeout_after(t, timeout), found);
        } else if is_method(first_word(t)) {
            lemma_body_start(ls, i + 1);
            lemma_body_start(all, i + 1);
            lemma_ends(ls, i + 1);
            lemma_ends_before_blank(ls, i + 1);
            let e = head_end(ls, i + 1);
            let start = body_start(ls, i + 1);
            let end = body_end(ls, start);
            lemma_ends(ls, start);
            let more = DocumentView { requests: found.requests.push(request_at(ls, i, name, timeout)), ..found };
            assert(all.subrange(i + 1, e) =~= ls.subrange(i + 1, e));
            if e < ls.len() {
                assert(all[e] == ls[e]);
                assert(body_start(all, i + 1) == start);
                lemma_ends_before_blank(ls, start);
                if end < ls.len() {
                    assert(all.subrange(start, end) =~= ls.subrange(start, end));
                } else {
                    assert(all.subrange(start, end + 1) =~= ls.subrange(start, end).push(seq![]));
                    lemma_blank_after_body(ls.subrange(start, end));
                }
            } else {
                assert(trim(all[e]).len() == 0);
                assert(start == e && end == e);
                assert(body_start(all, i + 1) == e + 1);
                assert(body_end(all, e + 1) == e + 1);
                assert(all.subrange(e + 1, e + 1) =~= ls.subrange(e, e));
            }
            assert(request_at(all, i, name, timeout) == request_at(ls, i, name, timeout));
            if end < ls.len() {
                lemma_blank_at_end(ls, end, None, None, more);
            } else {
                assert(document_from(all, end + 1, None, None, more) == more);
                assert(document_from(ls, end, None, None, more) == more);
            }
        } else {
            lemma_blank_at_end(ls, i + 1, name, timeout, found);
        }
    }
}

/// An empty text names no method.
pub proof fn lemma_no_method(t: Seq<char>)
    requires
        t.len() == 0,
    ensures
        !is_method(first_word(t)),
{
    reveal_strlit("GET");
    reveal_strlit("POST");
    reveal_strlit("PUT");
    reveal_strlit("DELETE");
    reveal_strlit("PATCH");
    reveal_strlit("HEAD");
    reveal_strlit("OPTIONS");
    reveal_strlit("TRACE");
    reveal_strlit("CONNECT");
    assert(first_word(t).len() == 0);
    assert(upper_all(first_word(t)).len() == 0);
}

/// A separator ends heads as well as bodies.
proof fn lemma_separator_ends_head(sep: Seq<char>)
    requires
        is_separator(trim_start(sep)),
    ensures
        ends_head(sep),
        trim(sep).len() > 0,
{
    reveal_strlit("###");
    let t = trim_start(sep);
    assert(t.subrange(0, 3)[2] == t[2]);
    lemma_trim_end_keeps(t, 3);
    assert(trim(sep).subrange(0, 3) =~= trim(sep).take(3));
    assert(t.subrange(0, 3) =~= t.take(3));
}

/// Where the head and the body of a request end, with a separator after the lines.
proof fn lemma_ends_before_separator(ls: Seq<Seq<char>>, sep: Seq<char>, rest: Seq<Seq<char>>, i: int)
    requires
        0 <= i <= ls.len(),
        is_separator(trim_start(sep)),
    ensures
        head_end(ls + seq![sep] + rest, i) == head_end(ls, i),
        body_end(ls + seq![sep] + rest, i) == body_end(ls, i),
    decreases ls.len() - i,
{
    let all = ls + seq![sep] + rest;
    lemma_separator_ends_head(sep);
    if i < ls.len() {
        assert(all[i] == ls[i]);
        lemma_ends_before_separator(ls, sep, rest, i + 1);
    } else {
        assert(all[i] == sep);
    }
}

/// The lines above a separator are read as if nothing came after them, and nothing
/// of them is carried past it.
proof fn lemma_above_separator(
    ls: Seq<Seq<char>>,
    sep: Seq<char>,
    rest: Seq<Seq<char>>,
    i: int,
    name: Option<Seq<char>>,
    timeout: Option<Seq<char>>,
    found: DocumentView,
)
    requires
        0 <= i <= ls.len(),
        is_separator(trim_start(sep)),
    ensures
        document_from(ls + seq![sep] + rest, i, name, timeout, found) == document_from(
            ls + seq![sep] + rest,
            ls.len() as int + 1,
            None,
            None,
            document_from(ls, i, name, timeout, found),
        ),
    decreases ls.len() - i,
{
    let all = ls + seq![sep] + rest;
    if i == ls.len() {
        assert(all[i] == sep);
    } else {
        assert(all[i] == ls[i]);
        let t = trim_start(ls[i]);
        if is_separator(t) {
            lemma_above_separator(ls, sep, rest, i + 1, None, None, found);
        } else if let Some((k, v)) = variable(t) {
            let more = DocumentView { vars: found.vars.insert(k, v), ..found };
            lemma_above_separator(ls, sep, rest, i + 1, name, timeout, more);
        } else if is_comment(t) {
            lemma_above_separator(ls, sep, rest, i + 1, name_after(t, name), timeout_after(t, timeout), found);
        } else if is_method(first_word(t)) {
            lemma_body_start(ls, i + 1);
            lemma_body_start(all, i + 1);
            lemma_ends(ls, i + 1);
            lemma_separator_ends_head(sep);
            lemma_ends_before_separator(ls, sep, rest, i + 1);
            let e = head_end(ls, i + 1);
            let start = body_start(ls, i + 1);
            let end = body_end(ls, start);
            lemma_ends(ls, start);
            if e < ls.len() {
                assert(all[e] == ls[e]);
            } else {
                assert(all[e] == sep);
            }
            assert(body_start(all, i + 1) == start);
            lemma_ends_before_separator(ls, sep, rest, start);
            assert(all.subrange(i + 1, e) =~= ls.subrange(i + 1, e));
            assert(all.subrange(start, end) =~= ls.subrange(start, end));
            let r = request_at(ls, i, name, timeout);
            assert(request_at(all, i, name, timeout) == r);
            let more = DocumentView { requests: found.requests.push(r), ..found };
            lemma_above_separator(ls, sep, rest, end, None, None, more);
        } else {
            lemma_above_separator(ls, sep, rest, i + 1, name, timeout, found);
        }
    }
}

/// Where the head and the body of a request end, with other lines above.
proof fn lemma_ends_below(above: Seq<Seq<char>>, ls: Seq<Seq<char>>, i: int)
    requires
        0 <= i <= ls.len(),
    ensures
        head_end(above + ls, above.len() + i) == above.len() + head_end(ls, i),
        body_end(above + ls, above.len() + i) == above.len() + body_end(ls, i),
    decreases ls.len() - i,
{
    let all = above + ls;
    if i < ls.len() {
        assert(all[above.len() + i] == ls[i]);
        lemma_ends_below(above, ls, i + 1);
    }
}

/// What some documents found so far, and then another one below them.
spec fn after_document(before: DocumentView, d: DocumentView, by: int) -> DocumentView {
    DocumentView {
        vars: before.vars.union_prefer_right(d.vars),
        requests: before.requests + shifted(d.requests, by),
    }
}

/// Lines below others are read as if they stood alone, but for their numbers.
proof fn lemma_below(
    above: Seq<Seq<char>>,
    ls: Seq<Seq<char>>,
    i: int,
    name: Option<Seq<char>>,
    timeout: Option<Seq<char>>,
    before: DocumentView,
    found: DocumentView,
)
    requires
        0 <= i <= ls.len(),
    ensures
        document_from(
            above + ls,
            above.len() + i,
            name,
            timeout,
            after_document(before, found, above.len() as int),
        ) == after_document(before, document_from(ls, i, name, timeout, found), above.len() as int),
    decreases ls.len() - i,
{
    let all = above + ls;
    let by = above.len() as int;
    if i < ls.len() {
        assert(all[by + i] == ls[i]);
        let t = trim_start(ls[i]);
        if is_separator(t) {
            lemma_below(above, ls, i + 1, None, None, before, found);
        } else if let Some((k, v)) = variable(t) {
            let more = DocumentView { vars: found.vars.insert(k, v), ..found };
            lemma_below(above, ls, i + 1, name, timeout, before, more);
            assert(before.vars.union_prefer_right(more.vars) =~= before.vars.union_prefer_right(found.vars).insert(k, v));
        } else if is_comment(t) {
            lemma_below(above, ls, i + 1, name_after(t, name), timeout_after(t, timeout), before, found);
        } else if is_method(first_word(t)) {
            lemma_body_start(ls, i + 1);
            lemma_body_start(all, by + i + 1);
            lemma_ends(ls, i + 1);
            lemma_ends_below(above, ls, i + 1);
            let e = head_end(ls, i + 1);
            let start = body_start(ls, i + 1);
            let end = body_end(ls, start);
            lemma_ends(ls, start);
            if e < ls.len() {
                assert(all[by + e] == ls[e]);
            }
            assert(body_start(all, by + i + 1) == by + start);
            lemma_ends_below(above, ls, start);
            assert(all.subrange(by + i + 1, by + e) =~= ls.subrange(i + 1, e));
            assert(all.subrange(by + start, by + end) =~= ls.subrange(start, end));
            let r = request_at(ls, i, name, timeout);
            let moved = RequestView { line: line_number(r.line + by), ..r };
            assert(line_number(by + i) == line_number(line_number(i) + by));
            assert(request_at(all, by + i, name, timeout) == moved);
            let more = DocumentView { requests: found.requests.push(r), ..found };
            assert(shifted(more.requests, by) =~= shifted(found.requests, by).push(moved));
            assert(before.requests + shifted(more.requests, by) =~= (before.requests + shifted(
                found.requests,
                by,
            )).push(moved));
            lemma_below(above, ls, end, None, None, before, more);
        } else {
            lemma_below(above, ls, i + 1, name, timeout, before, found);
        }
    }
}

/// The lines of two texts with a separator line between them.
proof fn lemma_separated_lines(a: Seq<char>, sep: Seq<char>, b: Seq<char>)
    requires
        a.len() > 0 ==> a.last() != '\r',
        is_separator(trim_start(sep)),
        !sep.contains('\n'),
        sep.last() != '\r',
    ensures
        lines(a + seq!['\n'] + sep + seq!['\n'] + b) == lines(a + seq!['\n']) + seq![sep] + lines(b),
        lines(a + seq!['\n']).len() == line_breaks(a) + 1,
        lines(a + seq!['\n']) == lines(a) || lines(a + seq!['\n']) == lines(a).push(seq![]),
{
    let nl = seq!['\n'];
    let tail = sep + nl + b;
    reveal_strlit("###");
    assert(sep.len() > 0);
    assert(a + nl + sep + nl + b =~= a + nl + tail);
    lemma_lines_joined(a, tail);
    lemma_lines_joined(sep, b);
    lemma_lines_ended(a);
    lemma_lines_ended(sep);
    assert forall|i: int| 0 <= i < sep.len() implies sep[i] != '\n' by {
        assert(sep.contains(sep[i]));
    }
    lemma_until_at(sep, '\n', sep.len() as int);
    assert(lines(sep) =~= seq![sep]);
    assert(sep[sep.len() - 1] != '\n');
    assert(lines(a + nl) + (seq![sep] + lines(b)) =~= lines(a + nl) + seq![sep] + lines(b));
}

/// Two texts with a separator line between them hold the requests of the one and
/// then those of the other, whose lines are moved down; a variable of the second one
/// replaces a variable of the first one with the same name. Nothing else of the one
/// reaches the other: no name, no timeout, no header and no body. (The first text
/// must not end in half a line break.)
pub proof fn law_separator_parts_documents(a: Seq<char>, sep: Seq<char>, b: Seq<char>)
    requires
        a.len() > 0 ==> a.last() != '\r',
        is_separator(trim_start(sep)),
        !sep.contains('\n'),
        sep.last() != '\r',
    ensures
        ({
            let whole = a + seq!['\n'] + sep + seq!['\n'] + b;
            let by = line_breaks(a) + 2;
            &&& document(whole).requests == document(a).requests + shifted(document(b).requests, by as int)
            &&& document(whole).vars == document(a).vars.union_prefer_right(document(b).vars)
            &&& lines(whole).len() <= 0x1_0000_0000 ==> forall|i: int|
                0 <= i < document(b).requests.len() ==> (#[trigger] shifted(document(b).requests, by as int)[i]).line
                    == document(b).requests[i].line + by
        }),
{
    let none = DocumentView { vars: Map::empty(), requests: seq![] };
    let top = lines(a + seq!['\n']);
    let low = lines(b);
    let above = top + seq![sep];
    lemma_separated_lines(a, sep, b);
    // The first text, ended by a line break.
    lemma_blank_at_end(lines(a), 0, None, None, none);
    lemma_above_separator(top, sep, low, 0, None, None, none);
    // The second text, below the separator.
    let start = after_document(document(a), none, above.len() as int);
    assert(start.vars =~= document(a).vars);
    assert(start.requests =~= document(a).requests);
    lemma_below(above, low, 0, None, None, document(a), none);
    if above.len() + low.len() <= 0x1_0000_0000 {
        law_requests_stand_on_their_lines(b);
    }
}

/// The same with the bare separator.
pub proof fn law_bare_separator_parts_documents(a: Seq<char>, b: Seq<char>)
    requires
        a.len() > 0 ==> a.last() != '\r',
    ensures
        ({
            let whole = a + "\n###\n"@ + b;
            let by = line_breaks(a) + 2;
            &&& document(whole).requests == document(a).requests + shifted(document(b).requests, by as int)
            &&& document(whole).vars == document(a).vars.union_prefer_right(document(b).vars)
            &&& lines(whole).len() <= 0x1_0000_0000 ==> forall|i: int|
                0 <= i < document(b).requests.len() ==> (#[trigger] shifted(document(b).requests, by as int)[i]).line
                    == document(b).requests[i].line + by
        }),
{
    reveal_strlit("\n###\n");
    reveal_strlit("###");
    let sep = "###"@;
    assert(a + "\n###\n"@ + b =~= a + seq!['\n'] + sep + seq!['\n'] + b);
    assert(trim_start(sep) == sep);
    assert(sep.subrange(0, 3) =~= sep);
    law_separator_parts_documents(a, sep, b);
}

}

//! `{{...}}` variables: file variables, `.env` values and references to stored
//! responses.

use vstd::prelude::*;

use crate::digits::write_decimal;
use crate::json::{json_to_plain, navigate_json, Json};
use crate::scan::{after_prefix, equal, equal_ignoring_case, find, halves, same, trimmed, without_leading};
use crate::table::Table;
use crate::text::{chars, string};
use vstd::slice::slice_subrange;

verus! {

use crate::digits::decimal;
use crate::document::pairs;
use crate::json::{navigate, plain, JsonView};
use crate::text::{
    drop_leading, find_from, is_white, lemma_find_from, lemma_trim_twice, lemma_until_at, opt_text, same_ignoring_case,
    split_once, starts_with, strip_prefix, trim, views,
};

/// How many times over a text is resolved at most.
pub const MAX_PASSES: usize = 10;

/// What is kept of the response of a named request.
pub struct StoredResponse {
    pub status: u16,
    /// The body as JSON, or as one JSON string where it is not JSON.
    pub body: Json,
    /// The headers in their order and case.
    pub headers: Vec<(String, String)>,
}

/// A stored response in mathematical terms.
pub struct ResponseView {
    pub status: u16,
    pub body: JsonView,
    pub headers: Seq<(Seq<char>, Seq<char>)>,
}

impl View for StoredResponse {
    type V = ResponseView;

    open spec fn view(&self) -> ResponseView {
        ResponseView { status: self.status, body: self.body@, headers: pairs(self.headers@) }
    }
}

/// Everything that a variable can refer to.
pub struct Env {
    pub vars: Map<Seq<char>, Seq<char>>,
    pub dotenv: Map<Seq<char>, Seq<char>>,
    pub responses: Map<Seq<char>, ResponseView>,
}

/// What the three tables hold together.
pub open spec fn env(
    vars: Table<String>,
    dotenv: Table<String>,
    responses: Table<StoredResponse>,
) -> Env {
    Env { vars: vars@, dotenv: dotenv@, responses: responses@ }
}

/// The value of a key, where it has one.
pub open spec fn lookup<V>(m: Map<Seq<char>, V>, k: Seq<char>) -> Option<V> {
    if m.contains_key(k) {
        Some(m[k])
    } else {
        None
    }
}

/// The value of the first header with a name, whatever its case.
pub open spec fn header_value(headers: Seq<(Seq<char>, Seq<char>)>, name: Seq<char>) -> Option<Seq<char>>
    decreases headers.len(),
{
    if headers.len() == 0 {
        None
    } else if same_ignoring_case(headers[0].0, name) {
        Some(headers[0].1)
    } else {
        header_value(headers.drop_first(), name)
    }
}

/// What a reference into a stored response stands for.
pub open spec fn chained_value(r: Option<ResponseView>, rest: Seq<char>) -> Option<Seq<char>> {
    match r {
        None => None,
        Some(resp) => if let Some(path) = strip_prefix(rest, "response.body"@) {
            match navigate(resp.body, drop_leading(path, "."@)) {
                Some(v) => Some(plain(v)),
                None => None,
            }
        } else if let Some(path) = strip_prefix(rest, "response.headers"@) {
            header_value(resp.headers, trim(drop_leading(path, "."@)))
        } else if rest == "response.status"@ {
            Some(decimal(resp.status as nat))
        } else {
            None
        },
    }
}

/// What the text between `{{` and `}}` stands for: `$dotenv NAME` a value of
/// the `.env` files, `name.response...` a part of a stored response, and any
/// other name a file variable or else a value of the `.env` files.
pub open spec fn token_value(tok: Seq<char>, e: Env) -> Option<Seq<char>> {
    let t = trim(tok);
    if let Some(rest) = strip_prefix(t, "$dotenv"@) {
        lookup(e.dotenv, trim(rest))
    } else if let Some((name, rest)) = split_once(t, '.') {
        chained_value(lookup(e.responses, name), rest)
    } else if e.vars.contains_key(t) {
        Some(e.vars[t])
    } else {
        lookup(e.dotenv, t)
    }
}

/// One pass over a text from position `i`: each `{{token}}` with a value is
/// replaced by it, everything else stays. The second result tells whether
/// anything was replaced.
pub open spec fn pass_from(s: Seq<char>, i: int, e: Env) -> (Seq<char>, bool)
    decreases s.len() - i,
{
    if i < 0 {
        (s, false)
    } else {
        proof {
            lemma_braces(s, i);
        }
        match find_from(s, "{{"@, i) {
            None => (s.skip(i), false),
            Some(a) => match find_from(s, "}}"@, a + 2) {
                None => {
                    let (out, changed) = pass_from(s, a + 2, e);
                    (s.subrange(i, a) + "{{"@ + out, changed)
                },
                Some(b) => {
                    let tok = s.subrange(a + 2, b);
                    let (out, changed) = pass_from(s, b + 2, e);
                    match token_value(tok, e) {
                        Some(v) => (s.subrange(i, a) + v + out, true),
                        None => (s.subrange(i, a) + "{{"@ + tok + "}}"@ + out, changed),
                    }
                },
            },
        }
    }
}

/// At most `n` passes, until one replaces nothing.
pub open spec fn passes(s: Seq<char>, e: Env, n: nat) -> Seq<char>
    decreases n,
{
    if n == 0 {
        s
    } else {
        let (out, changed) = pass_from(s, 0, e);
        if changed {
            passes(out, e, (n - 1) as nat)
        } else {
            out
        }
    }
}

/// A text with its variables resolved, those in their values too.
pub open spec fn resolved(s: Seq<char>, e: Env) -> Seq<char> {
    passes(s, e, MAX_PASSES as nat)
}

/// The tokens of a text that are not in `found` yet, added to it: those
/// between `{{` and `}}` that are not blank, without surrounding whitespace.
pub open spec fn collected(s: Seq<char>, i: int, found: Seq<Seq<char>>) -> Seq<Seq<char>>
    decreases s.len() - i,
{
    if i < 0 {
        found
    } else {
        proof {
            lemma_braces(s, i);
        }
        match find_from(s, "{{"@, i) {
            None => found,
            Some(a) => match find_from(s, "}}"@, a + 2) {
                None => found,
                Some(b) => {
                    let tok = trim(s.subrange(a + 2, b));
                    if tok.len() > 0 && !found.contains(tok) {
                        collected(s, b + 2, found.push(tok))
                    } else {
                        collected(s, b + 2, found)
                    }
                },
            },
        }
    }
}

/// Where the next `{{` and the `}}` after it are.
pub proof fn lemma_braces(s: Seq<char>, i: int)
    requires
        0 <= i,
    ensures
        "{{"@.len() == 2,
        "}}"@.len() == 2,
        find_from(s, "{{"@, i) matches Some(a) ==> {
            &&& i <= a
            &&& a + 2 <= s.len()
            &&& s.subrange(a, a + 2) == "{{"@
            &&& (find_from(s, "}}"@, a + 2) matches Some(b) ==> a + 2 <= b && b + 2 <= s.len() && s.subrange(b, b + 2)
                == "}}"@)
        },
{
    reveal_strlit("{{");
    reveal_strlit("}}");
    lemma_find_from(s, "{{"@, i);
    if let Some(a) = find_from(s, "{{"@, i) {
        lemma_find_from(s, "}}"@, a + 2);
    }
}

fn find_header(headers: &Vec<(String, String)>, name: &[char]) -> (r: Option<String>)
    ensures
        opt_text(r) == header_value(pairs(headers@), name@),
{
    let ghost all = pairs(headers@);
    let mut i: usize = 0;
    assert(all.skip(0) =~= all);
    while i < headers.len()
        invariant
            i <= headers@.len(),
            all == pairs(headers@),
            header_value(all, name@) == header_value(all.skip(i as int), name@),
        decreases headers@.len() - i,
    {
        assert(all.skip(i as int)[0] == all[i as int]);
        assert(all.skip(i as int).drop_first() =~= all.skip(i + 1));
        let k = chars(headers[i].0.as_str());
        if equal_ignoring_case(k.as_slice(), name) {
            return Some(headers[i].1.clone());
        }
        i = i + 1;
    }
    None
}

fn find_value(m: &Table<String>, k: &[char]) -> (r: Option<String>)
    ensures
        opt_text(r) == lookup(m@, k@),
{
    let key = string(k);
    match m.get(key.as_str()) {
        Some(v) => Some(v.clone()),
        None => None,
    }
}

fn chained(resp: Option<&StoredResponse>, rest: &[char]) -> (r: Option<String>)
    ensures
        opt_text(r) == chained_value(
            match resp {
                Some(x) => Some(x@),
                None => None,
            },
            rest@,
        ),
{
    let resp = match resp {
        Some(x) => x,
        None => {
            return None;
        },
    };
    if let Some(path) = after_prefix(rest, "response.body") {
        let p = string(without_leading(path, "."));
        return match navigate_json(&resp.body, p.as_str()) {
            Some(v) => Some(json_to_plain(v)),
            None => None,
        };
    }
    if let Some(path) = after_prefix(rest, "response.headers") {
        return find_header(&resp.headers, trimmed(without_leading(path, ".")));
    }
    let status = chars("response.status");
    if equal(rest, status.as_slice()) {
        return Some(write_decimal(resp.status as u64));
    }
    None
}

fn value_of_token(
    tok: &[char],
    file_vars: &Table<String>,
    dotenv: &Table<String>,
    responses: &Table<StoredResponse>,
) -> (r: Option<String>)
    ensures
        opt_text(r) == token_value(tok@, env(*file_vars, *dotenv, *responses)),
{
    let t = trimmed(tok);
    if let Some(rest) = after_prefix(t, "$dotenv") {
        return find_value(dotenv, trimmed(rest));
    }
    if let Some((name, rest)) = halves(t, '.') {
        let key = string(name);
        return chained(responses.get(key.as_str()), rest);
    }
    match find_value(file_vars, t) {
        Some(v) => Some(v),
        None => find_value(dotenv, t),
    }
}

/// What the text between `{{` and `}}` stands for.
pub fn resolve_token(
    tok: &str,
    file_vars: &Table<String>,
    dotenv: &Table<String>,
    responses: &Table<StoredResponse>,
) -> (r: Option<String>)
    ensures
        opt_text(r) == token_value(tok@, env(*file_vars, *dotenv, *responses)),
{
    let t = chars(tok);
    value_of_token(t.as_slice(), file_vars, dotenv, responses)
}

/// One pass over a text.
fn one_pass(
    s: &[char],
    file_vars: &Table<String>,
    dotenv: &Table<String>,
    responses: &Table<StoredResponse>,
) -> (r: (String, bool))
    ensures
        (r.0@, r.1) == pass_from(s@, 0, env(*file_vars, *dotenv, *responses)),
{
    let ghost e = env(*file_vars, *dotenv, *responses);
    let open = chars("{{");
    let close = chars("}}");
    let mut out = String::new();
    let mut changed: bool = false;
    let mut i: usize = 0;
    let n: usize = s.len();
    let ghost whole = pass_from(s@, 0, e);
    assert(out@ + whole.0 =~= whole.0);
    loop
        invariant
            i <= n == s@.len(),
            open@ == "{{"@,
            close@ == "}}"@,
            e == env(*file_vars, *dotenv, *responses),
            whole == pass_from(s@, 0, e),
            whole.0 == out@ + pass_from(s@, i as int, e).0,
            whole.1 == (changed || pass_from(s@, i as int, e).1),
        decreases s@.len() - i,
    {
        proof {
            lemma_braces(s@, i as int);
        }
        let ghost before = out@;
        let a: usize = match find(s, open.as_slice(), i) {
            Some(a) => a,
            None => {
                assert(s@.subrange(i as int, s@.len() as int) =~= s@.skip(i as int));
                out.append(string(slice_subrange(s, i, n)).as_str());
                return (out, changed);
            },
        };
        out.append(string(slice_subrange(s, i, a)).as_str());
        match find(s, close.as_slice(), a + 2) {
            Some(b) => {
                let tok = slice_subrange(s, a + 2, b);
                match value_of_token(tok, file_vars, dotenv, responses) {
                    Some(v) => {
                        out.append(v.as_str());
                        changed = true;
                        assert(whole.0 =~= out@ + pass_from(s@, b + 2, e).0);
                    },
                    None => {
                        out.append("{{");
                        out.append(string(tok).as_str());
                        out.append("}}");
                        assert(whole.0 =~= out@ + pass_from(s@, b + 2, e).0);
                    },
                }
                i = b + 2;
            },
            None => {
                out.append("{{");
                assert(whole.0 =~= out@ + pass_from(s@, a + 2, e).0);
                i = a + 2;
            },
        }
    }
}

/// Resolves the `{{...}}` of a text, those in the values too. What has no value
/// stays as it is.
pub fn resolve_vars(
    input: &str,
    file_vars: &Table<String>,
    dotenv: &Table<String>,
    responses: &Table<StoredResponse>,
) -> (r: String)
    ensures
        r@ == resolved(input@, env(*file_vars, *dotenv, *responses)),
{
    let ghost e = env(*file_vars, *dotenv, *responses);
    let mut s = input.to_owned();
    let mut left: usize = MAX_PASSES;
    while left > 0
        invariant
            e == env(*file_vars, *dotenv, *responses),
            resolved(input@, e) == passes(s@, e, left as nat),
        decreases left,
    {
        let c = chars(s.as_str());
        let (out, changed) = one_pass(c.as_slice(), file_vars, dotenv, responses);
        s = out;
        if !changed {
            return s;
        }
        left = left - 1;
    }
    s
}

fn holds(out: &Vec<String>, t: &str) -> (r: bool)
    ensures
        r == views(out@).contains(t@),
{
    let mut i: usize = 0;
    while i < out.len()
        invariant
            i <= out@.len(),
            forall|j: int| 0 <= j < i ==> views(out@)[j] != t@,
        decreases out@.len() - i,
    {
        if same(out[i].as_str(), t) {
            assert(views(out@)[i as int] == t@);
            return true;
        }
        i = i + 1;
    }
    false
}

/// Collects the `{{...}}` that are left in a text, each once.
pub fn collect_unresolved(s: &str, out: &mut Vec<String>)
    ensures
        views(final(out)@) == collected(s@, 0, views(old(out)@)),
{
    let open = chars("{{");
    let close = chars("}}");
    let text = chars(s);
    let mut i: usize = 0;
    let n: usize = text.len();
    let ghost whole = collected(s@, 0, views(out@));
    loop
        invariant
            i <= n == text@.len(),
            text@ == s@,
            open@ == "{{"@,
            close@ == "}}"@,
            whole == collected(s@, i as int, views(out@)),
        ensures
            whole == views(out@),
        decreases text@.len() - i,
    {
        proof {
            lemma_braces(s@, i as int);
        }
        let a: usize = match find(text.as_slice(), open.as_slice(), i) {
            Some(a) => a,
            None => {
                break ;
            },
        };
        let b: usize = match find(text.as_slice(), close.as_slice(), a + 2) {
            Some(b) => b,
            None => {
                break ;
            },
        };
        let tok = string(trimmed(slice_subrange(text.as_slice(), a + 2, b)));
        let fresh = chars(tok.as_str()).len() > 0 && !holds(out, tok.as_str());
        if fresh {
            let ghost before = out@;
            let ghost t = tok@;
            out.push(tok);
            assert(views(out@) =~= views(before).push(t));
        }
        i = b + 2;
    }
}

/// A pass that replaces nothing leaves the rest of the text as it is.
proof fn lemma_unchanged_from(s: Seq<char>, i: int, e: Env)
    requires
        0 <= i <= s.len(),
        !pass_from(s, i, e).1,
    ensures
        pass_from(s, i, e).0 == s.skip(i),
    decreases s.len() - i,
{
    lemma_braces(s, i);
    if let Some(a) = find_from(s, "{{"@, i) {
        match find_from(s, "}}"@, a + 2) {
            None => {
                lemma_unchanged_from(s, a + 2, e);
                assert(s.subrange(i, a) + "{{"@ + s.skip(a + 2) =~= s.skip(i)) by {
                    assert(s.subrange(a, a + 2) + s.skip(a + 2) =~= s.skip(a));
                    assert(s.subrange(i, a) + s.skip(a) =~= s.skip(i));
                    assert(s.subrange(i, a) + "{{"@ + s.skip(a + 2) =~= s.subrange(i, a) + ("{{"@ + s.skip(a + 2)));
                }
            },
            Some(b) => {
                let tok = s.subrange(a + 2, b);
                lemma_unchanged_from(s, b + 2, e);
                assert(s.subrange(i, a) + "{{"@ + tok + "}}"@ + s.skip(b + 2) =~= s.skip(i)) by {
                    assert(s.subrange(b, b + 2) + s.skip(b + 2) =~= s.skip(b));
                    assert(tok + s.skip(b) =~= s.skip(a + 2));
                    assert(s.subrange(a, a + 2) + s.skip(a + 2) =~= s.skip(a));
                    assert(s.subrange(i, a) + s.skip(a) =~= s.skip(i));
                    assert(s.subrange(i, a) + "{{"@ + tok + "}}"@ + s.skip(b + 2) =~= s.subrange(i, a) + ("{{"@ + (tok
                        + ("}}"@ + s.skip(b + 2)))));
                }
            },
        }
    }
}

/// A pass that replaces nothing gives the text back: what has no value is kept.
pub proof fn law_unresolved_is_kept(s: Seq<char>, e: Env)
    requires
        !pass_from(s, 0, e).1,
    ensures
        pass_from(s, 0, e).0 == s,
        resolved(s, e) == s,
{
    lemma_unchanged_from(s, 0, e);
    assert(s.skip(0) =~= s);
}

/// A text without `{{` is its own resolution.
pub proof fn law_plain_text_resolves_to_itself(s: Seq<char>, e: Env)
    requires
        find_from(s, "{{"@, 0) is None,
    ensures
        resolved(s, e) == s,
{
    law_unresolved_is_kept(s, e);
}

/// Whether each of `n` passes replaces something.
pub open spec fn always_changing(s: Seq<char>, e: Env, n: nat) -> bool
    decreases n,
{
    n == 0 || (pass_from(s, 0, e).1 && always_changing(pass_from(s, 0, e).0, e, (n - 1) as nat))
}

proof fn lemma_passes_settle(s: Seq<char>, e: Env, n: nat)
    ensures
        always_changing(s, e, n) || !pass_from(passes(s, e, n), 0, e).1,
    decreases n,
{
    if n > 0 {
        let (out, changed) = pass_from(s, 0, e);
        if changed {
            lemma_passes_settle(out, e, (n - 1) as nat);
        } else {
            law_unresolved_is_kept(s, e);
        }
    }
}

/// Resolution goes on into the values: in its result nothing is left that has a
/// value, unless the limit on the number of passes stopped it.
pub proof fn law_resolution_is_recursive(s: Seq<char>, e: Env)
    ensures
        always_changing(s, e, MAX_PASSES as nat) || !pass_from(resolved(s, e), 0, e).1,
{
    lemma_passes_settle(s, e, MAX_PASSES as nat);
}

/// The tokens that are collected from a settled text have no value.
pub proof fn law_collected_tokens_have_no_value(s: Seq<char>, e: Env, t: Seq<char>)
    requires
        !pass_from(s, 0, e).1,
        collected(s, 0, seq![]).contains(t),
    ensures
        token_value(t, e) is None,
{
    lemma_collected_valueless(s, 0, seq![], e);
    let j = choose|j: int| 0 <= j < collected(s, 0, seq![]).len() && collected(s, 0, seq![])[j] == t;
    assert(collected(s, 0, seq![])[j] == t);
}

proof fn lemma_collected_valueless(s: Seq<char>, i: int, found: Seq<Seq<char>>, e: Env)
    requires
        0 <= i <= s.len(),
        !pass_from(s, i, e).1,
        forall|j: int| 0 <= j < found.len() ==> token_value(#[trigger] found[j], e) is None,
    ensures
        forall|j: int|
            0 <= j < collected(s, i, found).len() ==> token_value(#[trigger] collected(s, i, found)[j], e) is None,
    decreases s.len() - i,
{
    lemma_braces(s, i);
    if let Some(a) = find_from(s, "{{"@, i) {
        if let Some(b) = find_from(s, "}}"@, a + 2) {
            let raw = s.subrange(a + 2, b);
            let tok = trim(raw);
            lemma_trim_twice(raw);
            if tok.len() > 0 && !found.contains(tok) {
                lemma_collected_valueless(s, b + 2, found.push(tok), e);
            } else {
                lemma_collected_valueless(s, b + 2, found, e);
            }
        }
    }
}

/// What is collected is everything that was found before, and more.
pub proof fn lemma_collected_keeps(s: Seq<char>, i: int, found: Seq<Seq<char>>)
    ensures
        found.len() <= collected(s, i, found).len(),
        collected(s, i, found).take(found.len() as int) == found,
    decreases s.len() - i,
{
    assert(found.take(found.len() as int) =~= found);
    if i >= 0 {
        lemma_braces(s, i);
        if let Some(a) = find_from(s, "{{"@, i) {
            if let Some(b) = find_from(s, "}}"@, a + 2) {
                let tok = trim(s.subrange(a + 2, b));
                if tok.len() > 0 && !found.contains(tok) {
                    lemma_collected_keeps(s, b + 2, found.push(tok));
                    let all = collected(s, b + 2, found.push(tok));
                    assert(all.take(found.len() as int) =~= all.take(found.len() as int + 1).take(found.len() as int));
                    assert(found.push(tok).take(found.len() as int) =~= found);
                } else {
                    lemma_collected_keeps(s, b + 2, found);
                }
            }
        }
    }
}

/// Whether a text can be the name in a chained reference: it has no dot, does not
/// begin with whitespace and is not a reference to a `.env` value.
pub open spec fn is_chain_name(name: Seq<char>) -> bool {
    &&& !name.contains('.')
    &&& name.len() > 0 ==> !is_white(name[0])
    &&& !starts_with(name, "$dotenv"@)
}

/// A reference `name.rest` stands for what `rest` says of the stored response of
/// `name`.
pub proof fn law_chained_reference(name: Seq<char>, rest: Seq<char>, e: Env)
    requires
        is_chain_name(name),
        rest.len() > 0 ==> !is_white(rest.last()),
    ensures
        token_value(name + seq!['.'] + rest, e) == chained_value(lookup(e.responses, name), rest),
{
    let t = name + seq!['.'] + rest;
    let n = name.len() as int;
    assert(t[n] == '.');
    assert(!is_white(t[0])) by {
        if n > 0 {
            assert(t[0] == name[0]);
        }
    }
    assert(!is_white(t.last())) by {
        if rest.len() > 0 {
            assert(t.last() == rest.last());
        }
    }
    assert(trim(t) == t);
    reveal_strlit("$dotenv");
    let p = "$dotenv"@;
    if starts_with(t, p) {
        if n < p.len() {
            assert(t.subrange(0, p.len() as int)[n] == t[n]);
        } else {
            assert(name.subrange(0, p.len() as int) =~= t.subrange(0, p.len() as int));
        }
    }
    assert forall|i: int| 0 <= i < n implies t[i] != '.' by {
        assert(t[i] == name[i]);
        assert(name.contains(name[i]));
    }
    lemma_until_at(t, '.', n);
    assert(t.take(n) =~= name);
    assert(t.skip(n + 1) =~= rest);
}

/// `{{name.response.status}}` stands for the status code of the stored response.
pub proof fn law_chained_status(name: Seq<char>, e: Env)
    requires
        is_chain_name(name),
        e.responses.contains_key(name),
    ensures
        token_value(name + seq!['.'] + "response.status"@, e) == Some(decimal(e.responses[name].status as nat)),
{
    reveal_strlit("response.status");
    reveal_strlit("response.body");
    reveal_strlit("response.headers");
    law_chained_reference(name, "response.status"@, e);
    let rest = "response.status"@;
    if starts_with(rest, "response.body"@) {
        assert(rest.subrange(0, 13)[9] == rest[9]);
    }
}

/// `{{name.response.body.path}}` stands for what the path leads to in the body of the
/// stored response.
pub proof fn law_chained_body(name: Seq<char>, path: Seq<char>, e: Env)
    requires
        is_chain_name(name),
        e.responses.contains_key(name),
        path.len() > 0,
        path[0] != '.',
        !is_white(path.last()),
    ensures
        token_value(name + seq!['.'] + "response.body."@ + path, e) == (match navigate(e.responses[name].body, path) {
            Some(v) => Some(plain(v)),
            None => None,
        }),
{
    let rest = "response.body."@ + path;
    reveal_strlit("response.body.");
    reveal_strlit("response.body");
    reveal_strlit(".");
    assert(name + seq!['.'] + "response.body."@ + path =~= name + seq!['.'] + rest);
    assert(rest.last() == path.last());
    law_chained_reference(name, rest, e);
    assert(rest.subrange(0, 13) =~= "response.body"@);
    assert(rest.skip(13) =~= seq!['.'] + path);
    reveal_with_fuel(drop_leading, 3);
    assert((seq!['.'] + path).drop_first() =~= path);
    assert("."@.contains('.')) by {
        assert("."@[0] == '.');
    }
    assert(!"."@.contains(path[0])) by {
        if "."@.contains(path[0]) {
            let k = choose|k: int| 0 <= k < "."@.len() && "."@[k] == path[0];
            assert(k == 0);
        }
    }
    assert(drop_leading(rest.skip(13), "."@) == path);
}

}

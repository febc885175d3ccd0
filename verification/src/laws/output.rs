//! What is sent, and what is shown.

use vstd::prelude::*;

verus! {

use crate::digits::decimal;
use crate::document::{pairs, RequestView};
use crate::exchange::{content_type_in, header_tokens, kept_response, missing, outbound, with_files, OutboundView};
use crate::includes::expanded;
use crate::json::JsonView;
use crate::laws::text::{law_joined, law_search, occurs};
use crate::laws::vars::{before_braces, inside_braces, law_collecting};
use crate::report::{
    busy_text, error_text, header_lines, progress_text, send_line_text, sending_text, token_lines, unresolved_text,
    without_query,
};
use crate::session::{result_text, Reply};
use crate::text::{find_from, joined, lemma_until_at, same_ignoring_case, trim};
use crate::vars::{collected, lemma_braces, lemma_collected_keeps, resolved, Env};

/// A request is sent as it was written, part by part and with nothing added or left
/// out, each part with its variables resolved; the order of the headers stays.
pub proof fn law_every_part_is_resolved(r: RequestView, e: Env, i: int)
    ensures
        outbound(r, e).method == resolved(r.method, e),
        outbound(r, e).url == resolved(r.url, e),
        outbound(r, e).headers.len() == r.headers.len(),
        0 <= i < r.headers.len() ==> outbound(r, e).headers[i].0 == resolved(r.headers[i].0, e) && outbound(
            r,
            e,
        ).headers[i].1 == resolved(r.headers[i].1, e),
        r.body is None <==> outbound(r, e).body is None,
        r.body is Some ==> outbound(r, e).body == Some(resolved(r.body->0, e)),
{
}

/// Files are taken into the body alone.
pub proof fn law_files_go_into_the_body(o: OutboundView, contents: Seq<Option<Seq<char>>>, e: Env)
    ensures
        with_files(o, contents, e).method == o.method,
        with_files(o, contents, e).url == o.url,
        with_files(o, contents, e).headers == o.headers,
        o.body is None ==> with_files(o, contents, e).body is None,
        o.body is Some ==> with_files(o, contents, e).body == Some(expanded(o.body->0, contents, e)),
{
}

proof fn lemma_prefix_keeps(found: Seq<Seq<char>>, more: Seq<Seq<char>>, t: Seq<char>)
    requires
        found.len() <= more.len(),
        more.take(found.len() as int) == found,
        found.contains(t),
    ensures
        more.contains(t),
{
    let i = choose|i: int| 0 <= i < found.len() && found[i] == t;
    assert(more[i] == found[i]);
}

proof fn lemma_headers_prefix(headers: Seq<(Seq<char>, Seq<char>)>, found: Seq<Seq<char>>)
    ensures
        found.len() <= header_tokens(headers, found).len(),
        header_tokens(headers, found).take(found.len() as int) == found,
    decreases headers.len(),
{
    assert(found.take(found.len() as int) =~= found);
    if headers.len() > 0 {
        let n = found.len() as int;
        let a = header_tokens(headers.drop_last(), found);
        let b = collected(headers.last().0, 0, a);
        let c = collected(headers.last().1, 0, b);
        lemma_headers_prefix(headers.drop_last(), found);
        lemma_collected_keeps(headers.last().0, 0, a);
        lemma_collected_keeps(headers.last().1, 0, b);
        assert(c.take(n) =~= c.take(b.len() as int).take(a.len() as int).take(n));
    }
}

proof fn lemma_token_is_found(x: Seq<char>, tok: Seq<char>, y: Seq<char>, found: Seq<Seq<char>>)
    requires
        before_braces(x),
        inside_braces(tok),
        trim(tok).len() > 0,
    ensures
        collected(x + seq!['{', '{'] + tok + seq!['}', '}'] + y, 0, found).contains(trim(tok)),
{
    law_collecting(x, tok, y, found);
    let now = if found.contains(trim(tok)) {
        found
    } else {
        found.push(trim(tok))
    };
    if !found.contains(trim(tok)) {
        assert(now[found.len() as int] == trim(tok));
    }
    lemma_collected_keeps(y, 0, now);
    lemma_prefix_keeps(now, collected(y, 0, now), trim(tok));
}

proof fn lemma_header_token_is_found(
    headers: Seq<(Seq<char>, Seq<char>)>,
    i: int,
    x: Seq<char>,
    tok: Seq<char>,
    y: Seq<char>,
    found: Seq<Seq<char>>,
)
    requires
        before_braces(x),
        inside_braces(tok),
        trim(tok).len() > 0,
        0 <= i < headers.len(),
        headers[i].0 == x + seq!['{', '{'] + tok + seq!['}', '}'] + y || headers[i].1 == x + seq!['{', '{'] + tok
            + seq!['}', '}'] + y,
    ensures
        header_tokens(headers, found).contains(trim(tok)),
    decreases headers.len(),
{
    let a = header_tokens(headers.drop_last(), found);
    let b = collected(headers.last().0, 0, a);
    let c = collected(headers.last().1, 0, b);
    lemma_collected_keeps(headers.last().0, 0, a);
    lemma_collected_keeps(headers.last().1, 0, b);
    if i == headers.len() - 1 {
        lemma_token_is_found(x, tok, y, a);
        lemma_token_is_found(x, tok, y, b);
        if headers[i].0 == x + seq!['{', '{'] + tok + seq!['}', '}'] + y {
            lemma_prefix_keeps(b, c, trim(tok));
        }
    } else {
        lemma_header_token_is_found(headers.drop_last(), i, x, tok, y, found);
        lemma_prefix_keeps(a, b, trim(tok));
        lemma_prefix_keeps(b, c, trim(tok));
    }
}

/// A token that is left in any part of a request is listed: in the method, in the URL,
/// in the name or the value of any header, or in the body. It is listed without the
/// whitespace around it.
pub proof fn law_left_tokens_are_listed(o: OutboundView, i: int, x: Seq<char>, tok: Seq<char>, y: Seq<char>)
    requires
        before_braces(x),
        inside_braces(tok),
        trim(tok).len() > 0,
    ensures
        ({
            let part = x + seq!['{', '{'] + tok + seq!['}', '}'] + y;
            o.method == part || o.url == part || (0 <= i < o.headers.len() && (o.headers[i].0 == part || o.headers[i].1
                == part)) || o.body == Some(part) ==> missing(o).contains(trim(tok))
        }),
{
    let part = x + seq!['{', '{'] + tok + seq!['}', '}'] + y;
    let t = trim(tok);
    let m = collected(o.method, 0, seq![]);
    let u = collected(o.url, 0, m);
    let h = header_tokens(o.headers, u);
    lemma_token_is_found(x, tok, y, seq![]);
    lemma_token_is_found(x, tok, y, m);
    lemma_token_is_found(x, tok, y, h);
    lemma_collected_keeps(o.url, 0, m);
    lemma_headers_prefix(o.headers, u);
    if m.contains(t) {
        lemma_prefix_keeps(m, u, t);
    }
    if u.contains(t) {
        lemma_prefix_keeps(u, h, t);
    }
    if 0 <= i < o.headers.len() && (o.headers[i].0 == part || o.headers[i].1 == part) {
        lemma_header_token_is_found(o.headers, i, x, tok, y, u);
    }
    if let Some(b) = o.body {
        lemma_collected_keeps(b, 0, h);
        if h.contains(t) {
            lemma_prefix_keeps(h, collected(b, 0, h), t);
        }
    }
}

/// Tokens are listed in the order of the parts: the method, the URL, the headers one
/// after another, the body. What a request without its body, or without its last
/// header, lists comes first.
pub proof fn law_tokens_are_listed_in_order(o: OutboundView)
    ensures
        ({
            let bodiless = OutboundView { body: None, ..o };
            let bare = OutboundView { body: None, headers: seq![], ..o };
            let method_alone = OutboundView { body: None, headers: seq![], url: seq![], ..o };
            &&& missing(bodiless) == missing(o).take(missing(bodiless).len() as int)
            &&& o.headers.len() > 0 ==> {
                let fewer = OutboundView { body: None, headers: o.headers.drop_last(), ..o };
                missing(fewer) == missing(bodiless).take(missing(fewer).len() as int)
            }
            &&& missing(method_alone) == missing(bare).take(missing(method_alone).len() as int)
        }),
{
    let bodiless = OutboundView { body: None, ..o };
    let m = collected(o.method, 0, seq![]);
    let u = collected(o.url, 0, m);
    let h = header_tokens(o.headers, u);
    lemma_collected_keeps(o.url, 0, m);
    assert(collected(Seq::<char>::empty(), 0, m) == m) by {
        lemma_braces(Seq::<char>::empty(), 0);
    }
    assert(h.take(h.len() as int) =~= h);
    if let Some(b) = o.body {
        lemma_collected_keeps(b, 0, h);
    }
    if o.headers.len() > 0 {
        let a = header_tokens(o.headers.drop_last(), u);
        let b = collected(o.headers.last().0, 0, a);
        lemma_collected_keeps(o.headers.last().0, 0, a);
        lemma_collected_keeps(o.headers.last().1, 0, b);
        assert(h.take(a.len() as int) =~= h.take(b.len() as int).take(a.len() as int));
    }
}

proof fn lemma_no_twice(s: Seq<char>, i: int, found: Seq<Seq<char>>)
    requires
        found.no_duplicates(),
    ensures
        collected(s, i, found).no_duplicates(),
    decreases s.len() - i,
{
    if i >= 0 {
        lemma_braces(s, i);
        if let Some(a) = find_from(s, "{{"@, i) {
            if let Some(b) = find_from(s, "}}"@, a + 2) {
                let tok = trim(s.subrange(a + 2, b));
                if tok.len() > 0 && !found.contains(tok) {
                    lemma_no_twice(s, b + 2, found.push(tok));
                } else {
                    lemma_no_twice(s, b + 2, found);
                }
            }
        }
    }
}

proof fn lemma_no_twice_in_headers(headers: Seq<(Seq<char>, Seq<char>)>, found: Seq<Seq<char>>)
    requires
        found.no_duplicates(),
    ensures
        header_tokens(headers, found).no_duplicates(),
    decreases headers.len(),
{
    if headers.len() > 0 {
        lemma_no_twice_in_headers(headers.drop_last(), found);
        let a = header_tokens(headers.drop_last(), found);
        lemma_no_twice(headers.last().0, 0, a);
        lemma_no_twice(headers.last().1, 0, collected(headers.last().0, 0, a));
    }
}

/// No token is listed twice.
pub proof fn law_tokens_are_listed_once(o: OutboundView)
    ensures
        missing(o).no_duplicates(),
{
    lemma_no_twice(o.method, 0, seq![]);
    lemma_no_twice(o.url, 0, collected(o.method, 0, seq![]));
    lemma_no_twice_in_headers(o.headers, collected(o.url, 0, collected(o.method, 0, seq![])));
    if let Some(b) = o.body {
        lemma_no_twice(b, 0, header_tokens(o.headers, collected(o.url, 0, collected(o.method, 0, seq![]))));
    }
}

/// The content type is the value of the last header of that name, whatever its case;
/// without one it is empty.
pub proof fn law_content_type(
    before: Seq<(Seq<char>, Seq<char>)>,
    name: Seq<char>,
    value: Seq<char>,
    after: Seq<(Seq<char>, Seq<char>)>,
)
    requires
        forall|i: int| 0 <= i < after.len() ==> !same_ignoring_case((#[trigger] after[i]).0, "content-type"@),
    ensures
        same_ignoring_case(name, "content-type"@) ==> content_type_in(before + seq![(name, value)] + after) == value,
        content_type_in(after) == Seq::<char>::empty(),
    decreases after.len(),
{
    let all = before + seq![(name, value)] + after;
    if after.len() == 0 {
        assert(all.last() == (name, value));
    } else {
        let front = after.drop_last();
        assert(!same_ignoring_case(after[after.len() - 1].0, "content-type"@));
        assert forall|i: int| 0 <= i < front.len() implies !same_ignoring_case((#[trigger] front[i]).0, "content-type"@) by {
            assert(front[i] == after[i]);
        }
        law_content_type(before, name, value, front);
        assert(all.last() == after.last());
        assert(all.drop_last() =~= before + seq![(name, value)] + front);
    }
}

/// A response is kept whole.
pub proof fn law_kept(status: u16, v: JsonView, body: Seq<char>, headers: Seq<(Seq<char>, Seq<char>)>)
    ensures
        kept_response(status, Some(v), body, headers).status == status,
        kept_response(status, Some(v), body, headers).headers == headers,
        kept_response(status, Some(v), body, headers).body == v,
        kept_response(status, None, body, headers).status == status,
        kept_response(status, None, body, headers).headers == headers,
        kept_response(status, None, body, headers).body == JsonView::Text(body),
{
}

/// Every header has a line of its own, in their order.
pub proof fn law_header_lines(headers: Seq<(Seq<char>, Seq<char>)>, name: Seq<char>, value: Seq<char>)
    ensures
        header_lines(seq![]) == Seq::<char>::empty(),
        header_lines(headers.push((name, value))) == header_lines(headers) + name + ": "@ + value + "\n"@,
{
    assert(headers.push((name, value)).drop_last() =~= headers);
}

/// A response is shown as its status, its headers, an empty line, and its body, which
/// is laid out where the content type has `json` in it and the body is JSON, and is
/// otherwise as it came.
pub proof fn law_response_is_shown(
    reply: Reply,
    o: OutboundView,
    limit: Option<u64>,
    from: Seq<char>,
    reason: Seq<char>,
    pretty: Seq<char>,
)
    requires
        reply is Answer,
    ensures
        ({
            let headers = pairs(reply->headers@);
            let status = "HTTP/1.1 "@ + decimal(reply->code as nat) + " "@;
            let kind = content_type_in(headers);
            &&& occurs(kind, "json"@) ==> result_text(reply, o, limit, from, Some(reason), Some(pretty)) == status
                + reason + "\n"@ + header_lines(headers) + "\n"@ + pretty + "\n"@
            &&& !occurs(kind, "json"@) ==> result_text(reply, o, limit, from, Some(reason), Some(pretty)) == status
                + reason + "\n"@ + header_lines(headers) + "\n"@ + reply->body@ + "\n"@
            &&& result_text(reply, o, limit, from, Some(reason), None) == status + reason + "\n"@ + header_lines(headers)
                + "\n"@ + reply->body@ + "\n"@
            &&& result_text(reply, o, limit, from, None, None) == status + "\n"@ + header_lines(headers) + "\n"@
                + reply->body@ + "\n"@
        }),
{
    let headers = pairs(reply->headers@);
    let status = "HTTP/1.1 "@ + decimal(reply->code as nat) + " "@;
    law_search(content_type_in(headers), "json"@);
    assert(status + Seq::<char>::empty() =~= status);
}

/// A failure is reported with the method and the URL of the request: a timeout with the
/// time that passed and the limit and its source, and any other failure with the error.
pub proof fn law_failure_is_shown(
    error: Seq<char>,
    method: Seq<char>,
    url: Seq<char>,
    secs: u64,
    limit: Option<u64>,
    from: Seq<char>,
    elapsed: Seq<char>,
)
    ensures
        error_text(false, error, method, url, limit, from, elapsed) == "# Error running the request\n\n"@ + method
            + " "@ + url + "\n\n"@ + error + "\n"@,
        error_text(true, error, method, url, Some(secs), from, elapsed) == "# Timeout after "@ + elapsed + "s\n\n"@
            + method + " "@ + url + "\n\nLimit: "@ + (decimal(secs as nat) + "s"@) + " (set by "@ + from + ")\n\n"@
            + crate::report::TIMEOUT_ADVICE@,
        error_text(true, error, method, url, None, from, elapsed) == "# Timeout after "@ + elapsed + "s\n\n"@ + method
            + " "@ + url + "\n\nLimit: "@ + "none"@ + " (set by "@ + from + ")\n\n"@ + crate::report::TIMEOUT_ADVICE@,
{
}

/// The report of a reply that failed is that of its error, its time and its request.
pub proof fn law_failed_reply(
    reply: Reply,
    o: OutboundView,
    limit: Option<u64>,
    from: Seq<char>,
    reason: Option<Seq<char>>,
    pretty: Option<Seq<char>>,
)
    requires
        reply is Failure,
    ensures
        result_text(reply, o, limit, from, reason, pretty) == error_text(
            reply->timed_out,
            reply->error@,
            o.method,
            o.url,
            limit,
            from,
            reply->elapsed@,
        ),
{
}

/// Every token without a value has a line of its own in the report, in braces.
pub proof fn law_unresolved_tokens_are_shown(method: Seq<char>, url: Seq<char>, tokens: Seq<Seq<char>>, t: Seq<char>)
    ensures
        token_lines(tokens).len() == tokens.len(),
        forall|i: int|
            0 <= i < tokens.len() ==> (#[trigger] token_lines(tokens)[i]) == "  - {{"@ + tokens[i] + "}}"@,
        tokens.len() > 0 ==> joined(token_lines(tokens.push(t)), "\n"@) == joined(token_lines(tokens), "\n"@) + "\n"@
            + ("  - {{"@ + t + "}}"@),
        unresolved_text(method, url, tokens) == "# Error: unresolved variables\n\n"@ + method + " "@ + url
            + "\n\nThe following variables were not found:\n"@ + joined(token_lines(tokens), "\n"@)
            + "\n\nMake sure they are defined in the .http file itself (@name = value) or in .env (for {{$dotenv NAME}}). The .env file is looked up starting from the .http file's folder, walking up to the workspace root.\n"@,
{
    let l = "  - {{"@ + t + "}}"@;
    assert(token_lines(tokens.push(t)) =~= token_lines(tokens) + seq![l]);
    law_joined(token_lines(tokens), seq![l], "\n"@);
    law_joined(seq![l], seq![], "\n"@);
}

/// The query of a URL, and nothing else of it, is kept out of logs and titles.
pub proof fn law_queries_are_not_logged(path: Seq<char>, query: Seq<char>, method: Seq<char>, secs: u64, from: Seq<char>)
    requires
        !path.contains('?'),
    ensures
        without_query(path) == path,
        without_query(path + seq!['?'] + query) == path,
        progress_text(method, path + seq!['?'] + query) == "Sending "@ + method + " "@ + path,
        send_line_text(method, path + seq!['?'] + query, Some(secs), from) == "=> "@ + method + " "@ + path
            + " (timeout "@ + (decimal(secs as nat) + "s"@) + ", from "@ + from + ")"@,
        send_line_text(method, path + seq!['?'] + query, None, from) == "=> "@ + method + " "@ + path + " (timeout "@
            + "no limit"@ + ", from "@ + from + ")"@,
{
    let u = path + seq!['?'] + query;
    let n = path.len() as int;
    assert forall|i: int| 0 <= i < n implies path[i] != '?' && u[i] != '?' by {
        assert(path.contains(path[i]));
        assert(u[i] == path[i]);
    }
    lemma_until_at(u, '?', n);
    lemma_until_at(path, '?', n);
    assert(u.take(n) =~= path);
    assert(path.take(n) =~= path);
}

/// A request that runs is called by its name, or by its method and URL where it has
/// none.
pub proof fn law_running_request_is_named(r: RequestView, method: Seq<char>, url: Seq<char>)
    ensures
        r.name matches Some(n) ==> busy_text(r) == "⏳ "@ + n + " is already running — wait for the response."@,
        r.name is None ==> busy_text(r) == "⏳ "@ + (r.method + " "@ + r.url)
            + " is already running — wait for the response."@,
        sending_text(method, url) == "# ⏳ Sending…\n\n"@ + method + " "@ + url + "\n"@,
{
}

}

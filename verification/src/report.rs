//! What the user reads: the text of the result tab, warnings, progress titles
//! and log lines.

use vstd::prelude::*;

use crate::digits::write_decimal;
use crate::document::HttpRequest;
use crate::json::prettify;
use crate::scan::{find, join, position_of};
use crate::text::{chars, string};
use crate::timeout::show_limit;
use vstd::slice::slice_subrange;

verus! {

use crate::digits::decimal;
use crate::document::{pairs, RequestView};
use crate::json::pretty_json;
use crate::text::{find_from, joined, lemma_until, opt_text, until, views};
use crate::timeout::limit_text;

/// The warning on a click that matches no request any more.
pub const STALE_BUTTON: &'static str =
    "This button is stuck on an outdated version of the file. Close and reopen this .http file to make the buttons work again.";

/// A URL without its query string, where tokens tend to travel.
pub open spec fn without_query(url: Seq<char>) -> Seq<char> {
    url.take(until(url, '?') as int)
}

/// A URL without its query string.
pub fn url_no_query(url: &str) -> (r: String)
    ensures
        r@ == without_query(url@),
{
    let u = chars(url);
    let n: usize = position_of(u.as_slice(), '?');
    let r = string(slice_subrange(u.as_slice(), 0, n));
    assert(url@.subrange(0, n as int) =~= url@.take(n as int));
    r
}

/// What is logged or shown of a URL has no query string, and is all of it where
/// it has none.
pub proof fn law_no_query_is_shown(url: Seq<char>)
    ensures
        !without_query(url).contains('?'),
        !url.contains('?') ==> without_query(url) == url,
{
    lemma_until(url, '?');
    let n = until(url, '?');
    if without_query(url).contains('?') {
        let i = choose|i: int| 0 <= i < without_query(url).len() && without_query(url)[i] == '?';
        assert(url[i] == '?');
    }
    if !url.contains('?') {
        if n < url.len() {
            assert(url.contains(url[n as int]));
        }
        assert(without_query(url) =~= url);
    }
}

/// The header lines of a response.
pub open spec fn header_lines(headers: Seq<(Seq<char>, Seq<char>)>) -> Seq<char>
    decreases headers.len(),
{
    if headers.len() == 0 {
        seq![]
    } else {
        header_lines(headers.drop_last()) + headers.last().0 + ": "@ + headers.last().1 + "\n"@
    }
}

/// A response as text: status line, headers, an empty line and the body.
pub open spec fn response_text(
    code: u16,
    reason: Seq<char>,
    headers: Seq<(Seq<char>, Seq<char>)>,
    body: Seq<char>,
) -> Seq<char> {
    "HTTP/1.1 "@ + decimal(code as nat) + " "@ + reason + "\n"@ + header_lines(headers) + "\n"@ + body + "\n"@
}

/// The body as it is shown: laid out over lines where the content type speaks of
/// JSON and the body is JSON (`pretty` is then its layout).
pub open spec fn shown_body(content_type: Seq<char>, body: Seq<char>, pretty: Option<Seq<char>>) -> Seq<char> {
    if find_from(content_type, "json"@, 0) is Some {
        match pretty {
            Some(p) => p,
            None => body,
        }
    } else {
        body
    }
}

/// Whether a content type speaks of JSON.
pub fn is_json(content_type: &str) -> (r: bool)
    ensures
        r == (find_from(content_type@, "json"@, 0) is Some),
{
    let c = chars(content_type);
    let p = chars("json");
    find(c.as_slice(), p.as_slice(), 0).is_some()
}

/// The body as it is shown, given its layout as JSON.
pub fn display_body(content_type: &str, body: &str, pretty: Option<String>) -> (r: String)
    ensures
        r@ == shown_body(content_type@, body@, opt_text(pretty)),
{
    if is_json(content_type) {
        match pretty {
            Some(p) => p,
            None => body.to_owned(),
        }
    } else {
        body.to_owned()
    }
}

/// A response as text, with the body as it is shown.
pub fn response_page(code: u16, reason: &str, headers: &Vec<(String, String)>, body: &str) -> (r: String)
    ensures
        r@ == response_text(code, reason@, pairs(headers@), body@),
{
    let ghost all = pairs(headers@);
    let mut out = "HTTP/1.1 ".to_owned();
    out.append(write_decimal(code as u64).as_str());
    out.append(" ");
    out.append(reason);
    out.append("\n");
    let ghost top = out@;
    let mut i: usize = 0;
    assert(all.take(0) =~= seq![]);
    assert(top + header_lines(all.take(0)) =~= top);
    while i < headers.len()
        invariant
            i <= headers@.len(),
            all == pairs(headers@),
            out@ == top + header_lines(all.take(i as int)),
        decreases headers@.len() - i,
    {
        assert(all.take(i + 1).drop_last() =~= all.take(i as int));
        assert(all.take(i + 1).last() == all[i as int]);
        let ghost before = out@;
        out.append(headers[i].0.as_str());
        out.append(": ");
        out.append(headers[i].1.as_str());
        out.append("\n");
        assert(out@ =~= top + header_lines(all.take(i + 1)));
        i = i + 1;
    }
    assert(all.take(i as int) =~= all);
    out.append("\n");
    out.append(body);
    out.append("\n");
    assert(out@ =~= response_text(code, reason@, all, body@));
    out
}

/// A response as the result tab shows it.
pub fn format_response(
    code: u16,
    reason: &str,
    headers: &Vec<(String, String)>,
    body: &str,
    content_type: &str,
) -> (r: String)
    ensures
        r@ == response_text(
            code,
            reason@,
            pairs(headers@),
            shown_body(content_type@, body@, pretty_json(body@)),
        ),
{
    let pretty: Option<String> = if is_json(content_type) {
        prettify(body)
    } else {
        None
    };
    let shown = display_body(content_type, body, pretty);
    response_page(code, reason, headers, shown.as_str())
}

/// A response that is not JSON is shown as it came.
pub proof fn law_other_bodies_are_shown_as_they_are(content_type: Seq<char>, body: Seq<char>, pretty: Option<Seq<char>>)
    requires
        find_from(content_type, "json"@, 0) is None || pretty is None,
    ensures
        shown_body(content_type, body, pretty) == body,
{
}

/// What the result tab shows while a request runs.
pub open spec fn sending_text(method: Seq<char>, url: Seq<char>) -> Seq<char> {
    "# ⏳ Sending…\n\n"@ + method + " "@ + url + "\n"@
}

/// What the result tab shows while a request runs.
pub fn sending_page(method: &str, url: &str) -> (r: String)
    ensures
        r@ == sending_text(method@, url@),
{
    let mut out = "# ⏳ Sending…\n\n".to_owned();
    out.append(method);
    out.append(" ");
    out.append(url);
    out.append("\n");
    out
}

/// One line for each token, in its braces.
pub open spec fn token_lines(tokens: Seq<Seq<char>>) -> Seq<Seq<char>> {
    Seq::new(tokens.len(), |i: int| "  - {{"@ + tokens[i] + "}}"@)
}

/// The report on variables that have no value.
pub open spec fn unresolved_text(method: Seq<char>, url: Seq<char>, tokens: Seq<Seq<char>>) -> Seq<char> {
    "# Error: unresolved variables\n\n"@ + method + " "@ + url
        + "\n\nThe following variables were not found:\n"@ + joined(token_lines(tokens), "\n"@)
        + "\n\nMake sure they are defined in the .http file itself (@name = value) or in .env (for {{$dotenv NAME}}). The .env file is looked up starting from the .http file's folder, walking up to the workspace root.\n"@
}

/// The report on variables that have no value.
pub fn unresolved_page(method: &str, url: &str, tokens: &Vec<String>) -> (r: String)
    ensures
        r@ == unresolved_text(method@, url@, views(tokens@)),
{
    let mut ls: Vec<String> = Vec::new();
    let mut i: usize = 0;
    while i < tokens.len()
        invariant
            i <= tokens@.len(),
            ls@.len() == i,
            forall|j: int| 0 <= j < i ==> (#[trigger] ls@[j])@ == token_lines(views(tokens@))[j],
        decreases tokens@.len() - i,
    {
        let mut l = "  - {{".to_owned();
        l.append(tokens[i].as_str());
        l.append("}}");
        ls.push(l);
        i = i + 1;
    }
    assert(views(ls@) =~= token_lines(views(tokens@)));
    let mut out = "# Error: unresolved variables\n\n".to_owned();
    out.append(method);
    out.append(" ");
    out.append(url);
    out.append("\n\nThe following variables were not found:\n");
    out.append(join(&ls, "\n").as_str());
    out.append(
        "\n\nMake sure they are defined in the .http file itself (@name = value) or in .env (for {{$dotenv NAME}}). The .env file is looked up starting from the .http file's folder, walking up to the workspace root.\n",
    );
    out
}

/// What stands below the limit in the report on a timeout.
pub const TIMEOUT_ADVICE: &'static str =
    "The client stopped waiting, but the server may still be working on this\nrequest — a timeout here does not cancel anything on the other side.\n\nClicking \"Send request\" again does not replace that work: it starts another\nrequest on top of the one still running, which usually makes both slower.\nPrefer waiting, or narrowing the request.\n\nTo allow more time:\n\n  - this request only:  # @timeout 120   (seconds, on a line above it)\n  - whole workspace:    HTTP_REQUEST_TIMEOUT=120   (in .env)\n\nUse 0 in either place to wait with no limit.\n";

/// The report on a request that failed. A timeout has a text of its own, because
/// it does not cancel anything on the other side; `elapsed` is how long the
/// client waited.
pub open spec fn error_text(
    timed_out: bool,
    error: Seq<char>,
    method: Seq<char>,
    url: Seq<char>,
    limit: Option<u64>,
    from: Seq<char>,
    elapsed: Seq<char>,
) -> Seq<char> {
    if timed_out {
        "# Timeout after "@ + elapsed + "s\n\n"@ + method + " "@ + url + "\n\nLimit: "@ + limit_text(limit, "none"@)
            + " (set by "@ + from + ")\n\n"@ + TIMEOUT_ADVICE@
    } else {
        "# Error running the request\n\n"@ + method + " "@ + url + "\n\n"@ + error + "\n"@
    }
}

/// The report on a request that failed.
pub fn format_request_error(
    timed_out: bool,
    error: &str,
    method: &str,
    url: &str,
    timeout: Option<u64>,
    timeout_from: &str,
    elapsed: &str,
) -> (r: String)
    ensures
        r@ == error_text(timed_out, error@, method@, url@, timeout, timeout_from@, elapsed@),
{
    if !timed_out {
        let mut out = "# Error running the request\n\n".to_owned();
        out.append(method);
        out.append(" ");
        out.append(url);
        out.append("\n\n");
        out.append(error);
        out.append("\n");
        return out;
    }
    let mut out = "# Timeout after ".to_owned();
    out.append(elapsed);
    out.append("s\n\n");
    out.append(method);
    out.append(" ");
    out.append(url);
    out.append("\n\nLimit: ");
    out.append(show_limit(timeout, "none").as_str());
    out.append(" (set by ");
    out.append(timeout_from);
    out.append(")\n\n");
    out.append(TIMEOUT_ADVICE);
    out
}

/// What a request is called in a warning: its name, or else its method and URL.
pub open spec fn called(r: RequestView) -> Seq<char> {
    match r.name {
        Some(n) => n,
        None => r.method + " "@ + r.url,
    }
}

/// The warning on a click while the request runs already.
pub open spec fn busy_text(r: RequestView) -> Seq<char> {
    "⏳ "@ + called(r) + " is already running — wait for the response."@
}

/// The warning on a click while the request runs already.
pub fn busy_warning(req: &HttpRequest) -> (r: String)
    ensures
        r@ == busy_text(req@),
{
    let mut out = "⏳ ".to_owned();
    match &req.name {
        Some(n) => {
            out.append(n.as_str());
        },
        None => {
            out.append(req.method.as_str());
            out.append(" ");
            out.append(req.url.as_str());
            assert("⏳ "@ + req@.method + " "@ + req@.url =~= "⏳ "@ + called(req@));
        },
    }
    out.append(" is already running — wait for the response.");
    out
}

/// The title of the progress of a request.
pub open spec fn progress_text(method: Seq<char>, url: Seq<char>) -> Seq<char> {
    "Sending "@ + method + " "@ + without_query(url)
}

/// The title of the progress of a request.
pub fn progress_title(method: &str, url: &str) -> (r: String)
    ensures
        r@ == progress_text(method@, url@),
{
    let mut out = "Sending ".to_owned();
    out.append(method);
    out.append(" ");
    out.append(url_no_query(url).as_str());
    out
}

/// The log line of a request: where it goes, its limit, and what set the limit.
pub open spec fn send_line_text(
    method: Seq<char>,
    url: Seq<char>,
    limit: Option<u64>,
    from: Seq<char>,
) -> Seq<char> {
    "=> "@ + method + " "@ + without_query(url) + " (timeout "@ + limit_text(limit, "no limit"@) + ", from "@ + from
        + ")"@
}

/// The log line of a request.
pub fn send_line(method: &str, url: &str, timeout: Option<u64>, timeout_from: &str) -> (r: String)
    ensures
        r@ == send_line_text(method@, url@, timeout, timeout_from@),
{
    let mut out = "=> ".to_owned();
    out.append(method);
    out.append(" ");
    out.append(url_no_query(url).as_str());
    out.append(" (timeout ");
    out.append(show_limit(timeout, "no limit").as_str());
    out.append(", from ");
    out.append(timeout_from);
    out.append(")");
    out
}

}

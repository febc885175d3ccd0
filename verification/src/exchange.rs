//! One request and its response: what is sent, when it is not sent, and what is
//! kept of the answer.

use vstd::prelude::*;

use crate::document::HttpRequest;
use crate::includes::expand_file_includes;
use crate::json::{parse_json, Json};
use crate::report::unresolved_page;
use crate::scan::equal_ignoring_case;
use crate::table::Table;
use crate::text::chars;
use crate::vars::{collect_unresolved, resolve_vars, StoredResponse};

verus! {

use crate::document::{pairs, RequestView};
use crate::includes::{expanded, read_texts};
use crate::json::{parsed_json, JsonView};
use crate::report::unresolved_text;
use crate::text::{opt_text, same_ignoring_case, views};
use crate::vars::{collected, env, lemma_collected_keeps, resolved, Env, ResponseView};

/// A request with its variables resolved.
pub struct Outbound {
    pub method: String,
    pub url: String,
    pub headers: Vec<(String, String)>,
    pub body: Option<String>,
}

/// An outbound request in mathematical terms.
pub struct OutboundView {
    pub method: Seq<char>,
    pub url: Seq<char>,
    pub headers: Seq<(Seq<char>, Seq<char>)>,
    pub body: Option<Seq<char>>,
}

impl View for Outbound {
    type V = OutboundView;

    open spec fn view(&self) -> OutboundView {
        OutboundView {
            method: self.method@,
            url: self.url@,
            headers: pairs(self.headers@),
            body: opt_text(self.body),
        }
    }
}

/// Header names and values with their variables resolved.
pub open spec fn resolved_headers(headers: Seq<(Seq<char>, Seq<char>)>, e: Env) -> Seq<(Seq<char>, Seq<char>)> {
    Seq::new(headers.len(), |i: int| (resolved(headers[i].0, e), resolved(headers[i].1, e)))
}

/// A request with its variables resolved. The files of its body are not taken in
/// yet.
pub open spec fn outbound(r: RequestView, e: Env) -> OutboundView {
    OutboundView {
        method: resolved(r.method, e),
        url: resolved(r.url, e),
        headers: resolved_headers(r.headers, e),
        body: match r.body {
            Some(b) => Some(resolved(b, e)),
            None => None,
        },
    }
}

/// A request with the files of its body taken in.
pub open spec fn with_files(o: OutboundView, contents: Seq<Option<Seq<char>>>, e: Env) -> OutboundView {
    OutboundView {
        body: match o.body {
            Some(b) => Some(expanded(b, contents, e)),
            None => None,
        },
        ..o
    }
}

/// A request with its variables resolved.
pub fn resolve_outbound(
    req: &HttpRequest,
    file_vars: &Table<String>,
    dotenv: &Table<String>,
    responses: &Table<StoredResponse>,
) -> (r: Outbound)
    ensures
        r@ == outbound(req@, env(*file_vars, *dotenv, *responses)),
{
    let ghost e = env(*file_vars, *dotenv, *responses);
    let method = resolve_vars(req.method.as_str(), file_vars, dotenv, responses);
    let url = resolve_vars(req.url.as_str(), file_vars, dotenv, responses);
    let mut headers: Vec<(String, String)> = Vec::new();
    let mut i: usize = 0;
    while i < req.headers.len()
        invariant
            i <= req.headers@.len(),
            headers@.len() == i,
            e == env(*file_vars, *dotenv, *responses),
            forall|j: int|
                0 <= j < i ==> (#[trigger] pairs(headers@)[j]) == resolved_headers(pairs(req.headers@), e)[j],
        decreases req.headers@.len() - i,
    {
        let ghost before = headers@;
        let k = resolve_vars(req.headers[i].0.as_str(), file_vars, dotenv, responses);
        let v = resolve_vars(req.headers[i].1.as_str(), file_vars, dotenv, responses);
        headers.push((k, v));
        assert forall|j: int| 0 <= j < i + 1 implies (#[trigger] pairs(headers@)[j]) == resolved_headers(
            pairs(req.headers@),
            e,
        )[j] by {
            if j < i {
                assert(pairs(headers@)[j] == pairs(before)[j]);
            }
        }
        i = i + 1;
    }
    assert(pairs(headers@) =~= resolved_headers(pairs(req.headers@), e));
    let body: Option<String> = match &req.body {
        Some(b) => Some(resolve_vars(b.as_str(), file_vars, dotenv, responses)),
        None => None,
    };
    Outbound { method, url, headers, body }
}

/// A request with the files of its body taken in; `contents` is what was read for
/// each line of the body.
pub fn take_in_files(
    o: Outbound,
    contents: &Vec<Option<String>>,
    file_vars: &Table<String>,
    dotenv: &Table<String>,
    responses: &Table<StoredResponse>,
) -> (r: Outbound)
    ensures
        r@ == with_files(o@, read_texts(contents@), env(*file_vars, *dotenv, *responses)),
{
    let body: Option<String> = match &o.body {
        Some(b) => Some(expand_file_includes(b.as_str(), contents, file_vars, dotenv, responses)),
        None => None,
    };
    Outbound { method: o.method, url: o.url, headers: o.headers, body }
}

/// The tokens in headers, added to those that were found before.
pub open spec fn header_tokens(headers: Seq<(Seq<char>, Seq<char>)>, found: Seq<Seq<char>>) -> Seq<Seq<char>>
    decreases headers.len(),
{
    if headers.len() == 0 {
        found
    } else {
        let before = header_tokens(headers.drop_last(), found);
        collected(headers.last().1, 0, collected(headers.last().0, 0, before))
    }
}

/// The variables that are left in a request: in its method, URL, headers and body,
/// each once.
pub open spec fn missing(o: OutboundView) -> Seq<Seq<char>> {
    let found = header_tokens(o.headers, collected(o.url, 0, collected(o.method, 0, seq![])));
    match o.body {
        Some(b) => collected(b, 0, found),
        None => found,
    }
}

/// The variables that are left in a request.
pub fn missing_variables(o: &Outbound) -> (r: Vec<String>)
    ensures
        views(r@) == missing(o@),
{
    let ghost all = pairs(o.headers@);
    let mut found: Vec<String> = Vec::new();
    assert(views(found@) =~= seq![]);
    collect_unresolved(o.method.as_str(), &mut found);
    collect_unresolved(o.url.as_str(), &mut found);
    let ghost start = views(found@);
    let mut i: usize = 0;
    assert(all.take(0) =~= seq![]);
    while i < o.headers.len()
        invariant
            i <= o.headers@.len(),
            all == pairs(o.headers@),
            views(found@) == header_tokens(all.take(i as int), start),
        decreases o.headers@.len() - i,
    {
        assert(all.take(i + 1).drop_last() =~= all.take(i as int));
        assert(all.take(i + 1).last() == all[i as int]);
        collect_unresolved(o.headers[i].0.as_str(), &mut found);
        collect_unresolved(o.headers[i].1.as_str(), &mut found);
        i = i + 1;
    }
    assert(all.take(i as int) =~= all);
    if let Some(b) = &o.body {
        collect_unresolved(b.as_str(), &mut found);
    }
    found
}

/// A request with variables left is not sent: the report on them takes the place
/// of its response. Nothing comes back where it is sent.
pub fn refusal(o: &Outbound) -> (r: Option<String>)
    ensures
        match r {
            None => missing(o@).len() == 0,
            Some(page) => missing(o@).len() > 0 && page@ == unresolved_text(o@.method, o@.url, missing(o@)),
        },
{
    let found = missing_variables(o);
    assert(views(found@).len() == found@.len());
    if found.len() == 0 {
        None
    } else {
        Some(unresolved_page(o.method.as_str(), o.url.as_str(), &found))
    }
}

proof fn lemma_header_tokens_keep(headers: Seq<(Seq<char>, Seq<char>)>, found: Seq<Seq<char>>)
    ensures
        found.len() <= header_tokens(headers, found).len(),
    decreases headers.len(),
{
    if headers.len() > 0 {
        let before = header_tokens(headers.drop_last(), found);
        lemma_header_tokens_keep(headers.drop_last(), found);
        lemma_collected_keeps(headers.last().0, 0, before);
        lemma_collected_keeps(headers.last().1, 0, collected(headers.last().0, 0, before));
    }
}

proof fn lemma_header_tokens_none(headers: Seq<(Seq<char>, Seq<char>)>, i: int)
    requires
        header_tokens(headers, seq![]).len() == 0,
        0 <= i < headers.len(),
    ensures
        collected(headers[i].0, 0, seq![]).len() == 0,
        collected(headers[i].1, 0, seq![]).len() == 0,
    decreases headers.len(),
{
    let before = header_tokens(headers.drop_last(), seq![]);
    lemma_collected_keeps(headers.last().0, 0, before);
    lemma_collected_keeps(headers.last().1, 0, collected(headers.last().0, 0, before));
    assert(before =~= seq![]);
    if i == headers.len() - 1 {
        assert(collected(headers.last().0, 0, before) =~= seq![]);
    } else {
        lemma_header_tokens_none(headers.drop_last(), i);
    }
}

/// A request that is sent holds no variable any more, in any of its parts.
pub proof fn law_nothing_unresolved_is_sent(o: OutboundView)
    requires
        missing(o).len() == 0,
    ensures
        collected(o.method, 0, seq![]).len() == 0,
        collected(o.url, 0, seq![]).len() == 0,
        forall|i: int|
            0 <= i < o.headers.len() ==> collected((#[trigger] o.headers[i]).0, 0, seq![]).len() == 0 && collected(
                o.headers[i].1,
                0,
                seq![],
            ).len() == 0,
        o.body matches Some(b) ==> collected(b, 0, seq![]).len() == 0,
{
    let m = collected(o.method, 0, seq![]);
    let u = collected(o.url, 0, m);
    let h = header_tokens(o.headers, u);
    lemma_collected_keeps(o.method, 0, seq![]);
    lemma_collected_keeps(o.url, 0, m);
    lemma_header_tokens_keep(o.headers, u);
    if let Some(b) = o.body {
        lemma_collected_keeps(b, 0, h);
    }
    assert(m =~= seq![]);
    assert(u =~= seq![]);
    assert(h =~= seq![]);
    assert forall|i: int| 0 <= i < o.headers.len() implies collected((#[trigger] o.headers[i]).0, 0, seq![]).len() == 0
        && collected(o.headers[i].1, 0, seq![]).len() == 0 by {
        lemma_header_tokens_none(o.headers, i);
    }
}

/// The value of the last header that names a content type.
pub open spec fn content_type_in(headers: Seq<(Seq<char>, Seq<char>)>) -> Seq<char>
    decreases headers.len(),
{
    if headers.len() == 0 {
        seq![]
    } else if same_ignoring_case(headers.last().0, "content-type"@) {
        headers.last().1
    } else {
        content_type_in(headers.drop_last())
    }
}

/// The content type of a response, or an empty text.
pub fn content_type(headers: &Vec<(String, String)>) -> (r: String)
    ensures
        r@ == content_type_in(pairs(headers@)),
{
    let ghost all = pairs(headers@);
    let wanted = chars("content-type");
    let mut n: usize = headers.len();
    assert(all.take(n as int) =~= all);
    while n > 0
        invariant
            n <= headers@.len(),
            all == pairs(headers@),
            wanted@ == "content-type"@,
            content_type_in(all) == content_type_in(all.take(n as int)),
        decreases n,
    {
        assert(all.take(n as int).drop_last() =~= all.take(n - 1));
        assert(all.take(n as int).last() == all[n - 1]);
        let k = chars(headers[n - 1].0.as_str());
        if equal_ignoring_case(k.as_slice(), wanted.as_slice()) {
            return headers[n - 1].1.clone();
        }
        n = n - 1;
    }
    String::new()
}

/// The standard reason phrase of a status code, where it has one.
pub uninterp spec fn standard_reason(code: u16) -> Option<Seq<char>>;

/// `StatusCode::canonical_reason` of the `http` crate: the standard reason phrase
/// of a status code. It has none for a number that is no status code, which are
/// those below 100 and above 999. Which phrase belongs to which code is not said
/// here.
#[verifier::external_body]
fn known_reason(code: u16) -> (r: Option<String>)
    ensures
        opt_text(r) == standard_reason(code),
        code < 100 || code > 999 ==> r is None,
{
    match ureq::http::StatusCode::from_u16(code) {
        Ok(status) => status.canonical_reason().map(|s| s.to_string()),
        Err(_) => None,
    }
}

/// The reason phrase of a status code, or an empty text.
pub fn reason_phrase(code: u16) -> (r: String)
    ensures
        r@ == (match standard_reason(code) {
            Some(s) => s,
            None => seq![],
        }),
{
    match known_reason(code) {
        Some(s) => s,
        None => String::new(),
    }
}

/// What is kept of a response. `parsed` is the JSON value of the body, where it is
/// JSON; any other body is kept as one text.
pub open spec fn kept_response(
    status: u16,
    parsed: Option<JsonView>,
    body: Seq<char>,
    headers: Seq<(Seq<char>, Seq<char>)>,
) -> ResponseView {
    ResponseView {
        status,
        body: match parsed {
            Some(v) => v,
            None => JsonView::Text(body),
        },
        headers,
    }
}

/// What is kept of a response, given the JSON value of its body.
pub fn stored_as(status: u16, parsed: Option<Json>, body: &str, headers: Vec<(String, String)>) -> (r: StoredResponse)
    ensures
        r@ == kept_response(
            status,
            match parsed {
                Some(v) => Some(v@),
                None => None,
            },
            body@,
            pairs(headers@),
        ),
{
    let body: Json = match parsed {
        Some(v) => v,
        None => Json::Text(body.to_owned()),
    };
    StoredResponse { status, body, headers }
}

/// What is kept of a response.
pub fn stored_response(status: u16, body: &str, headers: Vec<(String, String)>) -> (r: StoredResponse)
    ensures
        r@ == kept_response(status, parsed_json(body@), body@, pairs(headers@)),
{
    stored_as(status, parse_json(body), body, headers)
}

}

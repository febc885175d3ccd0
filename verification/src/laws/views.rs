//! The mathematical values leave nothing of the values out.

use vstd::prelude::*;

use crate::click::Click;
use crate::document::HttpRequest;
use crate::exchange::Outbound;
use crate::json::Json;
use crate::lens::Lens;
use crate::vars::StoredResponse;

verus! {

use crate::document::pairs;
use crate::dotenv::file_texts;
use crate::includes::read_texts;
use crate::json::{lemma_nested_view, JsonView};
use crate::store::groups;
use crate::text::{opt_text, views};

/// Lists of texts, of pairs and of optional texts hold each of their items, in order.
pub proof fn law_lists(
    a: Seq<(String, String)>,
    b: Seq<Option<String>>,
    c: Seq<String>,
    d: Seq<(String, Vec<(String, String)>)>,
    i: int,
)
    ensures
        pairs(a).len() == a.len(),
        0 <= i < a.len() ==> pairs(a)[i] == (a[i].0@, a[i].1@),
        read_texts(b).len() == b.len(),
        file_texts(b).len() == b.len(),
        0 <= i < b.len() ==> read_texts(b)[i] == (match b[i] {
            Some(t) => Some(t@),
            None => None,
        }) && file_texts(b)[i] == read_texts(b)[i],
        views(c).len() == c.len(),
        0 <= i < c.len() ==> views(c)[i] == c[i]@,
        groups(d).len() == d.len(),
        0 <= i < d.len() ==> groups(d)[i] == (d[i].0@, pairs(d[i].1@)),
{
}

/// A request, as it was read and as it is sent.
pub proof fn law_requests(r: HttpRequest, o: Outbound)
    ensures
        r@.line == r.line,
        r@.method == r.method@,
        r@.url == r.url@,
        r@.headers == pairs(r.headers@),
        r@.name == opt_text(r.name),
        r@.body == opt_text(r.body),
        r@.timeout_raw == opt_text(r.timeout_raw),
        r.body matches Some(b) ==> r@.body == Some(b@),
        r.body is None ==> r@.body is None,
        r.name matches Some(n) ==> r@.name == Some(n@),
        r.name is None ==> r@.name is None,
        o@.method == o.method@,
        o@.url == o.url@,
        o@.headers == pairs(o.headers@),
        o.body matches Some(b) ==> o@.body == Some(b@),
        o.body is None ==> o@.body is None,
{
}

/// A stored response, a click and a lens.
pub proof fn law_records(r: StoredResponse, c: Click, l: Lens)
    ensures
        r@.status == r.status,
        r@.body == r.body@,
        r@.headers == pairs(r.headers@),
        c@.uri == c.uri@,
        c@.line == c.line,
        c@.key == c.key,
        c@.nth == c.nth,
        c@.name == opt_text(c.name),
        c@.method == opt_text(c.method),
        l@.line == l.line,
        l@.title == l.title@,
        l@.command == l.command@,
        l@.arguments == views(l.arguments@),
{
}

/// A JSON value.
pub proof fn law_json(v: Json, i: int)
    ensures
        v is Null <==> v@ is Null,
        v matches Json::Bool(b) ==> v@ == JsonView::Bool(b),
        v matches Json::Number { text, uint } ==> v@ == (JsonView::Number { text: text@, uint }),
        v matches Json::Text(s) ==> v@ == JsonView::Text(s@),
        v matches Json::Array { items, text } ==> (v@ matches JsonView::Array { items: w, text: t } && t == text@
            && w.len() == items@.len() && (0 <= i < w.len() ==> w[i] == items@[i]@)),
        v matches Json::Object { members, text } ==> (v@ matches JsonView::Object { members: w, text: t } && t == text@
            && w.len() == members@.len() && (0 <= i < w.len() ==> w[i] == (members@[i].0@, members@[i].1@))),
{
    lemma_nested_view(v);
}

}

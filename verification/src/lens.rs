//! Code lenses: the "Send request" buttons, and the request that a click on
//! one of them means.

use vstd::prelude::*;

use crate::digits::{write_decimal, write_hex16};
use crate::document::{parse_document, HttpRequest};
use crate::hash::hash_text;
use crate::json::Json;
use crate::scan::{equal_ignoring_case, same, trimmed, uppercase};
use crate::text::{chars, string};

verus! {

use crate::digits::{decimal, hex_padded};
use crate::document::{document, line_number, RequestView};
use crate::hash::text_hash;
use crate::json::JsonView;
use crate::text::{opt_str, same_ignoring_case, trim, upper_all, views};

/// The command behind a lens.
pub const CMD_SEND: &'static str = "http.sendRequest";

/// A command that does nothing.
pub const CMD_NOOP: &'static str = "http.noop";

/// A text, or the empty one where there is none.
pub open spec fn or_empty(o: Option<Seq<char>>) -> Seq<char> {
    match o {
        Some(s) => s,
        None => seq![],
    }
}

/// What identifies a request whatever its position: method, URL and name.
pub open spec fn key_text(r: RequestView) -> Seq<char> {
    upper_all(r.method) + "\n"@ + trim(r.url) + "\n"@ + or_empty(r.name)
}

/// The identity of a request.
pub open spec fn key_of(r: RequestView) -> u64 {
    text_hash(key_text(r))
}

/// How many of the first `n` requests have an identity.
pub open spec fn count_key(reqs: Seq<RequestView>, key: u64, n: int) -> int
    decreases n,
{
    if n <= 0 {
        0
    } else {
        count_key(reqs, key, n - 1) + if key_of(reqs[n - 1]) == key {
            1int
        } else {
            0int
        }
    }
}

/// How many requests of the same identity stand before request `i`.
pub open spec fn nth_of(reqs: Seq<RequestView>, i: int) -> u32 {
    line_number(count_key(reqs, key_of(reqs[i]), i))
}

/// The identity of each request and its number among those of that identity.
pub open spec fn keys_of(reqs: Seq<RequestView>) -> Seq<(u64, u32)> {
    Seq::new(reqs.len(), |i: int| (key_of(reqs[i]), nth_of(reqs, i)))
}

/// What a lens shows of the requests: their lines and names.
pub open spec fn shape(reqs: Seq<RequestView>) -> Seq<char>
    decreases reqs.len(),
{
    if reqs.len() == 0 {
        seq![]
    } else {
        shape(reqs.drop_last()) + decimal(reqs.last().line as nat) + ":"@ + or_empty(reqs.last().name) + "\n"@
    }
}

/// The signature of the lenses of a document.
pub open spec fn signature(text: Seq<char>) -> u64 {
    text_hash(shape(document(text).requests))
}

/// The arguments that a lens hands back on a click, from the hint that survives
/// most edits to the one that survives fewest: the name, the identity with its
/// number, the line, and the method that corroborates the line.
pub open spec fn lens_arguments(uri: Seq<char>, reqs: Seq<RequestView>, i: int) -> Seq<JsonView> {
    let r = reqs[i];
    seq![
        JsonView::Text(uri),
        JsonView::Number { text: decimal(r.line as nat), uint: Some(r.line as u64) },
        JsonView::Text(hex_padded(key_of(r) as nat, 16)),
        JsonView::Number { text: decimal(nth_of(reqs, i) as nat), uint: Some(nth_of(reqs, i) as u64) },
        JsonView::Text(or_empty(r.name)),
        JsonView::Text(r.method),
    ]
}

/// What a lens says.
pub open spec fn lens_title(r: RequestView) -> Seq<char> {
    match r.name {
        Some(n) => "▶ Send request  ("@ + n + ")"@,
        None => "▶ Send request"@,
    }
}

/// A lens: a button on a line.
pub struct Lens {
    pub line: u32,
    pub title: String,
    pub command: String,
    pub arguments: Vec<Json>,
}

/// A lens in mathematical terms.
pub struct LensView {
    pub line: u32,
    pub title: Seq<char>,
    pub command: Seq<char>,
    pub arguments: Seq<JsonView>,
}

impl View for Lens {
    type V = LensView;

    open spec fn view(&self) -> LensView {
        LensView {
            line: self.line,
            title: self.title@,
            command: self.command@,
            arguments: views(self.arguments@),
        }
    }
}

/// The lens of request `i`.
pub open spec fn lens_of(uri: Seq<char>, reqs: Seq<RequestView>, i: int) -> LensView {
    LensView {
        line: reqs[i].line,
        title: lens_title(reqs[i]),
        command: CMD_SEND@,
        arguments: lens_arguments(uri, reqs, i),
    }
}

/// The lenses of a document: one for each request, and none in the result
/// buffer. Whether a request is running makes no difference.
pub open spec fn lenses_of(uri: Seq<char>, result_uri: Seq<char>, text: Seq<char>) -> Seq<LensView> {
    let reqs = document(text).requests;
    if uri == result_uri {
        seq![]
    } else {
        Seq::new(reqs.len(), |i: int| lens_of(uri, reqs, i))
    }
}

/// The identity of a request, stable under changes of position: method, URL and
/// name.
pub fn request_key(req: &HttpRequest) -> (r: u64)
    ensures
        r == key_of(req@),
{
    let method = chars(req.method.as_str());
    let url = chars(req.url.as_str());
    let mut s = string(uppercase(method.as_slice()).as_slice());
    s.append("\n");
    s.append(string(trimmed(url.as_slice())).as_str());
    s.append("\n");
    match &req.name {
        Some(n) => {
            s.append(n.as_str());
        },
        None => {
            assert(s@ + or_empty(req@.name) =~= s@);
        },
    }
    hash_text(s.as_str())
}

/// The identity of each request and its number among those of that identity,
/// which tells identical requests apart.
pub fn request_keys(reqs: &Vec<HttpRequest>) -> (r: Vec<(u64, u32)>)
    ensures
        r@ == keys_of(views(reqs@)),
{
    let ghost all = views(reqs@);
    let mut keys: Vec<(u64, u32)> = Vec::new();
    let mut i: usize = 0;
    while i < reqs.len()
        invariant
            i <= reqs@.len(),
            all == views(reqs@),
            keys@.len() == i,
            forall|j: int| 0 <= j < i ==> #[trigger] keys@[j] == keys_of(all)[j],
        decreases reqs@.len() - i,
    {
        let key: u64 = request_key(&reqs[i]);
        let mut nth: u32 = 0;
        let mut j: usize = 0;
        while j < i
            invariant
                j <= i == keys@.len(),
                i < all.len(),
                all == views(reqs@),
                forall|m: int| 0 <= m < i ==> #[trigger] keys@[m] == keys_of(all)[m],
                nth == line_number(count_key(all, key, j as int)),
                0 <= count_key(all, key, j as int),
            decreases i - j,
        {
            if keys[j].0 == key {
                nth = nth.wrapping_add(1);
            }
            j = j + 1;
        }
        keys.push((key, nth));
        i = i + 1;
    }
    assert(keys@ =~= keys_of(all));
    keys
}

/// The signature of the lenses of a document: the line and the name of each
/// request. It tells whether an edit has touched any lens.
pub fn lens_signature(text: &str) -> (r: u64)
    ensures
        r == signature(text@),
{
    let (_vars, reqs) = parse_document(text);
    let ghost all = views(reqs@);
    let mut out = String::new();
    let mut i: usize = 0;
    assert(all.take(0) =~= seq![]);
    while i < reqs.len()
        invariant
            i <= reqs@.len(),
            all == views(reqs@),
            out@ == shape(all.take(i as int)),
        decreases reqs@.len() - i,
    {
        assert(all.take(i + 1).drop_last() =~= all.take(i as int));
        assert(all.take(i + 1).last() == reqs@[i as int]@);
        out.append(write_decimal(reqs[i].line as u64).as_str());
        out.append(":");
        match &reqs[i].name {
            Some(n) => {
                out.append(n.as_str());
            },
            None => {
                assert(out@ + or_empty(reqs@[i as int]@.name) =~= out@);
            },
        }
        out.append("\n");
        i = i + 1;
    }
    assert(all.take(i as int) =~= all);
    hash_text(out.as_str())
}

fn number_argument(n: u32) -> (r: Json)
    ensures
        r@ == (JsonView::Number { text: decimal(n as nat), uint: Some(n as u64) }),
{
    Json::Number { text: write_decimal(n as u64), uint: Some(n as u64) }
}

fn lens_for(uri: &str, reqs: &Vec<HttpRequest>, keys: &Vec<(u64, u32)>, i: usize) -> (r: Lens)
    requires
        i < reqs@.len(),
        keys@ == keys_of(views(reqs@)),
    ensures
        r@ == lens_of(uri@, views(reqs@), i as int),
{
    let ghost all = views(reqs@);
    let req = &reqs[i];
    assert(req@ == all[i as int]);
    let title = match &req.name {
        Some(n) => {
            let mut t = "▶ Send request  (".to_owned();
            t.append(n.as_str());
            t.append(")");
            t
        },
        None => "▶ Send request".to_owned(),
    };
    let name = match &req.name {
        Some(n) => n.clone(),
        None => String::new(),
    };
    let mut arguments: Vec<Json> = Vec::new();
    arguments.push(Json::Text(uri.to_owned()));
    arguments.push(number_argument(req.line));
    arguments.push(Json::Text(write_hex16(keys[i].0)));
    arguments.push(number_argument(keys[i].1));
    arguments.push(Json::Text(name));
    arguments.push(Json::Text(req.method.clone()));
    assert(views(arguments@) =~= lens_arguments(uri@, all, i as int));
    Lens { line: req.line, title, command: CMD_SEND.to_owned(), arguments }
}

/// The lenses of the document `uri`, which reads `text`.
pub fn code_lenses(uri: &str, result_uri: &str, text: &str) -> (r: Vec<Lens>)
    ensures
        views(r@) == lenses_of(uri@, result_uri@, text@),
{
    let mut lenses: Vec<Lens> = Vec::new();
    if same(uri, result_uri) {
        assert(views(lenses@) =~= seq![]);
        return lenses;
    }
    let (_vars, reqs) = parse_document(text);
    let keys = request_keys(&reqs);
    let mut i: usize = 0;
    while i < reqs.len()
        invariant
            i <= reqs@.len(),
            lenses@.len() == i,
            keys@ == keys_of(views(reqs@)),
            forall|j: int| 0 <= j < i ==> (#[trigger] lenses@[j])@ == lens_of(uri@, views(reqs@), j),
        decreases reqs@.len() - i,
    {
        lenses.push(lens_for(uri, &reqs, &keys, i));
        i = i + 1;
    }
    assert(views(lenses@) =~= lenses_of(uri@, result_uri@, text@));
    lenses
}

/// The requests among the first `n` that have a name, where one is given, and
/// an identity, where one is given.
pub open spec fn hinted(reqs: Seq<RequestView>, name: Option<Seq<char>>, key: Option<u64>, n: int) -> Seq<int>
    decreases n,
{
    if n <= 0 {
        seq![]
    } else {
        let before = hinted(reqs, name, key, n - 1);
        let r = reqs[n - 1];
        if (name is Some ==> r.name == name) && (key is Some ==> key_of(r) == key->0) {
            before.push(n - 1)
        } else {
            before
        }
    }
}

/// How far a request is from a line.
pub open spec fn distance(r: RequestView, line: u32) -> int {
    if r.line >= line {
        r.line - line
    } else {
        line - r.line
    }
}

/// The first of some requests that is as near to a line as any of them.
pub open spec fn nearest(reqs: Seq<RequestView>, pool: Seq<int>, line: u32) -> int
    decreases pool.len(),
{
    if pool.len() <= 1 {
        pool[0]
    } else {
        let best = nearest(reqs, pool.drop_last(), line);
        if distance(reqs[pool.last()], line) < distance(reqs[best], line) {
            pool.last()
        } else {
            best
        }
    }
}

/// The first of some requests with a number among those of its identity.
pub open spec fn numbered(reqs: Seq<RequestView>, pool: Seq<int>, nth: Option<u32>) -> Option<int>
    decreases pool.len(),
{
    if pool.len() == 0 {
        None
    } else if Some(nth_of(reqs, pool[0])) == nth {
        Some(pool[0])
    } else {
        numbered(reqs, pool.drop_first(), nth)
    }
}

/// Whether some requests all have the identity of the first one.
pub open spec fn one_identity(reqs: Seq<RequestView>, pool: Seq<int>) -> bool {
    forall|j: int| 0 <= j < pool.len() ==> key_of(reqs[#[trigger] pool[j]]) == key_of(reqs[pool[0]])
}

/// The one that is meant among several: where they share an identity, the one
/// with the number that the lens noted; else the one nearest to the line.
pub open spec fn tiebreak(reqs: Seq<RequestView>, pool: Seq<int>, line: u32, nth: Option<u32>) -> int {
    if pool.len() > 1 && one_identity(reqs, pool) && numbered(reqs, pool, nth) is Some {
        numbered(reqs, pool, nth)->0
    } else {
        nearest(reqs, pool, line)
    }
}

/// The first request at or after `i` on a line.
pub open spec fn on_line(reqs: Seq<RequestView>, line: u32, i: int) -> Option<int>
    decreases reqs.len() - i,
{
    if i < 0 || i >= reqs.len() {
        None
    } else if reqs[i].line == line {
        Some(i)
    } else {
        on_line(reqs, line, i + 1)
    }
}

/// The request that a click means, and which hint told: first the name (the
/// full identity decides among namesakes while it still matches), then the
/// identity, then the line, where the method must agree if it is known.
pub open spec fn meant(
    reqs: Seq<RequestView>,
    line: u32,
    key: Option<u64>,
    nth: Option<u32>,
    name: Option<Seq<char>>,
    method: Option<Seq<char>>,
) -> Option<(int, Seq<char>)> {
    let n = reqs.len() as int;
    let named = hinted(reqs, name, None, n);
    let exact = hinted(reqs, name, key, n);
    let keyed = hinted(reqs, None, key, n);
    if name is Some && name->0.len() > 0 && named.len() > 0 {
        let pool = if key is Some && exact.len() > 0 {
            exact
        } else {
            named
        };
        Some((tiebreak(reqs, pool, line, nth), "name"@))
    } else if key is Some && keyed.len() > 0 {
        Some((tiebreak(reqs, keyed, line, nth), "identity"@))
    } else {
        match on_line(reqs, line, 0) {
            Some(i) => if method is None || same_ignoring_case(method->0, reqs[i].method) {
                Some((i, "line"@))
            } else {
                None
            },
            None => None,
        }
    }
}

/// The indices of a list in mathematical terms.
pub open spec fn ints(s: Seq<usize>) -> Seq<int> {
    Seq::new(s.len(), |i: int| s[i] as int)
}

/// The members of a pool are the requests that the hints allow.
pub proof fn lemma_hinted(reqs: Seq<RequestView>, name: Option<Seq<char>>, key: Option<u64>, n: int)
    requires
        n <= reqs.len(),
    ensures
        forall|j: int| #![trigger hinted(reqs, name, key, n)[j]]
            0 <= j < hinted(reqs, name, key, n).len() ==> {
                let i = hinted(reqs, name, key, n)[j];
                &&& 0 <= i < n
                &&& (name is Some ==> reqs[i].name == name)
                &&& (key is Some ==> key_of(reqs[i]) == key->0)
            },
        forall|i: int|
            #![trigger reqs[i]]
            0 <= i < n && (name is Some ==> reqs[i].name == name) && (key is Some ==> key_of(reqs[i]) == key->0)
                ==> hinted(reqs, name, key, n).contains(i),
    decreases n,
{
    if n > 0 {
        lemma_hinted(reqs, name, key, n - 1);
        let before = hinted(reqs, name, key, n - 1);
        let now = hinted(reqs, name, key, n);
        assert forall|i: int|
            #![trigger reqs[i]]
            0 <= i < n && (name is Some ==> reqs[i].name == name) && (key is Some ==> key_of(reqs[i]) == key->0)
            implies now.contains(i) by {
            if i == n - 1 {
                assert(now[now.len() - 1] == i);
            } else {
                let j = choose|j: int| 0 <= j < before.len() && before[j] == i;
                assert(now[j] == i);
            }
        }
    }
}

proof fn lemma_nearest(reqs: Seq<RequestView>, pool: Seq<int>, line: u32)
    requires
        pool.len() > 0,
    ensures
        pool.contains(nearest(reqs, pool, line)),
    decreases pool.len(),
{
    if pool.len() > 1 {
        let front = pool.drop_last();
        lemma_nearest(reqs, front, line);
        let best = nearest(reqs, front, line);
        let j = choose|j: int| 0 <= j < front.len() && front[j] == best;
        assert(pool[j] == best);
        assert(pool[pool.len() - 1] == pool.last());
    } else {
        assert(pool[0] == nearest(reqs, pool, line));
    }
}

fn hinted_indices(reqs: &Vec<HttpRequest>, keys: &Vec<(u64, u32)>, name: Option<&str>, key: Option<u64>) -> (r: Vec<
    usize,
>)
    requires
        keys@ == keys_of(views(reqs@)),
    ensures
        ints(r@) == hinted(views(reqs@), opt_str(name), key, reqs@.len() as int),
        forall|j: int| 0 <= j < r@.len() ==> #[trigger] r@[j] < reqs@.len(),
{
    let ghost all = views(reqs@);
    let mut found: Vec<usize> = Vec::new();
    let mut i: usize = 0;
    assert(ints(found@) =~= seq![]);
    while i < reqs.len()
        invariant
            i <= reqs@.len(),
            all == views(reqs@),
            keys@ == keys_of(all),
            ints(found@) == hinted(all, opt_str(name), key, i as int),
            forall|j: int| 0 <= j < found@.len() ==> #[trigger] found@[j] < reqs@.len(),
        decreases reqs@.len() - i,
    {
        assert(reqs@[i as int]@ == all[i as int]);
        let name_fits: bool = match name {
            Some(n) => match &reqs[i].name {
                Some(m) => same(m.as_str(), n),
                None => false,
            },
            None => true,
        };
        let key_fits: bool = match key {
            Some(k) => keys[i].0 == k,
            None => true,
        };
        if name_fits && key_fits {
            let ghost before = found@;
            found.push(i);
            assert(ints(found@) =~= ints(before).push(i as int));
        }
        i = i + 1;
    }
    found
}

fn distance_to(at: u32, line: u32) -> (r: u32)
    ensures
        r == (if at >= line {
            at - line
        } else {
            line - at
        }),
{
    if at >= line {
        at - line
    } else {
        line - at
    }
}

fn break_tie(reqs: &Vec<HttpRequest>, keys: &Vec<(u64, u32)>, pool: &Vec<usize>, line: u32, nth: Option<u32>) -> (r:
    usize)
    requires
        keys@ == keys_of(views(reqs@)),
        pool@.len() > 0,
        forall|j: int| 0 <= j < pool@.len() ==> #[trigger] pool@[j] < reqs@.len(),
    ensures
        r == tiebreak(views(reqs@), ints(pool@), line, nth),
        r < reqs@.len(),
{
    let ghost all = views(reqs@);
    let ghost ids = ints(pool@);
    if pool.len() > 1 {
        let mut together: bool = true;
        let mut i: usize = 0;
        while i < pool.len()
            invariant
                i <= pool@.len(),
                pool@.len() > 0,
                all == views(reqs@),
                ids == ints(pool@),
                keys@ == keys_of(all),
                forall|j: int| 0 <= j < pool@.len() ==> #[trigger] pool@[j] < reqs@.len(),
                together == (forall|j: int|
                    0 <= j < i ==> key_of(all[#[trigger] ids[j]]) == key_of(all[ids[0]])),
            decreases pool@.len() - i,
        {
            assert(ids[i as int] == pool@[i as int]);
            assert(ids[0] == pool@[0]);
            if keys[pool[i]].0 != keys[pool[0]].0 {
                together = false;
            }
            i = i + 1;
        }
        if together {
            let mut i: usize = 0;
            assert(ids.skip(0) =~= ids);
            while i < pool.len()
                invariant
                    i <= pool@.len(),
                    pool@.len() > 1,
                    all == views(reqs@),
                    ids == ints(pool@),
                    keys@ == keys_of(all),
                    one_identity(all, ids),
                    forall|j: int| 0 <= j < pool@.len() ==> #[trigger] pool@[j] < reqs@.len(),
                    numbered(all, ids, nth) == numbered(all, ids.skip(i as int), nth),
                decreases pool@.len() - i,
            {
                assert(ids.skip(i as int)[0] == pool@[i as int]);
                assert(ids.skip(i as int).drop_first() =~= ids.skip(i + 1));
                if let Some(n) = nth {
                    if keys[pool[i]].1 == n {
                        return pool[i];
                    }
                }
                i = i + 1;
            }
        }
    }
    let mut best: usize = pool[0];
    let mut i: usize = 1;
    assert(ids.take(1)[0] == pool@[0]);
    while i < pool.len()
        invariant
            1 <= i <= pool@.len(),
            all == views(reqs@),
            ids == ints(pool@),
            forall|j: int| 0 <= j < pool@.len() ==> #[trigger] pool@[j] < reqs@.len(),
            best < reqs@.len(),
            best == nearest(all, ids.take(i as int), line),
        decreases pool@.len() - i,
    {
        assert(ids.take(i + 1).drop_last() =~= ids.take(i as int));
        assert(ids.take(i + 1).last() == pool@[i as int]);
        if distance_to(reqs[pool[i]].line, line) < distance_to(reqs[best].line, line) {
            best = pool[i];
        }
        i = i + 1;
    }
    assert(ids.take(i as int) =~= ids);
    best
}

/// Finds the request that a click means, tolerating outdated arguments, and
/// tells which hint found it. Where no hint fits it gives up: these are real
/// calls to real services.
pub fn resolve_request(
    reqs: &Vec<HttpRequest>,
    line: u32,
    key: Option<u64>,
    nth: Option<u32>,
    name: Option<&str>,
    method: Option<&str>,
) -> (r: Option<(usize, &'static str)>)
    ensures
        match r {
            Some((i, how)) => i < reqs@.len() && meant(views(reqs@), line, key, nth, opt_str(name), opt_str(method))
                == Some((i as int, how@)),
            None => meant(views(reqs@), line, key, nth, opt_str(name), opt_str(method)) is None,
        },
{
    let ghost all = views(reqs@);
    let keys = request_keys(reqs);
    if let Some(n) = name {
        if !n.is_empty() {
            let named = hinted_indices(reqs, &keys, name, None);
            if named.len() > 0 {
                if key.is_some() {
                    let exact = hinted_indices(reqs, &keys, name, key);
                    if exact.len() > 0 {
                        return Some((break_tie(reqs, &keys, &exact, line, nth), "name"));
                    }
                }
                return Some((break_tie(reqs, &keys, &named, line, nth), "name"));
            }
        }
    }
    if key.is_some() {
        let keyed = hinted_indices(reqs, &keys, None, key);
        if keyed.len() > 0 {
            return Some((break_tie(reqs, &keys, &keyed, line, nth), "identity"));
        }
    }
    let mut i: usize = 0;
    while i < reqs.len()
        invariant
            i <= reqs@.len(),
            all == views(reqs@),
            on_line(all, line, 0) == on_line(all, line, i as int),
            meant(all, line, key, nth, opt_str(name), opt_str(method)) == (match on_line(all, line, 0) {
                Some(k) => if method is None || same_ignoring_case(opt_str(method)->0, all[k].method) {
                    Some((k, "line"@))
                } else {
                    None
                },
                None => None,
            }),
        decreases reqs@.len() - i,
    {
        assert(reqs@[i as int]@ == all[i as int]);
        if reqs[i].line == line {
            let fits: bool = match method {
                Some(m) => {
                    let a = chars(m);
                    let b = chars(reqs[i].method.as_str());
                    equal_ignoring_case(a.as_slice(), b.as_slice())
                },
                None => true,
            };
            if fits {
                return Some((i, "line"));
            } else {
                return None;
            }
        }
        i = i + 1;
    }
    None
}

proof fn lemma_count_key_grows(reqs: Seq<RequestView>, key: u64, a: int, b: int)
    requires
        0 <= a <= b,
    ensures
        0 <= count_key(reqs, key, a) <= count_key(reqs, key, b) <= b,
        a < b && key_of(reqs[a]) == key ==> count_key(reqs, key, a) < count_key(reqs, key, b),
    decreases b,
{
    if a < b {
        lemma_count_key_grows(reqs, key, a, b - 1);
    } else if b > 0 {
        lemma_count_key_grows(reqs, key, b - 1, b - 1);
    }
}

/// Two requests of one identity have different numbers.
proof fn lemma_numbers_differ(reqs: Seq<RequestView>, a: int, b: int)
    requires
        0 <= a < b < reqs.len() <= u32::MAX,
        key_of(reqs[a]) == key_of(reqs[b]),
    ensures
        nth_of(reqs, a) != nth_of(reqs, b),
{
    lemma_count_key_grows(reqs, key_of(reqs[a]), a, b);
    lemma_count_key_grows(reqs, key_of(reqs[a]), b, b);
}

/// Among requests of one identity, a number finds the request that has it.
proof fn lemma_numbered(reqs: Seq<RequestView>, pool: Seq<int>, i: int)
    requires
        0 <= i < reqs.len() <= u32::MAX,
        pool.contains(i),
        forall|j: int| 0 <= j < pool.len() ==> 0 <= #[trigger] pool[j] < reqs.len() && key_of(reqs[pool[j]]) == key_of(
            reqs[i],
        ),
    ensures
        numbered(reqs, pool, Some(nth_of(reqs, i))) == Some(i),
    decreases pool.len(),
{
    let first = pool[0];
    let k = choose|k: int| 0 <= k < pool.len() && pool[k] == i;
    if first == i {
    } else {
        if first < i {
            lemma_numbers_differ(reqs, first, i);
        } else {
            lemma_numbers_differ(reqs, i, first);
        }
        let rest = pool.drop_first();
        assert(rest[k - 1] == i);
        assert forall|j: int| 0 <= j < rest.len() implies 0 <= #[trigger] rest[j] < reqs.len() && key_of(reqs[rest[j]])
            == key_of(reqs[i]) by {
            assert(rest[j] == pool[j + 1]);
        }
        lemma_numbered(reqs, rest, i);
    }
}

pub proof fn lemma_tiebreak_by_number(reqs: Seq<RequestView>, pool: Seq<int>, line: u32, i: int)
    requires
        0 <= i < reqs.len() <= u32::MAX,
        pool.contains(i),
        forall|j: int| 0 <= j < pool.len() ==> 0 <= #[trigger] pool[j] < reqs.len() && key_of(reqs[pool[j]]) == key_of(
            reqs[i],
        ),
    ensures
        tiebreak(reqs, pool, line, Some(nth_of(reqs, i))) == i,
{
    lemma_numbered(reqs, pool, i);
    assert(pool[0] == pool[0]);
    if pool.len() == 1 {
        let k = choose|k: int| 0 <= k < pool.len() && pool[k] == i;
    }
}

/// A click on an up-to-date lens means the request that the lens belongs to,
/// also where the document repeats that request word for word. The name tells
/// where the request has one, else the identity.
pub proof fn law_fresh_lens_finds_its_request(reqs: Seq<RequestView>, i: int)
    requires
        0 <= i < reqs.len() <= u32::MAX,
    ensures
        meant(
            reqs,
            reqs[i].line,
            Some(key_of(reqs[i])),
            Some(nth_of(reqs, i)),
            Some(or_empty(reqs[i].name)),
            Some(reqs[i].method),
        ) == Some(
            (
                i,
                if or_empty(reqs[i].name).len() > 0 {
                    "name"@
                } else {
                    "identity"@
                },
            ),
        ),
{
    let n = reqs.len() as int;
    let name = Some(or_empty(reqs[i].name));
    let key = Some(key_of(reqs[i]));
    lemma_hinted(reqs, name, None, n);
    lemma_hinted(reqs, name, key, n);
    lemma_hinted(reqs, None, key, n);
    let _ = reqs[i];
    if name->0.len() > 0 {
        assert(reqs[i].name == name);
        lemma_tiebreak_by_number(reqs, hinted(reqs, name, key, n), reqs[i].line, i);
    } else {
        lemma_tiebreak_by_number(reqs, hinted(reqs, None, key, n), reqs[i].line, i);
    }
}

/// A name that only one request has finds that request, whatever has become of
/// its URL, its line and the other hints.
pub proof fn law_name_survives_edits(
    reqs: Seq<RequestView>,
    i: int,
    line: u32,
    key: Option<u64>,
    nth: Option<u32>,
    method: Option<Seq<char>>,
)
    requires
        0 <= i < reqs.len(),
        reqs[i].name is Some,
        reqs[i].name->0.len() > 0,
        forall|j: int| 0 <= j < reqs.len() && j != i ==> (#[trigger] reqs[j]).name != reqs[i].name,
    ensures
        meant(reqs, line, key, nth, reqs[i].name, method) == Some((i, "name"@)),
{
    let n = reqs.len() as int;
    let name = reqs[i].name;
    let named = hinted(reqs, name, None, n);
    let exact = hinted(reqs, name, key, n);
    lemma_hinted(reqs, name, None, n);
    lemma_hinted(reqs, name, key, n);
    let _ = reqs[i];
    lemma_tiebreak_is_member(reqs, named, line, nth);
    if exact.len() > 0 {
        lemma_tiebreak_is_member(reqs, exact, line, nth);
    }
}

proof fn lemma_tiebreak_is_member(reqs: Seq<RequestView>, pool: Seq<int>, line: u32, nth: Option<u32>)
    requires
        pool.len() > 0,
    ensures
        exists|j: int| 0 <= j < pool.len() && #[trigger] pool[j] == tiebreak(reqs, pool, line, nth),
{
    lemma_nearest(reqs, pool, line);
    lemma_numbered_is_member(reqs, pool, nth);
}

proof fn lemma_numbered_is_member(reqs: Seq<RequestView>, pool: Seq<int>, nth: Option<u32>)
    ensures
        numbered(reqs, pool, nth) matches Some(i) ==> exists|j: int| 0 <= j < pool.len() && #[trigger] pool[j] == i,
    decreases pool.len(),
{
    if pool.len() > 0 && Some(nth_of(reqs, pool[0])) != nth {
        let rest = pool.drop_first();
        lemma_numbered_is_member(reqs, rest, nth);
        if let Some(i) = numbered(reqs, rest, nth) {
            let j = choose|j: int| 0 <= j < rest.len() && #[trigger] rest[j] == i;
            assert(pool[j + 1] == i);
        }
    }
}

/// Without a name, an identity that only one request has finds that request,
/// however far its line has moved.
pub proof fn law_identity_survives_line_shifts(
    reqs: Seq<RequestView>,
    i: int,
    line: u32,
    nth: Option<u32>,
    method: Option<Seq<char>>,
)
    requires
        0 <= i < reqs.len(),
        forall|j: int| 0 <= j < reqs.len() && j != i ==> key_of(#[trigger] reqs[j]) != key_of(reqs[i]),
    ensures
        meant(reqs, line, Some(key_of(reqs[i])), nth, Some(seq![]), method) == Some((i, "identity"@)),
{
    let n = reqs.len() as int;
    let keyed = hinted(reqs, None, Some(key_of(reqs[i])), n);
    lemma_hinted(reqs, None, Some(key_of(reqs[i])), n);
    let _ = reqs[i];
    lemma_tiebreak_is_member(reqs, keyed, line, nth);
}

proof fn lemma_on_line(reqs: Seq<RequestView>, line: u32, i: int)
    requires
        0 <= i,
    ensures
        on_line(reqs, line, i) matches Some(k) ==> i <= k < reqs.len() && reqs[k].line == line,
    decreases reqs.len() - i,
{
    if i < reqs.len() && reqs[i].line != line {
        lemma_on_line(reqs, line, i + 1);
    }
}

/// Where the text of a request has changed so that neither a name nor the identity
/// finds anything, its line still does, while the method is the same.
pub proof fn law_line_survives_edits_inside(
    reqs: Seq<RequestView>,
    i: int,
    key: Option<u64>,
    nth: Option<u32>,
    name: Option<Seq<char>>,
    method: Option<Seq<char>>,
)
    requires
        0 <= i < reqs.len(),
        name matches Some(n) ==> n.len() == 0 || forall|j: int|
            0 <= j < reqs.len() ==> (#[trigger] reqs[j]).name != Some(n),
        key matches Some(k) ==> forall|j: int| 0 <= j < reqs.len() ==> key_of(#[trigger] reqs[j]) != k,
        forall|j: int| 0 <= j < i ==> (#[trigger] reqs[j]).line != reqs[i].line,
        method matches Some(m) ==> same_ignoring_case(m, reqs[i].method),
    ensures
        meant(reqs, reqs[i].line, key, nth, name, method) == Some((i, "line"@)),
{
    let n = reqs.len() as int;
    lemma_hinted(reqs, name, None, n);
    lemma_hinted(reqs, None, key, n);
    let named = hinted(reqs, name, None, n);
    let keyed = hinted(reqs, None, key, n);
    if name is Some && name->0.len() > 0 && named.len() > 0 {
        let _ = reqs[named[0]];
    }
    if key is Some && keyed.len() > 0 {
        let _ = reqs[keyed[0]];
    }
    lemma_first_on_line(reqs, i, 0);
}

proof fn lemma_first_on_line(reqs: Seq<RequestView>, i: int, from: int)
    requires
        0 <= from <= i < reqs.len(),
        forall|j: int| 0 <= j < i ==> (#[trigger] reqs[j]).line != reqs[i].line,
    ensures
        on_line(reqs, reqs[i].line, from) == Some(i),
    decreases i - from,
{
    if from < i {
        lemma_first_on_line(reqs, i, from + 1);
    }
}

/// A request is meant only if one of the hints holds of it: it has the name, it
/// has the identity, or it stands on the line and has the method.
pub proof fn law_no_request_without_a_hint(
    reqs: Seq<RequestView>,
    line: u32,
    key: Option<u64>,
    nth: Option<u32>,
    name: Option<Seq<char>>,
    method: Option<Seq<char>>,
)
    ensures
        meant(reqs, line, key, nth, name, method) matches Some((i, _)) ==> {
            &&& 0 <= i < reqs.len()
            &&& {
                ||| reqs[i].name is Some && reqs[i].name == name && name->0.len() > 0
                ||| key == Some(key_of(reqs[i]))
                ||| reqs[i].line == line && (method matches Some(m) ==> same_ignoring_case(m, reqs[i].method))
            }
        },
{
    let n = reqs.len() as int;
    let named = hinted(reqs, name, None, n);
    let exact = hinted(reqs, name, key, n);
    let keyed = hinted(reqs, None, key, n);
    lemma_hinted(reqs, name, None, n);
    lemma_hinted(reqs, name, key, n);
    lemma_hinted(reqs, None, key, n);
    if named.len() > 0 {
        lemma_tiebreak_is_member(reqs, named, line, nth);
    }
    if exact.len() > 0 {
        lemma_tiebreak_is_member(reqs, exact, line, nth);
    }
    if keyed.len() > 0 {
        lemma_tiebreak_is_member(reqs, keyed, line, nth);
    }
    lemma_on_line(reqs, line, 0);
}

/// Edits that leave the line and the name of every request alone leave the
/// signature alone.
pub proof fn law_signature_is_lines_and_names(before: Seq<char>, after: Seq<char>)
    requires
        document(before).requests.len() == document(after).requests.len(),
        forall|i: int|
            0 <= i < document(before).requests.len() ==> {
                &&& (#[trigger] document(before).requests[i]).line == document(after).requests[i].line
                &&& document(before).requests[i].name == document(after).requests[i].name
            },
    ensures
        signature(before) == signature(after),
{
    lemma_same_shape(document(before).requests, document(after).requests);
}

proof fn lemma_same_shape(a: Seq<RequestView>, b: Seq<RequestView>)
    requires
        a.len() == b.len(),
        forall|i: int| 0 <= i < a.len() ==> (#[trigger] a[i]).line == b[i].line && a[i].name == b[i].name,
    ensures
        shape(a) == shape(b),
    decreases a.len(),
{
    if a.len() > 0 {
        assert(a.last() == a[a.len() - 1]);
        assert forall|i: int| 0 <= i < a.drop_last().len() implies (#[trigger] a.drop_last()[i]).line
            == b.drop_last()[i].line && a.drop_last()[i].name == b.drop_last()[i].name by {
            assert(a.drop_last()[i] == a[i]);
        }
        lemma_same_shape(a.drop_last(), b.drop_last());
    }
}

/// Every lens is a button that sends its request, whatever is running; the result
/// buffer has none.
pub proof fn law_every_lens_sends(uri: Seq<char>, result_uri: Seq<char>, text: Seq<char>)
    ensures
        uri == result_uri ==> lenses_of(uri, result_uri, text).len() == 0,
        uri != result_uri ==> lenses_of(uri, result_uri, text).len() == document(text).requests.len(),
        forall|i: int|
            0 <= i < lenses_of(uri, result_uri, text).len() ==> (#[trigger] lenses_of(uri, result_uri, text)[i]).command
                == CMD_SEND@ && lenses_of(uri, result_uri, text)[i].line == document(text).requests[i].line,
{
}

}

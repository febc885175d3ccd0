//! JSON values as the chaining of responses and the protocol messages read
//! them.

use vstd::prelude::*;

use crate::digits::read_number;
use crate::scan::{parts, same};
use crate::text::chars;

verus! {

use crate::digits::number;
use crate::text::{split, views};

/// A JSON value.
///
/// Numbers, arrays and objects carry their compact JSON text, which is what a
/// chained reference to one of them stands for.
pub enum Json {
    Null,
    Bool(bool),
    /// `uint` is the number, where it is an integer from zero to `u64::MAX`.
    Number { text: String, uint: Option<u64> },
    Text(String),
    Array { items: Vec<Json>, text: String },
    Object { members: Vec<(String, Json)>, text: String },
}

/// A JSON value in mathematical terms.
pub enum JsonView {
    Null,
    Bool(bool),
    Number { text: Seq<char>, uint: Option<u64> },
    Text(Seq<char>),
    Array { items: Seq<JsonView>, text: Seq<char> },
    Object { members: Seq<(Seq<char>, JsonView)>, text: Seq<char> },
}

impl View for Json {
    type V = JsonView;

    open spec fn view(&self) -> JsonView
        decreases self,
    {
        match self {
            Json::Null => JsonView::Null,
            Json::Bool(b) => JsonView::Bool(*b),
            Json::Number { text, uint } => JsonView::Number { text: text@, uint: *uint },
            Json::Text(s) => JsonView::Text(s@),
            Json::Array { items, text } => JsonView::Array {
                items: Seq::new(
                    items@.len(),
                    |i: int|
                        if 0 <= i < items@.len() {
                            items@[i].view()
                        } else {
                            JsonView::Null
                        },
                ),
                text: text@,
            },
            Json::Object { members, text } => JsonView::Object {
                members: Seq::new(
                    members@.len(),
                    |i: int|
                        if 0 <= i < members@.len() {
                            (members@[i].0@, members@[i].1.view())
                        } else {
                            (seq![], JsonView::Null)
                        },
                ),
                text: text@,
            },
        }
    }
}

/// A value of `serde_json`, seen only by the conversion below.
#[verifier::external_type_specification]
#[verifier::external_body]
pub struct ExValue(serde_json::Value);

/// The JSON value that a text holds, where it is valid JSON.
pub uninterp spec fn parsed_json(text: Seq<char>) -> Option<JsonView>;

/// A `serde_json::Value` as a [`Json`], variant by variant. The texts of
/// numbers, arrays and objects are what the value's `to_string` prints, and
/// `uint` is what `Number::as_u64` gives. Nothing is claimed of it here; the
/// claim is that of [`parse_json`].
#[verifier::external_body]
fn json_of(v: serde_json::Value) -> (r: Json) {
    let text = v.to_string();
    match v {
        serde_json::Value::Null => Json::Null,
        serde_json::Value::Bool(b) => Json::Bool(b),
        serde_json::Value::Number(n) => Json::Number { text, uint: n.as_u64() },
        serde_json::Value::String(s) => Json::Text(s),
        serde_json::Value::Array(a) => Json::Array { items: a.into_iter().map(json_of).collect(), text },
        serde_json::Value::Object(m) => {
            Json::Object { members: m.into_iter().map(|(k, v)| (k, json_of(v))).collect(), text }
        },
    }
}

/// `serde_json::from_str` for `serde_json::Value`, converted by [`json_of`]:
/// the value that a text holds, or nothing where the text is not valid JSON.
/// Claimed is only that the outcome depends on the text alone.
#[verifier::external_body]
fn read_json(text: &str) -> (r: Option<Json>)
    ensures
        match r {
            Some(v) => parsed_json(text@) == Some(v@),
            None => parsed_json(text@) is None,
        },
{
    match serde_json::from_str::<serde_json::Value>(text) {
        Ok(v) => Some(json_of(v)),
        Err(_) => None,
    }
}

/// The JSON value that a text holds, where it is valid JSON.
pub fn parse_json(text: &str) -> (r: Option<Json>)
    ensures
        match r {
            Some(v) => parsed_json(text@) == Some(v@),
            None => parsed_json(text@) is None,
        },
{
    read_json(text)
}

/// The JSON text of a text that holds JSON, spread over indented lines.
pub uninterp spec fn pretty_json(text: Seq<char>) -> Option<Seq<char>>;

/// `serde_json::from_str` for `serde_json::Value` followed by
/// `serde_json::to_string_pretty`: the text laid out over indented lines, or
/// nothing where it is not valid JSON. Claimed is only that the outcome
/// depends on the text alone.
#[verifier::external_body]
pub(crate) fn prettify(text: &str) -> (r: Option<String>)
    ensures
        match r {
            Some(p) => pretty_json(text@) == Some(p@),
            None => pretty_json(text@) is None,
        },
{
    match serde_json::from_str::<serde_json::Value>(text) {
        Ok(v) => serde_json::to_string_pretty(&v).ok(),
        Err(_) => None,
    }
}

/// The value of the first member with a key.
pub open spec fn member(members: Seq<(Seq<char>, JsonView)>, k: Seq<char>) -> Option<JsonView>
    decreases members.len(),
{
    if members.len() == 0 {
        None
    } else if members[0].0 == k {
        Some(members[0].1)
    } else {
        member(members.drop_first(), k)
    }
}

/// The member of an object.
pub open spec fn field(v: JsonView, k: Seq<char>) -> Option<JsonView> {
    match v {
        JsonView::Object { members, .. } => member(members, k),
        _ => None,
    }
}

/// The member of an object that an optional value may be.
pub open spec fn field_of(v: Option<JsonView>, k: Seq<char>) -> Option<JsonView> {
    match v {
        Some(w) => field(w, k),
        None => None,
    }
}

/// The text of a JSON string.
pub open spec fn text_of(v: Option<JsonView>) -> Option<Seq<char>> {
    match v {
        Some(JsonView::Text(s)) => Some(s),
        _ => None,
    }
}

/// The truth value of a JSON boolean.
pub open spec fn bool_of(v: Option<JsonView>) -> Option<bool> {
    match v {
        Some(JsonView::Bool(b)) => Some(b),
        _ => None,
    }
}

/// The value of a JSON number that is an unsigned integer.
pub open spec fn uint_of(v: Option<JsonView>) -> Option<u64> {
    match v {
        Some(JsonView::Number { uint, .. }) => uint,
        _ => None,
    }
}

/// The last item of a JSON array.
pub open spec fn last_item(v: Option<JsonView>) -> Option<JsonView> {
    match v {
        Some(JsonView::Array { items, .. }) => if items.len() > 0 {
            Some(items.last())
        } else {
            None
        },
        _ => None,
    }
}

/// What a chained reference to a value stands for: a string as it is, anything
/// else as JSON text.
pub open spec fn plain(v: JsonView) -> Seq<char> {
    match v {
        JsonView::Null => "null"@,
        JsonView::Bool(b) => if b {
            "true"@
        } else {
            "false"@
        },
        JsonView::Number { text, .. } => text,
        JsonView::Text(s) => s,
        JsonView::Array { text, .. } => text,
        JsonView::Object { text, .. } => text,
    }
}

/// One step into a value: by key into an object, by index into an array.
pub open spec fn step(v: JsonView, part: Seq<char>) -> Option<JsonView> {
    match v {
        JsonView::Object { members, .. } => member(members, part),
        JsonView::Array { items, .. } => match number(part, 10, usize::MAX as int) {
            Some(n) => if n < items.len() {
                Some(items[n])
            } else {
                None
            },
            None => None,
        },
        _ => None,
    }
}

/// One step after another into a value.
pub open spec fn walk(v: JsonView, path: Seq<Seq<char>>) -> Option<JsonView>
    decreases path.len(),
{
    if path.len() == 0 {
        Some(v)
    } else {
        match step(v, path[0]) {
            Some(w) => walk(w, path.drop_first()),
            None => None,
        }
    }
}

/// The value that a dotted path leads to; the empty path leads to the value
/// itself.
pub open spec fn navigate(v: JsonView, path: Seq<char>) -> Option<JsonView> {
    if path.len() == 0 {
        Some(v)
    } else {
        walk(v, split(path, '.'))
    }
}

/// The view of an optional borrowed value.
pub open spec fn opt_json(o: Option<&Json>) -> Option<JsonView> {
    match o {
        Some(v) => Some(v@),
        None => None,
    }
}

/// The members of an object in mathematical terms.
pub open spec fn member_views(members: Seq<(String, Json)>) -> Seq<(Seq<char>, JsonView)> {
    Seq::new(members.len(), |i: int| (members[i].0@, members[i].1@))
}

/// The view of an array holds the views of its items, and that of an object
/// the views of its members.
pub proof fn lemma_nested_view(v: Json)
    ensures
        v matches Json::Array { items, text } ==> v@ == (JsonView::Array { items: views(items@), text: text@ }),
        v matches Json::Object { members, text } ==> v@ == (JsonView::Object {
            members: member_views(members@),
            text: text@,
        }),
{
    reveal_with_fuel(<Json as View>::view, 2);
    match v {
        Json::Array { items, .. } => {
            if let JsonView::Array { items: m, .. } = v@ {
                assert(m =~= views(items@));
            }
        },
        Json::Object { members, .. } => {
            if let JsonView::Object { members: m, .. } = v@ {
                assert(m =~= member_views(members@));
            }
        },
        _ => {},
    }
}

fn find_member<'a>(members: &'a Vec<(String, Json)>, k: &str) -> (r: Option<&'a Json>)
    ensures
        opt_json(r) == member(member_views(members@), k@),
{
    let ghost all = member_views(members@);
    let mut i: usize = 0;
    assert(all.skip(0) =~= all);
    while i < members.len()
        invariant
            i <= members@.len(),
            all == member_views(members@),
            member(all, k@) == member(all.skip(i as int), k@),
        decreases members@.len() - i,
    {
        assert(all.skip(i as int)[0] == all[i as int]);
        assert(all.skip(i as int).drop_first() =~= all.skip(i + 1));
        if same(members[i].0.as_str(), k) {
            return Some(&members[i].1);
        }
        i = i + 1;
    }
    None
}

impl Json {
    /// The member of an object.
    pub fn get(&self, k: &str) -> (r: Option<&Json>)
        ensures
            opt_json(r) == field(self@, k@),
    {
        proof {
            lemma_nested_view(*self);
        }
        match self {
            Json::Object { members, .. } => find_member(members, k),
            _ => None,
        }
    }
}

/// The member of an object that an optional value may be.
pub fn get_in<'a>(v: Option<&'a Json>, k: &str) -> (r: Option<&'a Json>)
    ensures
        opt_json(r) == field_of(opt_json(v), k@),
{
    match v {
        Some(w) => w.get(k),
        None => None,
    }
}

/// The text of a JSON string.
pub fn as_text(v: Option<&Json>) -> (r: Option<&str>)
    ensures
        crate::text::opt_str(r) == text_of(opt_json(v)),
{
    match v {
        Some(Json::Text(s)) => Some(s.as_str()),
        _ => None,
    }
}

/// The truth value of a JSON boolean.
pub fn as_bool(v: Option<&Json>) -> (r: Option<bool>)
    ensures
        r == bool_of(opt_json(v)),
{
    match v {
        Some(Json::Bool(b)) => Some(*b),
        _ => None,
    }
}

/// The value of a JSON number that is an unsigned integer.
pub fn as_uint(v: Option<&Json>) -> (r: Option<u64>)
    ensures
        r == uint_of(opt_json(v)),
{
    match v {
        Some(Json::Number { uint, .. }) => *uint,
        _ => None,
    }
}

/// The last item of a JSON array.
pub fn last_of(v: Option<&Json>) -> (r: Option<&Json>)
    ensures
        opt_json(r) == last_item(opt_json(v)),
{
    proof {
        if let Some(w) = v {
            lemma_nested_view(*w);
        }
    }
    match v {
        Some(Json::Array { items, .. }) => if items.len() > 0 {
            Some(&items[items.len() - 1])
        } else {
            None
        },
        _ => None,
    }
}

/// What a chained reference to a value stands for.
pub fn json_to_plain(v: &Json) -> (r: String)
    ensures
        r@ == plain(v@),
{
    match v {
        Json::Null => "null".to_owned(),
        Json::Bool(b) => if *b {
            "true".to_owned()
        } else {
            "false".to_owned()
        },
        Json::Number { text, .. } => text.clone(),
        Json::Text(s) => s.clone(),
        Json::Array { text, .. } => text.clone(),
        Json::Object { text, .. } => text.clone(),
    }
}

fn step_into<'a>(v: &'a Json, part: &[char]) -> (r: Option<&'a Json>)
    ensures
        opt_json(r) == step(v@, part@),
{
    proof {
        lemma_nested_view(*v);
    }
    match v {
        Json::Object { members, .. } => {
            let key = crate::text::string(part);
            find_member(members, key.as_str())
        },
        Json::Array { items, .. } => match read_number(part, 10, usize::MAX as u64) {
            Some(n) => if (n as usize) < items.len() {
                Some(&items[n as usize])
            } else {
                None
            },
            None => None,
        },
        _ => None,
    }
}

/// The value that a dotted path leads to, such as `a.b.0`.
pub fn navigate_json<'a>(v: &'a Json, path: &str) -> (r: Option<&'a Json>)
    ensures
        opt_json(r) == navigate(v@, path@),
{
    let p = chars(path);
    if p.len() == 0 {
        return Some(v);
    }
    let steps = parts(p.as_slice(), '.');
    let ghost all = views(steps@);
    let mut at: &'a Json = v;
    let mut i: usize = 0;
    assert(all.skip(0) =~= all);
    while i < steps.len()
        invariant
            i <= steps@.len(),
            all == views(steps@),
            all == split(path@, '.'),
            path@.len() > 0,
            walk(v@, all) == walk(at@, all.skip(i as int)),
        decreases steps@.len() - i,
    {
        assert(all.skip(i as int)[0] == steps@[i as int]@);
        assert(all.skip(i as int).drop_first() =~= all.skip(i + 1));
        at = match step_into(at, steps[i]) {
            Some(w) => w,
            None => {
                return None;
            },
        };
        i = i + 1;
    }
    Some(at)
}

}

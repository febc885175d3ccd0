//! JSON values, and the paths into them.

use vstd::prelude::*;

verus! {

use crate::digits::{decimal, number};
use crate::json::{field, navigate, plain, walk, JsonView};
use crate::laws::digits::law_numbers_read_back;
use crate::laws::text::law_split;
use crate::text::split;

/// The member of an object is the first one under its key, wherever it stands; there is
/// none where no member has the key, or where the value is no object.
pub proof fn law_members(
    before: Seq<(Seq<char>, JsonView)>,
    key: Seq<char>,
    value: JsonView,
    after: Seq<(Seq<char>, JsonView)>,
    text: Seq<char>,
    other: JsonView,
)
    requires
        forall|i: int| 0 <= i < before.len() ==> (#[trigger] before[i]).0 != key,
    ensures
        field(JsonView::Object { members: before + seq![(key, value)] + after, text }, key) == Some(value),
        field(JsonView::Object { members: before, text }, key) is None,
        !(other is Object) ==> field(other, key) is None,
    decreases before.len(),
{
    let all = before + seq![(key, value)] + after;
    if before.len() == 0 {
        assert(all[0] == (key, value));
    } else {
        let rest = before.drop_first();
        assert(before[0].0 != key);
        assert forall|i: int| 0 <= i < rest.len() implies (#[trigger] rest[i]).0 != key by {
            assert(rest[i] == before[i + 1]);
        }
        law_members(rest, key, value, after, text, other);
        assert(all[0] == before[0]);
        assert(all.drop_first() =~= rest + seq![(key, value)] + after);
    }
}

/// The empty path leads to the value itself. A key leads into an object, a number into
/// an array, and after a dot the path goes on from there. Nothing leads into any other
/// value, nor past the end of an array.
pub proof fn law_paths(v: JsonView, key: Seq<char>, n: nat, rest: Seq<char>)
    requires
        !key.contains('.'),
        key.len() > 0,
        rest.len() > 0,
        n <= usize::MAX,
    ensures
        navigate(v, Seq::empty()) == Some(v),
        v is Object ==> navigate(v, key) == field(v, key),
        v is Object ==> navigate(v, key + seq!['.'] + rest) == (match field(v, key) {
            Some(w) => navigate(w, rest),
            None => None,
        }),
        v matches JsonView::Array { items, .. } ==> {
            &&& n < items.len() ==> navigate(v, decimal(n)) == Some(items[n as int])
            &&& n < items.len() ==> navigate(v, decimal(n) + seq!['.'] + rest) == navigate(items[n as int], rest)
            &&& n >= items.len() ==> navigate(v, decimal(n)) is None
            &&& n >= items.len() ==> navigate(v, decimal(n) + seq!['.'] + rest) is None
            &&& number(key, 10, usize::MAX as int) is None ==> navigate(v, key) is None
        },
        !(v is Object) && !(v is Array) ==> navigate(v, key) is None && navigate(v, key + seq!['.'] + rest) is None,
{
    let d = decimal(n);
    law_numbers_read_back(n, 10, usize::MAX as int);
    crate::laws::digits::law_decimal_is_solid(n);
    if d.contains('.') {
        let i = choose|i: int| 0 <= i < d.len() && d[i] == '.';
        crate::laws::digits::law_other_texts_are_no_numbers(d, i, usize::MAX as int);
    }
    law_split(key, '.', rest);
    law_split(d, '.', rest);
    reveal_with_fuel(walk, 3);
    assert(seq![key].drop_first() =~= seq![]);
    assert(seq![d].drop_first() =~= seq![]);
    assert((seq![key] + split(rest, '.')).drop_first() =~= split(rest, '.'));
    assert((seq![d] + split(rest, '.')).drop_first() =~= split(rest, '.'));
}

/// A reference to a text stands for the text as it is, without quotes; one to any other
/// value for its JSON.
pub proof fn law_values(s: Seq<char>, b: bool, items: Seq<JsonView>, members: Seq<(Seq<char>, JsonView)>, uint: Option<u64>)
    ensures
        plain(JsonView::Text(s)) == s,
        plain(JsonView::Null) == "null"@,
        plain(JsonView::Bool(true)) == "true"@,
        plain(JsonView::Bool(false)) == "false"@,
        plain(JsonView::Number { text: s, uint }) == s,
        plain(JsonView::Array { items, text: s }) == s,
        plain(JsonView::Object { members, text: s }) == s,
{
}

}

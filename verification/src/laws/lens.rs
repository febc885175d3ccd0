//! Buttons, and the request that a click means.

use vstd::prelude::*;

verus! {

use crate::click::{click_of, ClickView};
use crate::digits::{decimal, number};
use crate::document::{document, line_number, RequestView};
use crate::hash::text_hash;
use crate::json::JsonView;
use crate::laws::digits::law_decimal_tells_numbers_apart;
use crate::laws::text::{is_line, law_lines_read_back, law_split_once, law_whitespace, solid, with_breaks};
use crate::lens::{
    count_key, hinted, key_of, key_text, keys_of, lemma_hinted, lemma_tiebreak_by_number, lens_arguments,
    lens_title, lenses_of, meant, nearest, nth_of, numbered, one_identity, or_empty, shape,
};
use crate::text::{same_ignoring_case, split_once, trim, upper_all};

proof fn lemma_marks()
    ensures
        "\n"@ == seq!['\n'],
        ":"@ == seq![':'],
{
    reveal_strlit("\n");
    reveal_strlit(":");
    assert("\n"@ =~= seq!['\n']);
    assert(":"@ =~= seq![':']);
}

/// What identifies a request is its method, without regard to case, its URL, without
/// the whitespace around it, and its name: requests have one identifying text exactly
/// where they agree in all three.
pub proof fn law_identity(a: RequestView, b: RequestView)
    requires
        !upper_all(a.method).contains('\n'),
        !upper_all(b.method).contains('\n'),
        !trim(a.url).contains('\n'),
        !trim(b.url).contains('\n'),
    ensures
        key_text(a) == key_text(b) <==> same_ignoring_case(a.method, b.method) && trim(a.url) == trim(b.url) && (
        match a.name {
            Some(n) => n,
            None => Seq::<char>::empty(),
        }) == (match b.name {
            Some(n) => n,
            None => Seq::<char>::empty(),
        }),
        key_text(a) == key_text(b) ==> key_of(a) == key_of(b),
{
    lemma_marks();
    let nl = seq!['\n'];
    let ra = trim(a.url) + nl + or_empty(a.name);
    let rb = trim(b.url) + nl + or_empty(b.name);
    assert(key_text(a) =~= upper_all(a.method) + nl + ra);
    assert(key_text(b) =~= upper_all(b.method) + nl + rb);
    law_split_once(upper_all(a.method), '\n', ra);
    law_split_once(upper_all(b.method), '\n', rb);
    law_split_once(trim(a.url), '\n', or_empty(a.name));
    law_split_once(trim(b.url), '\n', or_empty(b.name));
    assert(or_empty(a.name) =~= (match a.name {
        Some(n) => n,
        None => Seq::<char>::empty(),
    }));
    assert(or_empty(b.name) =~= (match b.name {
        Some(n) => n,
        None => Seq::<char>::empty(),
    }));
}

/// The number of a request is how many requests of its identity stand before it.
pub proof fn law_numbers(reqs: Seq<RequestView>, key: u64, n: int)
    requires
        0 <= n < reqs.len(),
    ensures
        count_key(reqs, key, 0) == 0,
        count_key(reqs, key, n + 1) == count_key(reqs, key, n) + (if key_of(reqs[n]) == key {
            1int
        } else {
            0int
        }),
        nth_of(reqs, n) == line_number(count_key(reqs, key_of(reqs[n]), n)),
{
}

spec fn entry(r: RequestView) -> Seq<char> {
    decimal(r.line as nat) + seq![':'] + or_empty(r.name)
}

spec fn entries(reqs: Seq<RequestView>) -> Seq<Seq<char>> {
    Seq::new(reqs.len(), |i: int| entry(reqs[i]))
}

proof fn lemma_one_more_break(ls: Seq<Seq<char>>, l: Seq<char>)
    ensures
        with_breaks(ls.push(l)) == with_breaks(ls) + l + seq!['\n'],
    decreases ls.len(),
{
    let all = ls.push(l);
    if ls.len() == 0 {
        assert(all.drop_first() =~= seq![]);
        assert(with_breaks(all) =~= with_breaks(ls) + l + seq!['\n']) by {
            reveal_with_fuel(with_breaks, 2);
        }
    } else {
        assert(all.drop_first() =~= ls.drop_first().push(l));
        lemma_one_more_break(ls.drop_first(), l);
        assert(all[0] == ls[0]);
        assert(with_breaks(all) =~= with_breaks(ls) + l + seq!['\n']);
    }
}

proof fn lemma_shape_lines(reqs: Seq<RequestView>)
    ensures
        shape(reqs) == with_breaks(entries(reqs)),
    decreases reqs.len(),
{
    lemma_marks();
    if reqs.len() > 0 {
        let front = reqs.drop_last();
        lemma_shape_lines(front);
        lemma_one_more_break(entries(front), entry(reqs.last()));
        assert(entries(reqs) =~= entries(front).push(entry(reqs.last())));
        assert(shape(reqs) =~= with_breaks(entries(reqs)));
    } else {
        assert(entries(reqs) =~= seq![]);
    }
}

/// Whether the names of requests are names that a comment line can give.
pub open spec fn line_names(reqs: Seq<RequestView>) -> bool {
    forall|i: int|
        0 <= i < reqs.len() ==> ((#[trigger] reqs[i]).name matches Some(n) ==> solid(n) && !n.contains('\n'))
}

proof fn lemma_entry_is_line(r: RequestView)
    requires
        r.name matches Some(n) ==> solid(n) && !n.contains('\n'),
    ensures
        is_line(entry(r)),
        split_once(entry(r), ':') == Some((decimal(r.line as nat), or_empty(r.name))),
{
    law_whitespace('\r');
    let d = decimal(r.line as nat);
    let n = or_empty(r.name);
    let x = entry(r);
    law_decimal_tells_numbers_apart(r.line as nat, 0);
    law_split_once(d, ':', n);
    if x.contains('\n') {
        let i = choose|i: int| 0 <= i < x.len() && x[i] == '\n';
        if i < d.len() {
            assert(d.contains(d[i]));
        } else if i > d.len() {
            assert(n.contains(n[i - d.len() - 1]));
        }
    }
    if n.len() > 0 {
        assert(x.last() == n.last());
    } else {
        assert(x.last() == ':');
    }
}

/// The text behind the signature tells documents apart: it is the same exactly where
/// there are as many requests, on the same lines and under the same names.
pub proof fn law_signature_text(a: Seq<RequestView>, b: Seq<RequestView>)
    requires
        line_names(a),
        line_names(b),
    ensures
        shape(a) == shape(b) <==> a.len() == b.len() && forall|i: int|
            0 <= i < a.len() ==> (#[trigger] a[i]).line == b[i].line && or_empty(a[i].name) == or_empty(b[i].name),
{
    lemma_shape_lines(a);
    lemma_shape_lines(b);
    assert forall|i: int| 0 <= i < entries(a).len() implies is_line(#[trigger] entries(a)[i]) by {
        lemma_entry_is_line(a[i]);
    }
    assert forall|i: int| 0 <= i < entries(b).len() implies is_line(#[trigger] entries(b)[i]) by {
        lemma_entry_is_line(b[i]);
    }
    law_lines_read_back(entries(a));
    law_lines_read_back(entries(b));
    if shape(a) == shape(b) {
        assert(entries(a) == entries(b));
        assert(a.len() == entries(a).len());
        assert(b.len() == entries(b).len());
        assert forall|i: int| 0 <= i < a.len() implies (#[trigger] a[i]).line == b[i].line && or_empty(a[i].name)
            == or_empty(b[i].name) by {
            assert(entries(a)[i] == entries(b)[i]);
            lemma_entry_is_line(a[i]);
            lemma_entry_is_line(b[i]);
            law_decimal_tells_numbers_apart(a[i].line as nat, b[i].line as nat);
        }
    }
    if a.len() == b.len() && forall|i: int|
        0 <= i < a.len() ==> (#[trigger] a[i]).line == b[i].line && or_empty(a[i].name) == or_empty(b[i].name) {
        assert(entries(a) =~= entries(b));
    }
}

/// How far a request is from a line.
pub open spec fn lines_away(r: RequestView, line: u32) -> int {
    if r.line > line {
        r.line - line
    } else {
        line - r.line
    }
}

spec fn rising(pool: Seq<int>) -> bool {
    forall|j: int, k: int| 0 <= j < k < pool.len() ==> (#[trigger] pool[j]) < (#[trigger] pool[k])
}

proof fn lemma_nearest(reqs: Seq<RequestView>, pool: Seq<int>, line: u32)
    requires
        pool.len() > 0,
        rising(pool),
    ensures
        pool.contains(nearest(reqs, pool, line)),
        forall|j: int|
            0 <= j < pool.len() ==> lines_away(reqs[nearest(reqs, pool, line)], line) <= lines_away(
                reqs[#[trigger] pool[j]],
                line,
            ),
        forall|j: int|
            0 <= j < pool.len() && (#[trigger] pool[j]) < nearest(reqs, pool, line) ==> lines_away(
                reqs[nearest(reqs, pool, line)],
                line,
            ) < lines_away(reqs[pool[j]], line),
    decreases pool.len(),
{
    if pool.len() == 1 {
        assert(pool.contains(pool[0]));
    } else {
        let front = pool.drop_last();
        assert forall|j: int, k: int| 0 <= j < k < front.len() implies (#[trigger] front[j]) < (#[trigger] front[k]) by {
            assert(pool[j] < pool[k]);
        }
        lemma_nearest(reqs, front, line);
        let best = nearest(reqs, front, line);
        let at = choose|k: int| 0 <= k < front.len() && front[k] == best;
        assert(pool[at] == best);
        let now = nearest(reqs, pool, line);
        assert(pool[pool.len() - 1] == pool.last());
        assert forall|j: int| 0 <= j < pool.len() implies lines_away(reqs[now], line) <= lines_away(
            reqs[#[trigger] pool[j]],
            line,
        ) by {
            if j < front.len() {
                assert(front[j] == pool[j]);
            }
        }
        assert forall|j: int| 0 <= j < pool.len() && (#[trigger] pool[j]) < now implies lines_away(reqs[now], line)
            < lines_away(reqs[pool[j]], line) by {
            if j < front.len() {
                assert(front[j] == pool[j]);
            } else {
                assert(pool[at] < pool[j]);
            }
        }
        if now == pool.last() {
            assert(pool.contains(pool[pool.len() - 1]));
        } else {
            assert(pool.contains(pool[at]));
        }
    }
}

proof fn lemma_hinted_rises(reqs: Seq<RequestView>, name: Option<Seq<char>>, key: Option<u64>, n: int)
    requires
        n <= reqs.len(),
    ensures
        rising(hinted(reqs, name, key, n)),
        forall|j: int| 0 <= j < hinted(reqs, name, key, n).len() ==> 0 <= (#[trigger] hinted(reqs, name, key, n)[j]) < n,
    decreases n,
{
    if n > 0 {
        lemma_hinted_rises(reqs, name, key, n - 1);
    }
}

proof fn lemma_numbered_none(reqs: Seq<RequestView>, pool: Seq<int>)
    ensures
        numbered(reqs, pool, None) is None,
    decreases pool.len(),
{
    if pool.len() > 0 {
        lemma_numbered_none(reqs, pool.drop_first());
    }
}

/// Among requests of one name, where no other hint helps, the one nearest to the line
/// is meant, and of two that are equally near the upper one. So it is among requests of
/// one identity.
pub proof fn law_nearest_is_meant(reqs: Seq<RequestView>, line: u32, hint: Seq<char>, key: u64, method: Option<Seq<char>>)
    ensures
        hint.len() > 0 && (exists|j: int| 0 <= j < reqs.len() && (#[trigger] reqs[j]).name == Some(hint)) ==> (meant(
            reqs,
            line,
            None,
            None,
            Some(hint),
            method,
        ) matches Some((i, _)) && 0 <= i < reqs.len() && reqs[i].name == Some(hint) && (forall|j: int|
            0 <= j < reqs.len() && (#[trigger] reqs[j]).name == Some(hint) ==> lines_away(reqs[i], line) <= lines_away(
                reqs[j],
                line,
            ) && (j < i ==> lines_away(reqs[i], line) < lines_away(reqs[j], line)))),
        (exists|j: int| 0 <= j < reqs.len() && key_of(#[trigger] reqs[j]) == key) ==> (meant(
            reqs,
            line,
            Some(key),
            None,
            None,
            method,
        ) matches Some((i, _)) && 0 <= i < reqs.len() && key_of(reqs[i]) == key && (forall|j: int|
            0 <= j < reqs.len() && key_of(#[trigger] reqs[j]) == key ==> lines_away(reqs[i], line) <= lines_away(
                reqs[j],
                line,
            ) && (j < i ==> lines_away(reqs[i], line) < lines_away(reqs[j], line)))),
{
    let n = reqs.len() as int;
    let named = hinted(reqs, Some(hint), None, n);
    let keyed = hinted(reqs, None, Some(key), n);
    lemma_hinted(reqs, Some(hint), None, n);
    lemma_hinted(reqs, None, Some(key), n);
    lemma_hinted_rises(reqs, Some(hint), None, n);
    lemma_hinted_rises(reqs, None, Some(key), n);
    lemma_numbered_none(reqs, named);
    lemma_numbered_none(reqs, keyed);
    if hint.len() > 0 && (exists|j: int| 0 <= j < reqs.len() && (#[trigger] reqs[j]).name == Some(hint)) {
        let j = choose|j: int| 0 <= j < reqs.len() && (#[trigger] reqs[j]).name == Some(hint);
        assert(named.contains(j));
        lemma_nearest(reqs, named, line);
        let i = nearest(reqs, named, line);
        let at = choose|k: int| 0 <= k < named.len() && named[k] == i;
        assert(named[at] == i);
        assert forall|j: int| 0 <= j < reqs.len() && (#[trigger] reqs[j]).name == Some(hint) implies lines_away(
            reqs[i],
            line,
        ) <= lines_away(reqs[j], line) && (j < i ==> lines_away(reqs[i], line) < lines_away(reqs[j], line)) by {
            assert(named.contains(j));
            let k = choose|k: int| 0 <= k < named.len() && named[k] == j;
            assert(named[k] == j);
        }
    }
    if exists|j: int| 0 <= j < reqs.len() && key_of(#[trigger] reqs[j]) == key {
        let j = choose|j: int| 0 <= j < reqs.len() && key_of(#[trigger] reqs[j]) == key;
        assert(keyed.contains(j));
        lemma_nearest(reqs, keyed, line);
        let i = nearest(reqs, keyed, line);
        let at = choose|k: int| 0 <= k < keyed.len() && keyed[k] == i;
        assert(keyed[at] == i);
        assert forall|j: int| 0 <= j < reqs.len() && key_of(#[trigger] reqs[j]) == key implies lines_away(reqs[i], line)
            <= lines_away(reqs[j], line) && (j < i ==> lines_away(reqs[i], line) < lines_away(reqs[j], line)) by {
            assert(keyed.contains(j));
            let k = choose|k: int| 0 <= k < keyed.len() && keyed[k] == j;
            assert(keyed[k] == j);
        }
    }
}

/// Among namesakes the one whose identity matches is meant, whatever the line.
pub proof fn law_identity_decides_among_namesakes(
    reqs: Seq<RequestView>,
    i: int,
    line: u32,
    nth: Option<u32>,
    method: Option<Seq<char>>,
)
    requires
        0 <= i < reqs.len(),
        reqs[i].name matches Some(n) && n.len() > 0,
        forall|j: int|
            0 <= j < reqs.len() && j != i && (#[trigger] reqs[j]).name == reqs[i].name ==> key_of(reqs[j]) != key_of(
                reqs[i],
            ),
    ensures
        meant(reqs, line, Some(key_of(reqs[i])), nth, reqs[i].name, method) == Some((i, "name"@)),
{
    let n = reqs.len() as int;
    let name = reqs[i].name;
    let key = Some(key_of(reqs[i]));
    let exact = hinted(reqs, name, key, n);
    let named = hinted(reqs, name, None, n);
    lemma_hinted(reqs, name, key, n);
    lemma_hinted(reqs, name, None, n);
    lemma_hinted_rises(reqs, name, key, n);
    let _ = reqs[i];
    assert(exact.contains(i));
    assert(named.contains(i));
    assert forall|j: int| 0 <= j < exact.len() implies exact[j] == i by {
        let _ = reqs[exact[j]];
    }
    if exact.len() > 1 {
        assert(exact[0] < exact[1]);
    }
    assert(exact.len() == 1);
    assert(exact[0] == i);
}

/// Where namesakes are requests of different identities, and the identity that the
/// button noted is none of them, its number says nothing: the nearest one is meant.
pub proof fn law_number_tells_equals_apart_only(
    reqs: Seq<RequestView>,
    line: u32,
    key: Option<u64>,
    nth: Option<u32>,
    hint: Seq<char>,
    method: Option<Seq<char>>,
    a: int,
    b: int,
)
    requires
        hint.len() > 0,
        0 <= a < reqs.len(),
        0 <= b < reqs.len(),
        reqs[a].name == Some(hint),
        reqs[b].name == Some(hint),
        key_of(reqs[a]) != key_of(reqs[b]),
        key matches Some(k) ==> forall|j: int|
            0 <= j < reqs.len() && (#[trigger] reqs[j]).name == Some(hint) ==> key_of(reqs[j]) != k,
    ensures
        meant(reqs, line, key, nth, Some(hint), method) matches Some((i, how)) && how == "name"@ && 0 <= i < reqs.len()
            && reqs[i].name == Some(hint) && forall|j: int|
            0 <= j < reqs.len() && (#[trigger] reqs[j]).name == Some(hint) ==> lines_away(reqs[i], line) <= lines_away(
                reqs[j],
                line,
            ) && (j < i ==> lines_away(reqs[i], line) < lines_away(reqs[j], line)),
{
    let n = reqs.len() as int;
    let named = hinted(reqs, Some(hint), None, n);
    let exact = hinted(reqs, Some(hint), key, n);
    lemma_hinted(reqs, Some(hint), None, n);
    lemma_hinted(reqs, Some(hint), key, n);
    lemma_hinted_rises(reqs, Some(hint), None, n);
    assert(named.contains(a));
    assert(named.contains(b));
    let ka = choose|k: int| 0 <= k < named.len() && named[k] == a;
    let kb = choose|k: int| 0 <= k < named.len() && named[k] == b;
    assert(!one_identity(reqs, named)) by {
        if one_identity(reqs, named) {
            assert(key_of(reqs[named[ka]]) == key_of(reqs[named[0]]));
            assert(key_of(reqs[named[kb]]) == key_of(reqs[named[0]]));
        }
    }
    if key is Some && exact.len() > 0 {
        assert(exact.contains(exact[0]));
        let _ = reqs[exact[0]];
    }
    lemma_nearest(reqs, named, line);
    let i = nearest(reqs, named, line);
    let at = choose|k: int| 0 <= k < named.len() && named[k] == i;
    assert(named[at] == i);
    assert(named.contains(i));
    assert forall|j: int| 0 <= j < reqs.len() && (#[trigger] reqs[j]).name == Some(hint) implies lines_away(
        reqs[i],
        line,
    ) <= lines_away(reqs[j], line) && (j < i ==> lines_away(reqs[i], line) < lines_away(reqs[j], line)) by {
        assert(named.contains(j));
        let k = choose|k: int| 0 <= k < named.len() && named[k] == j;
        assert(named[k] == j);
    }
}

/// Among requests of one identity the one with the number that the button noted is
/// meant, wherever its line has gone, and also where the name that the button noted is
/// no longer there.
pub proof fn law_number_decides_among_equals(
    reqs: Seq<RequestView>,
    i: int,
    line: u32,
    name: Option<Seq<char>>,
    method: Option<Seq<char>>,
)
    requires
        0 <= i < reqs.len() <= u32::MAX,
        name matches Some(n) ==> n.len() == 0 || forall|j: int|
            0 <= j < reqs.len() ==> (#[trigger] reqs[j]).name != Some(n),
    ensures
        meant(reqs, line, Some(key_of(reqs[i])), Some(nth_of(reqs, i)), name, method) == Some((i, "identity"@)),
{
    let n = reqs.len() as int;
    let key = Some(key_of(reqs[i]));
    let keyed = hinted(reqs, None, key, n);
    let named = hinted(reqs, name, None, n);
    lemma_hinted(reqs, None, key, n);
    lemma_hinted(reqs, name, None, n);
    if name is Some && name->0.len() > 0 && named.len() > 0 {
        assert(named.contains(named[0]));
        let _ = reqs[named[0]];
    }
    let _ = reqs[i];
    lemma_tiebreak_by_number(reqs, keyed, line, i);
}

/// A button says what it sends: the name of the request, where it has one.
pub proof fn law_titles(r: RequestView)
    ensures
        r.name matches Some(n) ==> lens_title(r) == "▶ Send request  ("@ + n + ")"@,
        r.name is None ==> lens_title(r) == "▶ Send request"@,
{
}

/// Each request of a document has one button, in order: on its line, under its title,
/// and with its arguments. The result file has none.
pub proof fn law_buttons(uri: Seq<char>, result_uri: Seq<char>, text: Seq<char>, i: int)
    ensures
        uri == result_uri ==> lenses_of(uri, result_uri, text).len() == 0,
        uri != result_uri ==> {
            let lenses = lenses_of(uri, result_uri, text);
            let reqs = document(text).requests;
            &&& lenses.len() == reqs.len()
            &&& 0 <= i < reqs.len() ==> lenses[i].line == reqs[i].line && lenses[i].title == lens_title(reqs[i])
                && lenses[i].command == "http.sendRequest"@ && lenses[i].arguments == lens_arguments(uri, reqs, i)
        },
{
}

/// Each request has its identity, and its number among those of that identity.
pub proof fn law_identities(reqs: Seq<RequestView>, i: int)
    ensures
        keys_of(reqs).len() == reqs.len(),
        0 <= i < reqs.len() ==> keys_of(reqs)[i].0 == text_hash(key_text(reqs[i])) && keys_of(reqs)[i].1 == nth_of(
            reqs,
            i,
        ),
{
}

/// A button hands back its document, and the line, identity, number, name and method
/// of its request.
pub proof fn law_arguments(uri: Seq<char>, reqs: Seq<RequestView>, i: int)
    ensures
        click_of(lens_arguments(uri, reqs, i)) == Some(
            ClickView {
                uri,
                line: reqs[i].line,
                key: Some(key_of(reqs[i])),
                nth: Some(nth_of(reqs, i)),
                name: Some(or_empty(reqs[i].name)),
                method: Some(reqs[i].method),
            },
        ),
{
    crate::click::lemma_arguments_read_back(uri, reqs, i);
}

/// A click needs a document and a line; each of its other arguments counts by itself,
/// where it is there and of its kind.
pub proof fn law_click_arguments(uri: Seq<char>, line: u64, text: Seq<char>, more: Seq<JsonView>)
    ensures
        click_of(seq![]) is None,
        click_of(seq![JsonView::Text(uri)]) is None,
        ({
            let head = seq![JsonView::Text(uri), JsonView::Number { text, uint: Some(line) }];
            click_of(head + more) matches Some(c) && {
                &&& c.uri == uri
                &&& c.line as int == line as int % 0x1_0000_0000
                &&& c.key == (if more.len() > 0 && more[0] is Text && number(more[0]->Text_0, 16, u64::MAX as int) is Some {
                    Some(number(more[0]->Text_0, 16, u64::MAX as int)->0 as u64)
                } else {
                    None
                })
                &&& c.nth is Some <==> more.len() > 1 && more[1] is Number && more[1]->uint is Some
                &&& c.nth is Some ==> c.nth->0 as int == more[1]->uint->0 as int % 0x1_0000_0000
                &&& c.name == (if more.len() > 2 && more[2] is Text {
                    Some(more[2]->Text_0)
                } else {
                    None
                })
                &&& c.method == (if more.len() > 3 && more[3] is Text {
                    Some(more[3]->Text_0)
                } else {
                    None
                })
            }
        }),
{
    let head = seq![JsonView::Text(uri), JsonView::Number { text, uint: Some(line) }];
    let all = head + more;
    assert(all[0] == head[0]);
    assert(all[1] == head[1]);
    if more.len() > 0 {
        assert(all[2] == more[0]);
    }
    if more.len() > 1 {
        assert(all[3] == more[1]);
    }
    if more.len() > 2 {
        assert(all[4] == more[2]);
    }
    if more.len() > 3 {
        assert(all[5] == more[3]);
    }
}

}

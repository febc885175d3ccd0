//! What `{{...}}` stands for, and what is left of it.

use vstd::prelude::*;

verus! {

use crate::exchange::{header_tokens, missing, OutboundView};
use crate::json::{navigate, plain};
use crate::laws::text::{
    all_white, law_drop_leading, law_prefix, law_split_once, law_trim, law_whitespace, occurs, solid,
};
use crate::text::{find_from, is_white, lemma_find_from, same_ignoring_case, starts_with, trim};
use crate::vars::{
    collected, header_value, is_chain_name, law_chained_reference, lemma_braces, lemma_collected_keeps, pass_from,
    passes, resolved, token_value, Env, MAX_PASSES,
};

spec fn open_braces() -> Seq<char> {
    seq!['{', '{']
}

spec fn close_braces() -> Seq<char> {
    seq!['}', '}']
}

proof fn lemma_brace_texts()
    ensures
        "{{"@ == open_braces(),
        "}}"@ == close_braces(),
{
    reveal_strlit("{{");
    reveal_strlit("}}");
    assert("{{"@ =~= open_braces());
    assert("}}"@ =~= close_braces());
}

/// The value of a name: the file variable, whatever the `.env` files hold; else the
/// `.env` value; else none.
pub proof fn law_file_variables_come_first(name: Seq<char>, e: Env)
    requires
        solid(name),
        !name.contains('.'),
        !starts_with(name, "$dotenv"@),
    ensures
        e.vars.contains_key(name) ==> token_value(name, e) == Some(e.vars[name]),
        !e.vars.contains_key(name) && e.dotenv.contains_key(name) ==> token_value(name, e) == Some(e.dotenv[name]),
        !e.vars.contains_key(name) && !e.dotenv.contains_key(name) ==> token_value(name, e) is None,
{
    lemma_solid(name);
    law_split_once(name, '.', Seq::empty());
}

proof fn lemma_solid(x: Seq<char>)
    requires
        solid(x),
    ensures
        trim(x) == x,
{
    let none = Seq::<char>::empty();
    law_trim(none, x, none);
    assert(none + x + none =~= x);
}

/// `$dotenv NAME` stands for the `.env` value of the name, whatever the file
/// variables hold.
pub proof fn law_dotenv_reference(gap: Seq<char>, name: Seq<char>, tail: Seq<char>, e: Env)
    requires
        all_white(gap),
        all_white(tail),
        solid(name),
    ensures
        token_value("$dotenv"@ + gap + name + tail, e) == (if e.dotenv.contains_key(name) {
            Some(e.dotenv[name])
        } else {
            None
        }),
{
    let p = "$dotenv"@;
    reveal_strlit("$dotenv");
    law_whitespace('$');
    law_whitespace('v');
    let none = Seq::<char>::empty();
    let t = p + gap + name + tail;
    if name.len() > 0 {
        let x = p + gap + name;
        assert(x[0] == '$');
        assert(x.last() == name.last());
        law_trim(none, x, tail);
        assert(none + x + tail =~= t);
        assert(x =~= p + (gap + name));
        law_prefix(x, p, gap + name);
        law_trim(gap, name, none);
        assert(gap + name + none =~= gap + name);
    } else {
        let w = gap + tail;
        assert forall|i: int| 0 <= i < w.len() implies is_white(#[trigger] w[i]) by {
            if i < gap.len() {
                assert(w[i] == gap[i]);
            } else {
                assert(w[i] == tail[i - gap.len()]);
            }
        }
        assert(p[0] == '$' && p.last() == 'v');
        law_trim(none, p, w);
        assert(none + p + w =~= t);
        law_prefix(p, p, none);
        assert(p + none =~= p);
        law_trim(none, none, none);
        assert(none + none + none =~= none);
        assert(name =~= none);
    }
}

/// Whitespace around a token does not count.
pub proof fn law_token_is_trimmed(a: Seq<char>, tok: Seq<char>, b: Seq<char>, e: Env)
    requires
        all_white(a),
        all_white(b),
        solid(tok),
    ensures
        token_value(a + tok + b, e) == token_value(tok, e),
{
    law_trim(a, tok, b);
    lemma_solid(tok);
}

/// The value of a header is that of the first header of the name, without regard to
/// case.
pub proof fn law_header_value(
    before: Seq<(Seq<char>, Seq<char>)>,
    name: Seq<char>,
    value: Seq<char>,
    after: Seq<(Seq<char>, Seq<char>)>,
    wanted: Seq<char>,
)
    requires
        forall|i: int| 0 <= i < before.len() ==> !same_ignoring_case((#[trigger] before[i]).0, wanted),
    ensures
        same_ignoring_case(name, wanted) ==> header_value(before + seq![(name, value)] + after, wanted) == Some(value),
        header_value(before, wanted) is None,
    decreases before.len(),
{
    let all = before + seq![(name, value)] + after;
    if before.len() > 0 {
        let rest = before.drop_first();
        assert(!same_ignoring_case(before[0].0, wanted));
        assert forall|i: int| 0 <= i < rest.len() implies !same_ignoring_case((#[trigger] rest[i]).0, wanted) by {
            assert(rest[i] == before[i + 1]);
        }
        law_header_value(rest, name, value, after, wanted);
        assert(all[0] == before[0]);
        assert(all.drop_first() =~= rest + seq![(name, value)] + after);
    } else {
        assert(all[0] == (name, value));
    }
}

/// `{{name.response.headers.H}}` stands for the value of the header in the stored
/// response.
pub proof fn law_chained_header(name: Seq<char>, wanted: Seq<char>, e: Env)
    requires
        is_chain_name(name),
        e.responses.contains_key(name),
        wanted.len() > 0,
        solid(wanted),
        wanted[0] != '.',
    ensures
        token_value(name + seq!['.'] + ("response.headers."@ + wanted), e) == header_value(
            e.responses[name].headers,
            wanted,
        ),
{
    let rest = "response.headers."@ + wanted;
    reveal_strlit("response.headers.");
    reveal_strlit("response.headers");
    reveal_strlit("response.body");
    reveal_strlit(".");
    assert(rest.last() == wanted.last());
    law_chained_reference(name, rest, e);
    if starts_with(rest, "response.body"@) {
        assert(rest.subrange(0, 13)[9] == rest[9]);
    }
    assert(rest.subrange(0, 16) =~= "response.headers"@);
    let path = seq!['.'] + wanted;
    assert(rest.skip(16) =~= path);
    let set = "."@;
    assert(set[0] == '.');
    assert(!set.contains(wanted[0])) by {
        if set.contains(wanted[0]) {
            let k = choose|k: int| 0 <= k < set.len() && set[k] == wanted[0];
            assert(k == 0);
        }
    }
    assert forall|i: int| 0 <= i < seq!['.'].len() implies set.contains(#[trigger] seq!['.'][i]) by {
        assert(set.contains(set[0]));
    }
    law_drop_leading(seq!['.'], wanted, set);
    lemma_solid(wanted);
}

/// However many dots stand before a path into the body, or before the name of a header,
/// the path or the name is what follows them; whitespace around the name of a header
/// does not count.
pub proof fn law_dots_before_a_path(
    name: Seq<char>,
    dots: Seq<char>,
    path: Seq<char>,
    gap: Seq<char>,
    wanted: Seq<char>,
    e: Env,
)
    requires
        is_chain_name(name),
        e.responses.contains_key(name),
        forall|i: int| 0 <= i < dots.len() ==> #[trigger] dots[i] == '.',
        path.len() > 0,
        path[0] != '.',
        !is_white(path.last()),
        all_white(gap),
        wanted.len() > 0,
        solid(wanted),
        wanted[0] != '.',
    ensures
        token_value(name + seq!['.'] + ("response.body"@ + (dots + path)), e) == (match navigate(
            e.responses[name].body,
            path,
        ) {
            Some(v) => Some(plain(v)),
            None => None,
        }),
        token_value(name + seq!['.'] + ("response.headers"@ + (dots + (gap + wanted))), e) == header_value(
            e.responses[name].headers,
            wanted,
        ),
{
    reveal_strlit("response.headers");
    reveal_strlit("response.body");
    reveal_strlit(".");
    law_whitespace('.');
    let none = Seq::<char>::empty();
    let set = "."@;
    assert(set =~= seq!['.']);
    assert forall|i: int| 0 <= i < dots.len() implies set.contains(#[trigger] dots[i]) by {
        assert(set[0] == dots[i]);
    }
    let body = "response.body"@ + (dots + path);
    assert(body.last() == path.last());
    law_chained_reference(name, body, e);
    law_prefix(body, "response.body"@, dots + path);
    law_drop_leading(dots, path, set);
    let key = gap + wanted;
    let headers = "response.headers"@ + (dots + key);
    assert(headers.last() == wanted.last());
    law_chained_reference(name, headers, e);
    law_prefix(headers, "response.headers"@, dots + key);
    if starts_with(headers, "response.body"@) {
        assert(headers.subrange(0, 13)[9] == headers[9]);
        assert(headers[9] == "response.headers"@[9]);
    }
    if gap.len() > 0 {
        assert(key[0] == gap[0]);
    } else {
        assert(key[0] == wanted[0]);
    }
    law_drop_leading(dots, key, set);
    law_trim(gap, wanted, none);
    assert(gap + wanted + none =~= key);
}

/// `{{name.response.body}}` stands for the whole body.
pub proof fn law_chained_whole_body(name: Seq<char>, e: Env)
    requires
        is_chain_name(name),
        e.responses.contains_key(name),
    ensures
        token_value(name + seq!['.'] + "response.body"@, e) == Some(plain(e.responses[name].body)),
{
    let rest = "response.body"@;
    reveal_strlit("response.body");
    law_whitespace('y');
    assert(rest.last() == 'y');
    law_chained_reference(name, rest, e);
    law_prefix(rest, rest, Seq::empty());
    assert(rest + Seq::<char>::empty() =~= rest);
}

/// A reference to a response that is not stored has no value, whatever the variables
/// hold; neither has one to anything but the body, the headers or the status.
pub proof fn law_other_chains_have_no_value(name: Seq<char>, rest: Seq<char>, e: Env)
    requires
        is_chain_name(name),
        rest.len() > 0 ==> !is_white(rest.last()),
        !e.responses.contains_key(name) || (!starts_with(rest, "response.body"@) && !starts_with(
            rest,
            "response.headers"@,
        ) && rest != "response.status"@),
    ensures
        token_value(name + seq!['.'] + rest, e) is None,
{
    law_chained_reference(name, rest, e);
}

/// Whether the next `{{` of `x + "{{" + y` is the one after `x`, for every `y`.
pub open spec fn before_braces(x: Seq<char>) -> bool {
    !occurs(x + seq!['{'], seq!['{', '{'])
}

/// Whether the next `}}` of `x + "}}" + y` is the one after `x`, for every `y`.
pub open spec fn inside_braces(x: Seq<char>) -> bool {
    !occurs(x + seq!['}'], seq!['}', '}'])
}

/// Where a mark of two equal characters is found first.
proof fn lemma_first_pair(pre: Seq<char>, x: Seq<char>, c: char, y: Seq<char>)
    requires
        !occurs(x + seq![c], seq![c, c]),
    ensures
        find_from(pre + x + seq![c, c] + y, seq![c, c], pre.len() as int) == Some((pre.len() + x.len()) as int),
{
    let s = pre + x + seq![c, c] + y;
    let p = seq![c, c];
    let k = (pre.len() + x.len()) as int;
    lemma_find_from(s, p, pre.len() as int);
    assert(s.subrange(k, k + 2) =~= p);
    if let Some(j) = find_from(s, p, pre.len() as int) {
        if j < k {
            let z = x + seq![c];
            let m = j - pre.len();
            assert(z.subrange(m, m + 2) =~= s.subrange(j, j + 2));
            assert(z.subrange(m, m + p.len()) == p);
        } else if j > k {
            assert(s.subrange(k, k + p.len()) == p);
        }
    } else {
        assert(s.subrange(k, k + p.len()) == p);
    }
}

/// A pass does the same wherever the rest of the text stands.
proof fn lemma_pass_shift(pre: Seq<char>, s: Seq<char>, i: int, e: Env)
    requires
        0 <= i <= s.len(),
    ensures
        pass_from(pre + s, pre.len() + i, e) == pass_from(s, i, e),
    decreases s.len() - i,
{
    let n = pre.len() as int;
    let all = pre + s;
    lemma_braces(s, i);
    lemma_braces(all, n + i);
    lemma_find_shift(pre, s, "{{"@, i);
    match find_from(s, "{{"@, i) {
        None => {
            assert(all.skip(n + i) =~= s.skip(i));
        },
        Some(a) => {
            lemma_find_shift(pre, s, "}}"@, a + 2);
            assert(all.subrange(n + i, n + a) =~= s.subrange(i, a));
            match find_from(s, "}}"@, a + 2) {
                None => {
                    lemma_pass_shift(pre, s, a + 2, e);
                },
                Some(b) => {
                    assert(all.subrange(n + a + 2, n + b) =~= s.subrange(a + 2, b));
                    lemma_pass_shift(pre, s, b + 2, e);
                },
            }
        },
    }
}

proof fn lemma_find_shift(pre: Seq<char>, s: Seq<char>, p: Seq<char>, i: int)
    requires
        0 <= i,
    ensures
        find_from(pre + s, p, pre.len() + i) == (match find_from(s, p, i) {
            Some(k) => Some(pre.len() + k),
            None => None,
        }),
    decreases s.len() + 1 - i,
{
    if i + p.len() <= s.len() {
        assert((pre + s).subrange(pre.len() + i, pre.len() + i + p.len()) =~= s.subrange(i, i + p.len()));
        if s.subrange(i, i + p.len()) != p {
            lemma_find_shift(pre, s, p, i + 1);
        }
    }
}

/// One pass: the first token is replaced by its value, or stays where it has none, and
/// the rest of the text is treated alike. A text without a token stays.
pub proof fn law_pass(x: Seq<char>, tok: Seq<char>, y: Seq<char>, e: Env)
    requires
        before_braces(x),
        inside_braces(tok),
    ensures
        pass_from(x + seq!['{', '{'] + tok + seq!['}', '}'] + y, 0, e) == (match token_value(tok, e) {
            Some(v) => (x + v + pass_from(y, 0, e).0, true),
            None => (
                x + seq!['{', '{'] + tok + seq!['}', '}'] + pass_from(y, 0, e).0,
                pass_from(y, 0, e).1,
            ),
        }),
        !occurs(y, seq!['{', '{']) ==> pass_from(y, 0, e) == (y, false),
{
    lemma_brace_texts();
    let o = seq!['{', '{'];
    let c = seq!['}', '}'];
    let s = x + o + tok + c + y;
    let none = Seq::<char>::empty();
    let a = x.len() as int;
    let b = a + 2 + tok.len();
    lemma_braces(s, 0);
    lemma_first_pair(none, x, '{', tok + c + y);
    assert(none + x + o + (tok + c + y) =~= s);
    lemma_first_pair(x + o, tok, '}', y);
    assert(x + o + tok + c + y =~= s);
    assert(s.subrange(a + 2, b) =~= tok);
    assert(s.subrange(0, a) =~= x);
    lemma_pass_shift(x + o + tok + c, y, 0, e);
    assert((x + o + tok + c).len() == b + 2);
    if !occurs(y, o) {
        lemma_braces(y, 0);
        lemma_find_from(y, o, 0);
        if let Some(k) = find_from(y, o, 0) {
            assert(y.subrange(k, k + o.len()) == o);
        }
        assert(y.skip(0) =~= y);
    }
}

/// A text with tokens in it: each piece is what stands before a token, and the token.
pub open spec fn with_tokens(pieces: Seq<(Seq<char>, Seq<char>)>, rest: Seq<char>) -> Seq<char>
    decreases pieces.len(),
{
    if pieces.len() == 0 {
        rest
    } else {
        pieces[0].0 + seq!['{', '{'] + pieces[0].1 + seq!['}', '}'] + with_tokens(pieces.drop_first(), rest)
    }
}

/// The same text with the values of the tokens in their places; tokens without a value
/// stay.
pub open spec fn with_values(pieces: Seq<(Seq<char>, Seq<char>)>, rest: Seq<char>, e: Env) -> Seq<char>
    decreases pieces.len(),
{
    if pieces.len() == 0 {
        rest
    } else {
        pieces[0].0 + (match token_value(pieces[0].1, e) {
            Some(v) => v,
            None => seq!['{', '{'] + pieces[0].1 + seq!['}', '}'],
        }) + with_values(pieces.drop_first(), rest, e)
    }
}

/// Whether no text around the tokens, and no value of one, holds a brace.
pub open spec fn plain_pieces(pieces: Seq<(Seq<char>, Seq<char>)>, rest: Seq<char>, e: Env) -> bool {
    &&& !rest.contains('{')
    &&& forall|i: int|
        0 <= i < pieces.len() ==> {
            &&& !(#[trigger] pieces[i]).0.contains('{')
            &&& !pieces[i].1.contains('{') && !pieces[i].1.contains('}')
            &&& (token_value(pieces[i].1, e) matches Some(v) ==> !v.contains('{'))
        }
}

proof fn lemma_no_brace(x: Seq<char>, c: char)
    requires
        !x.contains(c),
    ensures
        !occurs(x + seq![c], seq![c, c]),
        !occurs(x, seq![c, c]),
{
    let z = x + seq![c];
    let p = seq![c, c];
    if occurs(z, p) {
        let i = choose|i: int| 0 <= i && i + p.len() <= z.len() && #[trigger] z.subrange(i, i + p.len()) == p;
        assert(z.subrange(i, i + 2)[0] == z[i]);
        assert(z[i] == c);
        assert(z[i] == x[i]);
        assert(x.contains(x[i]));
    }
    if occurs(x, p) {
        let i = choose|i: int| 0 <= i && i + p.len() <= x.len() && #[trigger] x.subrange(i, i + p.len()) == p;
        assert(x.subrange(i, i + 2)[0] == x[i]);
        assert(x.contains(x[i]));
    }
}

proof fn lemma_pass_pieces(pieces: Seq<(Seq<char>, Seq<char>)>, rest: Seq<char>, e: Env)
    requires
        plain_pieces(pieces, rest, e),
    ensures
        pass_from(with_tokens(pieces, rest), 0, e).0 == with_values(pieces, rest, e),
        pass_from(with_tokens(pieces, rest), 0, e).1 <==> exists|i: int|
            0 <= i < pieces.len() && token_value((#[trigger] pieces[i]).1, e) is Some,
    decreases pieces.len(),
{
    if pieces.len() == 0 {
        lemma_no_brace(rest, '{');
        lemma_no_brace(Seq::empty(), '{');
        lemma_no_brace(Seq::empty(), '}');
        law_pass(Seq::empty(), Seq::empty(), rest, e);
    } else {
        let (x, tok) = pieces[0];
        let more = pieces.drop_first();
        lemma_no_brace(x, '{');
        lemma_no_brace(tok, '}');
        assert forall|i: int| 0 <= i < more.len() implies {
            &&& !(#[trigger] more[i]).0.contains('{')
            &&& !more[i].1.contains('{') && !more[i].1.contains('}')
            &&& (token_value(more[i].1, e) matches Some(v) ==> !v.contains('{'))
        } by {
            assert(more[i] == pieces[i + 1]);
        }
        lemma_pass_pieces(more, rest, e);
        law_pass(x, tok, with_tokens(more, rest), e);
        assert(x + seq!['{', '{'] + tok + seq!['}', '}'] + with_values(more, rest, e) =~= x + (seq!['{', '{'] + tok
            + seq!['}', '}']) + with_values(more, rest, e));
        if exists|i: int| 0 <= i < more.len() && token_value((#[trigger] more[i]).1, e) is Some {
            let i = choose|i: int| 0 <= i < more.len() && token_value((#[trigger] more[i]).1, e) is Some;
            assert(token_value(pieces[i + 1].1, e) is Some);
        }
        if exists|i: int| 0 <= i < pieces.len() && token_value((#[trigger] pieces[i]).1, e) is Some {
            let i = choose|i: int| 0 <= i < pieces.len() && token_value((#[trigger] pieces[i]).1, e) is Some;
            if i > 0 {
                assert(token_value(more[i - 1].1, e) is Some);
            }
        }
    }
}

/// The pieces that are left where the tokens with a value are replaced: their texts
/// run together.
spec fn left_pieces(pieces: Seq<(Seq<char>, Seq<char>)>, carry: Seq<char>, rest: Seq<char>, e: Env) -> (
    Seq<(Seq<char>, Seq<char>)>,
    Seq<char>,
)
    decreases pieces.len(),
{
    if pieces.len() == 0 {
        (seq![], carry + rest)
    } else {
        match token_value(pieces[0].1, e) {
            Some(v) => left_pieces(pieces.drop_first(), carry + pieces[0].0 + v, rest, e),
            None => {
                let (more, last) = left_pieces(pieces.drop_first(), seq![], rest, e);
                (seq![(carry + pieces[0].0, pieces[0].1)] + more, last)
            },
        }
    }
}

proof fn lemma_left_pieces(pieces: Seq<(Seq<char>, Seq<char>)>, carry: Seq<char>, rest: Seq<char>, e: Env)
    requires
        plain_pieces(pieces, rest, e),
        !carry.contains('{'),
    ensures
        ({
            let (left, last) = left_pieces(pieces, carry, rest, e);
            &&& carry + with_values(pieces, rest, e) == with_tokens(left, last)
            &&& plain_pieces(left, last, e)
            &&& forall|i: int| 0 <= i < left.len() ==> token_value((#[trigger] left[i]).1, e) is None
        }),
    decreases pieces.len(),
{
    if pieces.len() == 0 {
        lemma_contains_joined(carry, rest, '{');
    } else {
        let (x, tok) = pieces[0];
        let more = pieces.drop_first();
        assert(!pieces[0].0.contains('{'));
        assert forall|i: int| 0 <= i < more.len() implies {
            &&& !(#[trigger] more[i]).0.contains('{')
            &&& !more[i].1.contains('{') && !more[i].1.contains('}')
            &&& (token_value(more[i].1, e) matches Some(v) ==> !v.contains('{'))
        } by {
            assert(more[i] == pieces[i + 1]);
        }
        lemma_contains_joined(carry, x, '{');
        match token_value(tok, e) {
            Some(v) => {
                lemma_contains_joined(carry + x, v, '{');
                lemma_left_pieces(more, carry + x + v, rest, e);
                assert(carry + with_values(pieces, rest, e) =~= carry + x + v + with_values(more, rest, e));
            },
            None => {
                lemma_left_pieces(more, Seq::empty(), rest, e);
                let (l, last) = left_pieces(more, seq![], rest, e);
                let left = seq![(carry + x, tok)] + l;
                assert(left.drop_first() =~= l);
                assert(Seq::<char>::empty() + with_values(more, rest, e) =~= with_values(more, rest, e));
                assert(carry + with_values(pieces, rest, e) =~= carry + x + seq!['{', '{'] + tok + seq!['}', '}']
                    + with_values(more, rest, e));
                assert forall|i: int| 0 <= i < left.len() implies {
                    &&& !(#[trigger] left[i]).0.contains('{')
                    &&& !left[i].1.contains('{') && !left[i].1.contains('}')
                    &&& token_value(left[i].1, e) is None
                } by {
                    if i > 0 {
                        assert(left[i] == l[i - 1]);
                    }
                }
            },
        }
    }
}

proof fn lemma_contains_joined(a: Seq<char>, b: Seq<char>, c: char)
    requires
        !a.contains(c),
        !b.contains(c),
    ensures
        !(a + b).contains(c),
{
    if (a + b).contains(c) {
        let i = choose|i: int| 0 <= i < (a + b).len() && (a + b)[i] == c;
        if i < a.len() {
            assert(a.contains(a[i]));
        } else {
            assert(b.contains(b[i - a.len()]));
        }
    }
}

/// Every token of a text is replaced by its value and nothing else of the text is
/// touched; a token without a value stays as it is.
pub proof fn law_every_token_is_replaced(pieces: Seq<(Seq<char>, Seq<char>)>, rest: Seq<char>, e: Env)
    requires
        plain_pieces(pieces, rest, e),
    ensures
        resolved(with_tokens(pieces, rest), e) == with_values(pieces, rest, e),
{
    let s = with_tokens(pieces, rest);
    let out = with_values(pieces, rest, e);
    lemma_pass_pieces(pieces, rest, e);
    reveal_with_fuel(passes, 3);
    if pass_from(s, 0, e).1 {
        let none = Seq::<char>::empty();
        lemma_left_pieces(pieces, none, rest, e);
        let (left, last) = left_pieces(pieces, none, rest, e);
        assert(none + out =~= out);
        lemma_pass_pieces(left, last, e);
        assert(!pass_from(out, 0, e).1);
        crate::vars::law_unresolved_is_kept(out, e);
    }
}

/// Values are resolved too: a chain of references, each the value of the one before,
/// is followed to its end, as far as the number of passes allows.
pub proof fn law_references_are_followed(
    before: Seq<char>,
    chain: Seq<Seq<char>>,
    end: Seq<char>,
    after: Seq<char>,
    e: Env,
    n: nat,
)
    requires
        !before.contains('{'),
        !after.contains('{'),
        !end.contains('{'),
        0 < chain.len(),
        forall|i: int| 0 <= i < chain.len() ==> !(#[trigger] chain[i]).contains('{') && !chain[i].contains('}'),
        forall|i: int|
            0 <= i < chain.len() - 1 ==> token_value(#[trigger] chain[i], e) == Some(
                seq!['{', '{'] + chain[i + 1] + seq!['}', '}'],
            ),
        token_value(chain.last(), e) == Some(end),
    ensures
        chain.len() <= n ==> passes(before + seq!['{', '{'] + chain[0] + seq!['}', '}'] + after, e, n) == before + end
            + after,
        n < chain.len() ==> passes(before + seq!['{', '{'] + chain[0] + seq!['}', '}'] + after, e, n) == before
            + seq!['{', '{'] + chain[n as int] + seq!['}', '}'] + after,
        n == MAX_PASSES ==> n == 10 && resolved(before + seq!['{', '{'] + chain[0] + seq!['}', '}'] + after, e)
            == passes(before + seq!['{', '{'] + chain[0] + seq!['}', '}'] + after, e, n),
    decreases chain.len(),
{
    let o = seq!['{', '{'];
    let c = seq!['}', '}'];
    let s = before + o + chain[0] + c + after;
    assert(!chain[0].contains('}'));
    lemma_no_brace(before, '{');
    lemma_no_brace(after, '{');
    lemma_no_brace(chain[0], '}');
    law_pass(before, chain[0], after, e);
    if n > 0 {
        if chain.len() == 1 {
            let out = before + end + after;
            lemma_contains_joined(before, end, '{');
            lemma_contains_joined(before + end, after, '{');
            lemma_no_brace(out, '{');
            lemma_no_brace(Seq::empty(), '{');
            lemma_no_brace(Seq::empty(), '}');
            law_pass(Seq::empty(), Seq::empty(), out, e);
            lemma_passes_of_settled(out, e, (n - 1) as nat);
        } else {
            let rest = chain.drop_first();
            assert(rest[0] == chain[1]);
            assert forall|i: int| 0 <= i < rest.len() implies !(#[trigger] rest[i]).contains('{') && !rest[i].contains(
                '}',
            ) by {
                assert(rest[i] == chain[i + 1]);
            }
            assert forall|i: int| 0 <= i < rest.len() - 1 implies token_value(#[trigger] rest[i], e) == Some(
                seq!['{', '{'] + rest[i + 1] + seq!['}', '}'],
            ) by {
                assert(rest[i] == chain[i + 1]);
            }
            law_references_are_followed(before, rest, end, after, e, (n - 1) as nat);
            assert(before + (o + chain[1] + c) + after =~= before + o + rest[0] + c + after);
        }
    }
}

proof fn lemma_passes_of_settled(s: Seq<char>, e: Env, n: nat)
    requires
        pass_from(s, 0, e) == (s, false),
    ensures
        passes(s, e, n) == s,
{
}

/// Collecting goes on wherever the rest of the text stands.
proof fn lemma_collect_shift(pre: Seq<char>, s: Seq<char>, i: int, found: Seq<Seq<char>>)
    requires
        0 <= i <= s.len(),
    ensures
        collected(pre + s, pre.len() + i, found) == collected(s, i, found),
    decreases s.len() - i,
{
    let n = pre.len() as int;
    let all = pre + s;
    lemma_braces(s, i);
    lemma_braces(all, n + i);
    lemma_find_shift(pre, s, "{{"@, i);
    if let Some(a) = find_from(s, "{{"@, i) {
        lemma_find_shift(pre, s, "}}"@, a + 2);
        if let Some(b) = find_from(s, "}}"@, a + 2) {
            assert(all.subrange(n + a + 2, n + b) =~= s.subrange(a + 2, b));
            let tok = trim(s.subrange(a + 2, b));
            lemma_collect_shift(pre, s, b + 2, found);
            lemma_collect_shift(pre, s, b + 2, found.push(tok));
        }
    }
}

/// Collecting takes the first token, whatever it is, unless it is blank or was found
/// before, and goes on behind it. A text without a token adds nothing.
pub proof fn law_collecting(x: Seq<char>, tok: Seq<char>, y: Seq<char>, found: Seq<Seq<char>>)
    requires
        before_braces(x),
        inside_braces(tok),
    ensures
        collected(x + seq!['{', '{'] + tok + seq!['}', '}'] + y, 0, found) == collected(
            y,
            0,
            if trim(tok).len() == 0 || found.contains(trim(tok)) {
                found
            } else {
                found.push(trim(tok))
            },
        ),
        !occurs(y, seq!['{', '{']) ==> collected(y, 0, found) == found,
{
    lemma_brace_texts();
    let o = seq!['{', '{'];
    let c = seq!['}', '}'];
    let s = x + o + tok + c + y;
    let none = Seq::<char>::empty();
    let a = x.len() as int;
    let b = a + 2 + tok.len();
    lemma_braces(s, 0);
    lemma_first_pair(none, x, '{', tok + c + y);
    assert(none + x + o + (tok + c + y) =~= s);
    lemma_first_pair(x + o, tok, '}', y);
    assert(s.subrange(a + 2, b) =~= tok);
    let pre = x + o + tok + c;
    assert(pre.len() == b + 2);
    lemma_collect_shift(pre, y, 0, found);
    lemma_collect_shift(pre, y, 0, found.push(trim(tok)));
    if !occurs(y, o) {
        lemma_braces(y, 0);
        lemma_find_from(y, o, 0);
        if let Some(k) = find_from(y, o, 0) {
            assert(y.subrange(k, k + o.len()) == o);
        }
    }
}

/// Whether the characters from `a` to `b` are `{{`, a text that is not blank, and the
/// next `}}`.
pub open spec fn is_token_at(s: Seq<char>, a: int, b: int) -> bool {
    &&& 0 <= a && a + 2 <= b && b + 2 <= s.len()
    &&& s[a] == '{' && s[a + 1] == '{'
    &&& s[b] == '}' && s[b + 1] == '}'
    &&& forall|j: int| a + 2 <= j < b ==> !(#[trigger] s[j] == '}' && s[j + 1] == '}')
    &&& exists|j: int| a + 2 <= j < b && !is_white(#[trigger] s[j])
}

/// Whether a text holds a token.
pub open spec fn holds_token(s: Seq<char>) -> bool {
    exists|a: int, b: int| #[trigger] is_token_at(s, a, b)
}

proof fn lemma_pair(s: Seq<char>, c: char, k: int)
    requires
        0 <= k,
        k + 2 <= s.len(),
    ensures
        s.subrange(k, k + 2) == seq![c, c] <==> s[k] == c && s[k + 1] == c,
{
    if s.subrange(k, k + 2) == seq![c, c] {
        assert(s.subrange(k, k + 2)[0] == s[k]);
        assert(s.subrange(k, k + 2)[1] == s[k + 1]);
        assert(seq![c, c][0] == c);
        assert(seq![c, c][1] == c);
    }
    if s[k] == c && s[k + 1] == c {
        assert(s.subrange(k, k + 2) =~= seq![c, c]);
    }
}

proof fn lemma_trim_nonblank(s: Seq<char>, j: int)
    requires
        0 <= j < s.len(),
        !is_white(s[j]),
    ensures
        trim(s).len() > 0,
    decreases s.len(),
{
    let i = lemma_first_solid(s);
    let indent = s.take(i);
    let t = s.skip(i);
    assert(s =~= indent + t);
    crate::laws::text::lemma_indented(indent, t);
}

proof fn lemma_first_solid(s: Seq<char>) -> (i: int)
    requires
        exists|j: int| 0 <= j < s.len() && !is_white(#[trigger] s[j]),
    ensures
        0 <= i < s.len(),
        !is_white(s[i]),
        all_white(s.take(i)),
    decreases s.len(),
{
    if !is_white(s[0]) {
        0
    } else {
        let rest = s.drop_first();
        let j = choose|j: int| 0 <= j < s.len() && !is_white(#[trigger] s[j]);
        assert(rest[j - 1] == s[j]);
        let k = lemma_first_solid(rest);
        assert forall|m: int| 0 <= m < k + 1 implies is_white(#[trigger] s.take(k + 1)[m]) by {
            if m > 0 {
                assert(rest.take(k)[m - 1] == s[m]);
            }
        }
        k + 1
    }
}

/// A token in a text makes the scan collect something, from wherever it starts.
proof fn lemma_token_is_met(s: Seq<char>, i: int, found: Seq<Seq<char>>, a: int, b: int)
    requires
        0 <= i <= a,
        is_token_at(s, a, b),
    ensures
        found.len() == 0 ==> collected(s, i, found).len() > 0,
    decreases s.len() - i,
{
    lemma_brace_texts();
    lemma_braces(s, i);
    lemma_find_from(s, "{{"@, i);
    lemma_pair(s, '{', a);
    assert(s.subrange(a, a + "{{"@.len()) == "{{"@);
    let p = find_from(s, "{{"@, i)->0;
    assert(i <= p <= a);
    lemma_pair(s, '{', p);
    lemma_find_from(s, "}}"@, p + 2);
    lemma_pair(s, '}', b);
    assert(p + 2 <= b);
    assert(s.subrange(b, b + "}}"@.len()) == "}}"@);
    let q = find_from(s, "}}"@, p + 2)->0;
    assert(p + 2 <= q <= b);
    lemma_pair(s, '}', q);
    let tok = trim(s.subrange(p + 2, q));
    if q < b {
        if q >= a + 2 {
            assert(s[q] == '}' && s[q + 1] == '}');
        }
        assert(q != a && q != a + 1);
        assert(q < a);
        assert(q + 1 != a);
        if tok.len() > 0 && !found.contains(tok) {
            lemma_collected_keeps(s, q + 2, found.push(tok));
        } else {
            lemma_token_is_met(s, q + 2, found, a, b);
        }
    } else {
        let j = choose|j: int| a + 2 <= j < b && !is_white(#[trigger] s[j]);
        let part = s.subrange(p + 2, q);
        assert(part[j - p - 2] == s[j]);
        lemma_trim_nonblank(part, j - p - 2);
        if found.len() == 0 {
            assert(!found.contains(tok));
            lemma_collected_keeps(s, q + 2, found.push(tok));
        }
    }
}

/// What the scan collects stands in the text as a token.
proof fn lemma_collected_are_tokens(s: Seq<char>, i: int)
    requires
        0 <= i,
        collected(s, i, seq![]).len() > 0,
    ensures
        holds_token(s),
    decreases s.len() - i,
{
    lemma_brace_texts();
    lemma_braces(s, i);
    if let Some(a) = find_from(s, "{{"@, i) {
        lemma_find_from(s, "}}"@, a + 2);
        if let Some(b) = find_from(s, "}}"@, a + 2) {
            lemma_pair(s, '{', a);
            lemma_pair(s, '}', b);
            let part = s.subrange(a + 2, b);
            let tok = trim(part);
            if tok.len() > 0 {
                assert forall|j: int| a + 2 <= j < b implies !(#[trigger] s[j] == '}' && s[j + 1] == '}') by {
                    lemma_pair(s, '}', j);
                    assert(s.subrange(j, j + "}}"@.len()) != "}}"@);
                }
                assert(exists|j: int| a + 2 <= j < b && !is_white(#[trigger] s[j])) by {
                    if forall|j: int| a + 2 <= j < b ==> is_white(#[trigger] s[j]) {
                        assert forall|m: int| 0 <= m < part.len() implies is_white(#[trigger] part[m]) by {
                            assert(part[m] == s[a + 2 + m]);
                        }
                        let none = Seq::<char>::empty();
                        law_trim(part, none, none);
                        assert(part + none + none =~= part);
                    }
                }
                assert(is_token_at(s, a, b));
            } else {
                lemma_collected_are_tokens(s, b + 2);
            }
        }
    }
}

/// Something is collected from a text exactly where it holds a token.
pub proof fn law_tokens_are_collected(s: Seq<char>)
    ensures
        collected(s, 0, seq![]).len() > 0 <==> holds_token(s),
{
    if holds_token(s) {
        let (a, b) = choose|a: int, b: int| #[trigger] is_token_at(s, a, b);
        lemma_token_is_met(s, 0, seq![], a, b);
    }
    if collected(s, 0, seq![]).len() > 0 {
        lemma_collected_are_tokens(s, 0);
    }
}

proof fn lemma_header_tokens_empty(headers: Seq<(Seq<char>, Seq<char>)>)
    requires
        forall|i: int|
            0 <= i < headers.len() ==> !holds_token((#[trigger] headers[i]).0) && !holds_token(headers[i].1),
    ensures
        header_tokens(headers, seq![]).len() == 0,
    decreases headers.len(),
{
    if headers.len() > 0 {
        let front = headers.drop_last();
        assert(!holds_token(headers[headers.len() - 1].0));
        assert forall|i: int| 0 <= i < front.len() implies !holds_token((#[trigger] front[i]).0) && !holds_token(
            front[i].1,
        ) by {
            assert(front[i] == headers[i]);
        }
        lemma_header_tokens_empty(front);
        assert(header_tokens(front, seq![]) =~= seq![]);
        law_tokens_are_collected(headers.last().0);
        assert(collected(headers.last().0, 0, seq![]) =~= seq![]);
        law_tokens_are_collected(headers.last().1);
    }
}

/// A request is sent exactly where none of its parts holds a token: not its method,
/// its URL, the name or the value of a header, or its body.
pub proof fn law_sent_without_tokens(o: OutboundView)
    ensures
        missing(o).len() == 0 <==> {
            &&& !holds_token(o.method)
            &&& !holds_token(o.url)
            &&& forall|i: int|
                0 <= i < o.headers.len() ==> !holds_token((#[trigger] o.headers[i]).0) && !holds_token(o.headers[i].1)
            &&& (o.body matches Some(b) ==> !holds_token(b))
        },
{
    law_tokens_are_collected(o.method);
    law_tokens_are_collected(o.url);
    if missing(o).len() == 0 {
        crate::exchange::law_nothing_unresolved_is_sent(o);
        assert forall|i: int| 0 <= i < o.headers.len() implies !holds_token((#[trigger] o.headers[i]).0)
            && !holds_token(o.headers[i].1) by {
            law_tokens_are_collected(o.headers[i].0);
            law_tokens_are_collected(o.headers[i].1);
        }
        if let Some(b) = o.body {
            law_tokens_are_collected(b);
        }
    }
    if !holds_token(o.method) && !holds_token(o.url) && (forall|i: int|
        0 <= i < o.headers.len() ==> !holds_token((#[trigger] o.headers[i]).0) && !holds_token(o.headers[i].1)) && (
    o.body matches Some(b) ==> !holds_token(b)) {
        assert(collected(o.method, 0, seq![]) =~= seq![]);
        assert(collected(o.url, 0, seq![]) =~= seq![]);
        lemma_header_tokens_empty(o.headers);
        assert(header_tokens(o.headers, seq![]) =~= seq![]);
        if let Some(b) = o.body {
            law_tokens_are_collected(b);
        }
    }
}

}

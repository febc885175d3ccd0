//! Files that a body takes in, `.env` files, and the limit of a request.

use vstd::prelude::*;

verus! {

use crate::digits::decimal;
use crate::dotenv::{
    dotenv_entry, dotenv_folders, folders_up, listed_folder, merged_files, merged_lines, same_folder, unquoted,
};
use crate::includes::{boundary, content_at, directive, expanded, expanded_line, located, verdict, Verdict};
use crate::laws::digits::{law_numbers_read_back, law_other_texts_are_no_numbers};
use crate::laws::text::{
    all_white, are_lines, is_line, law_joined, law_joined_lines_read_back, law_lines, law_prefix, law_split_once,
    law_trim, law_whitespace, lemma_all_white_start, lemma_indented, solid,
};
use crate::paths::{path_is_absolute, path_join, path_parent, path_same, path_starts_with};
use crate::text::{is_white, joined, lines, starts_with, trim};
use crate::timeout::{asked_seconds, effective_timeout};
use crate::vars::{resolved, Env};

proof fn lemma_less_than()
    ensures
        "<"@ == seq!['<'],
        "<@"@ == seq!['<', '@'],
{
    reveal_strlit("<");
    reveal_strlit("<@");
    assert("<"@ =~= seq!['<']);
    assert("<@"@ =~= seq!['<', '@']);
}

/// A line that begins with `<` takes in the file that it names, one that begins with
/// `<@` takes it in with its variables resolved, and no other line takes in a file.
pub proof fn law_directive(indent: Seq<char>, gap: Seq<char>, path: Seq<char>, tail: Seq<char>, t: Seq<char>)
    requires
        all_white(indent),
        all_white(gap),
        all_white(tail),
        solid(path),
    ensures
        gap.len() > 0 || path.len() == 0 || path[0] != '@' ==> directive(indent + (seq!['<'] + (gap + path + tail)))
            == Some((path, false)),
        directive(indent + (seq!['<', '@'] + (gap + path + tail))) == Some((path, true)),
        directive(indent) is None,
        t.len() > 0 && !is_white(t[0]) && t[0] != '<' ==> directive(indent + t) is None,
{
    lemma_less_than();
    law_whitespace('<');
    law_whitespace('@');
    law_trim(gap, path, tail);
    let rest = gap + path + tail;
    let raw = seq!['<'] + rest;
    let with_vars = seq!['<', '@'] + rest;
    assert(raw[0] == '<');
    assert(with_vars[0] == '<');
    lemma_indented(indent, raw);
    lemma_indented(indent, with_vars);
    law_prefix(with_vars, seq!['<', '@'], rest);
    law_prefix(raw, seq!['<'], rest);
    if starts_with(raw, seq!['<', '@']) {
        assert(raw.subrange(0, 2)[1] == raw[1]);
        assert(raw[1] == rest[0]);
        assert(seq!['<', '@'][1] == '@');
        if gap.len() > 0 {
            assert(rest[0] == gap[0]);
        } else if path.len() > 0 {
            assert(rest[0] == path[0]);
        } else {
            assert(rest[0] == tail[0]);
        }
    }
    lemma_all_white_start(indent);
    if t.len() > 0 && !is_white(t[0]) && t[0] != '<' {
        lemma_indented(indent, t);
        if starts_with(t, seq!['<']) {
            assert(t.subrange(0, 1)[0] == t[0]);
        }
        if starts_with(t, seq!['<', '@']) {
            assert(t.subrange(0, 2)[0] == t[0]);
        }
    }
}

proof fn lemma_newline()
    ensures
        "\n"@ == seq!['\n'],
{
    reveal_strlit("\n");
    assert("\n"@ =~= seq!['\n']);
}

proof fn lemma_expanded_line(l: Seq<char>, content: Option<Seq<char>>, e: Env)
    requires
        is_line(l),
    ensures
        l.len() > 0 ==> expanded(l, seq![content], e) == expanded_line(l, content, e),
        l.len() == 0 ==> expanded(l, seq![content], e) == l,
{
    lemma_newline();
    law_lines(l, Seq::empty());
    let ls = lines(l);
    let out = Seq::new(ls.len(), |i: int| expanded_line(ls[i], content_at(seq![content], i), e));
    law_joined(out, seq![], seq!['\n']);
    if l.len() > 0 {
        assert(ls[0] == l);
        assert(out[0] == expanded_line(l, content, e));
    } else {
        assert(out =~= seq![]);
        assert(l =~= seq![]);
    }
}

/// A body of one line that takes in a file becomes all of the file, whatever it holds:
/// as it is after `<`, with its variables resolved after `<@`. Where the file was not
/// read, or the line takes in none, the line stays.
pub proof fn law_file_is_taken_in_whole(
    indent: Seq<char>,
    gap: Seq<char>,
    path: Seq<char>,
    tail: Seq<char>,
    content: Seq<char>,
    e: Env,
)
    requires
        all_white(indent),
        all_white(gap),
        all_white(tail),
        solid(path),
        is_line(indent + (seq!['<'] + (gap + path + tail))),
        is_line(indent + (seq!['<', '@'] + (gap + path + tail))),
    ensures
        gap.len() > 0 || path.len() == 0 || path[0] != '@' ==> expanded(
            indent + (seq!['<'] + (gap + path + tail)),
            seq![Some(content)],
            e,
        ) == content,
        expanded(indent + (seq!['<', '@'] + (gap + path + tail)), seq![Some(content)], e) == resolved(content, e),
        expanded(indent + (seq!['<'] + (gap + path + tail)), seq![None], e) == indent + (seq!['<'] + (gap + path
            + tail)),
        expanded(indent + (seq!['<', '@'] + (gap + path + tail)), seq![None], e) == indent + (seq!['<', '@'] + (gap
            + path + tail)),
{
    law_directive(indent, gap, path, tail, seq![]);
    lemma_expanded_line(indent + (seq!['<'] + (gap + path + tail)), Some(content), e);
    lemma_expanded_line(indent + (seq!['<', '@'] + (gap + path + tail)), Some(content), e);
    lemma_expanded_line(indent + (seq!['<'] + (gap + path + tail)), None, e);
    lemma_expanded_line(indent + (seq!['<', '@'] + (gap + path + tail)), None, e);
}

/// A line that takes in no file stays, whatever was read.
pub proof fn law_other_lines_stay(indent: Seq<char>, t: Seq<char>, content: Option<Seq<char>>, e: Env)
    requires
        all_white(indent),
        t.len() > 0 ==> !is_white(t[0]) && t[0] != '<',
        is_line(indent + t),
    ensures
        expanded(indent + t, seq![content], e) == indent + t,
{
    let none = Seq::<char>::empty();
    law_directive(indent, none, none, none, t);
    lemma_expanded_line(indent + t, content, e);
    if t.len() == 0 {
        assert(indent + t =~= indent);
    }
}

/// The lines of a body are taken one by one, each with its own file, and stay apart.
pub proof fn law_lines_are_expanded_one_by_one(ls: Seq<Seq<char>>, contents: Seq<Option<Seq<char>>>, e: Env)
    requires
        are_lines(ls),
        ls.len() > 0,
        ls.last().len() > 0,
        contents.len() == ls.len(),
    ensures
        expanded(joined(ls, seq!['\n']), contents, e) == joined(
            Seq::new(ls.len(), |i: int| expanded(ls[i], seq![contents[i]], e)),
            seq!['\n'],
        ),
{
    lemma_newline();
    law_joined_lines_read_back(ls);
    let a = Seq::new(ls.len(), |i: int| expanded_line(ls[i], content_at(contents, i), e));
    let b = Seq::new(ls.len(), |i: int| expanded(ls[i], seq![contents[i]], e));
    assert forall|i: int| 0 <= i < ls.len() implies a[i] == b[i] by {
        assert(is_line(ls[i]));
        lemma_expanded_line(ls[i], contents[i], e);
        if ls[i].len() == 0 {
            let none = Seq::<char>::empty();
            assert(ls[i] =~= none);
            law_directive(none, none, none, none, none);
        }
    }
    assert(a =~= b);
}

/// An absolute path stands for itself and any other one for a file below the folder of
/// the document; what is read lies below the workspace root or, without one, below
/// that folder.
pub proof fn law_where_files_are_read(
    base: Option<Seq<char>>,
    root: Option<Seq<char>>,
    path: Seq<char>,
    full: Seq<char>,
)
    ensures
        path_is_absolute(path) ==> located(base, path) == Some(path),
        !path_is_absolute(path) && base is Some ==> located(base, path) == Some(path_join(base->0, path)),
        !path_is_absolute(path) && base is None ==> located(base, path) is None,
        root is Some ==> boundary(base, root) == root,
        root is None ==> boundary(base, root) == base,
        verdict(full, boundary(base, root)) == Verdict::Allowed ==> (root is Some && path_starts_with(full, root->0))
            || (root is None && base is Some && path_starts_with(full, base->0)),
        root is Some && path_starts_with(full, root->0) ==> verdict(full, boundary(base, root)) == Verdict::Allowed,
{
}

/// A line `KEY=VALUE` gives the key the whole value, whatever else the value holds;
/// comments, blank lines and lines without `=` give nothing.
pub proof fn law_dotenv_line(
    indent: Seq<char>,
    key: Seq<char>,
    before: Seq<char>,
    after: Seq<char>,
    value: Seq<char>,
    tail: Seq<char>,
    t: Seq<char>,
)
    requires
        all_white(indent),
        all_white(before),
        all_white(after),
        all_white(tail),
        key.len() > 0 || before.len() == 0,
        solid(key),
        !key.contains('='),
        key.len() > 0 ==> key[0] != '#',
        solid(value),
    ensures
        dotenv_entry(indent + (key + before + seq!['='] + (after + value + tail))) == Some((key, unquoted(value))),
        dotenv_entry(indent) is None,
        t.len() > 0 && t[0] == '#' ==> dotenv_entry(indent + t) is None,
        t.len() > 0 && !is_white(t[0]) && !t.contains('=') ==> dotenv_entry(indent + t) is None,
{
    reveal_strlit("#");
    assert("#"@ =~= seq!['#']);
    law_whitespace('=');
    law_whitespace('#');
    let none = Seq::<char>::empty();
    let k = key + before;
    let line = indent + (key + before + seq!['='] + (after + value + tail));
    assert forall|i: int| 0 <= i < k.len() implies k[i] != '=' by {
        if i < key.len() {
            assert(k[i] == key[i]);
            assert(key.contains(key[i]));
        } else {
            assert(k[i] == before[i - key.len()]);
        }
    }
    let v = if value.len() > 0 {
        after + value
    } else {
        none
    };
    let x = k + seq!['='] + v;
    let end = if value.len() > 0 {
        tail
    } else {
        after + tail
    };
    assert(all_white(end)) by {
        assert forall|i: int| 0 <= i < end.len() implies is_white(#[trigger] end[i]) by {
            if value.len() > 0 {
                assert(end[i] == tail[i]);
            } else if i < after.len() {
                assert(end[i] == after[i]);
            } else {
                assert(end[i] == tail[i - after.len()]);
            }
        }
    }
    assert(line =~= indent + x + end) by {
        if value.len() == 0 {
            assert(value =~= none);
        }
    }
    assert(x[0] == if key.len() > 0 {
        key[0]
    } else {
        '='
    });
    assert(x.last() == if value.len() > 0 {
        value.last()
    } else {
        '='
    });
    law_trim(indent, x, end);
    if starts_with(x, "#"@) {
        assert(x.subrange(0, 1)[0] == x[0]);
    }
    law_split_once(k, '=', v);
    law_trim(none, key, before);
    assert(none + key + before =~= k);
    if value.len() > 0 {
        law_trim(after, value, none);
        assert(after + value + none =~= v);
    } else {
        law_trim(none, none, none);
        assert(none + none + none =~= none);
        assert(value =~= none);
    }
    law_trim(indent, none, none);
    assert(indent + none + none =~= indent);
    if t.len() > 0 && !is_white(t[0]) {
        lemma_indented(indent, t);
        let u = trim(indent + t);
        assert(u[0] == t[0]);
        if t[0] == '#' {
            assert(u.subrange(0, 1) =~= seq!['#']);
        }
        if !t.contains('=') {
            assert forall|i: int| 0 <= i < u.len() implies u[i] != '=' by {
                assert(u[i] == t[i]);
                assert(t.contains(t[i]));
            }
            law_split_once(u, '=', none);
        }
    }
}

/// One pair of quotes around a value goes, and nothing else.
pub proof fn law_quotes(x: Seq<char>, v: Seq<char>)
    ensures
        unquoted(seq!['"'] + x + seq!['"']) == x,
        unquoted(seq!['\''] + x + seq!['\'']) == x,
        v.len() < 2 ==> unquoted(v) == v,
        v.len() > 0 && v[0] != '"' && v[0] != '\'' ==> unquoted(v) == v,
        v.len() > 0 && v[0] != v.last() ==> unquoted(v) == v,
{
    assert((seq!['"'] + x + seq!['"']).subrange(1, x.len() as int + 1) =~= x);
    assert((seq!['\''] + x + seq!['\'']).subrange(1, x.len() as int + 1) =~= x);
}

proof fn lemma_merge_step(ls: Seq<Seq<char>>, l: Seq<char>, m: Map<Seq<char>, Seq<char>>)
    ensures
        merged_lines(ls.push(l), m) == (match dotenv_entry(l) {
            Some((k, v)) => if merged_lines(ls, m).contains_key(k) {
                merged_lines(ls, m)
            } else {
                merged_lines(ls, m).insert(k, v)
            },
            None => merged_lines(ls, m),
        }),
{
    assert(ls.push(l).drop_last() =~= ls);
}

/// A key has the value that it had before; else that of the first line that gives it
/// one; else none.
pub proof fn law_first_entry_counts(ls: Seq<Seq<char>>, m: Map<Seq<char>, Seq<char>>, k: Seq<char>)
    ensures
        m.contains_key(k) ==> merged_lines(ls, m).contains_key(k) && merged_lines(ls, m)[k] == m[k],
        forall|i: int|
            !m.contains_key(k) && 0 <= i < ls.len() && (dotenv_entry(#[trigger] ls[i]) matches Some((key, _)) && key == k)
                && (forall|j: int|
                0 <= j < i ==> (dotenv_entry(#[trigger] ls[j]) matches Some((key, _)) ==> key != k))
                ==> merged_lines(ls, m).contains_key(k) && dotenv_entry(ls[i]) == Some((k, merged_lines(ls, m)[k])),
        !m.contains_key(k) && (forall|j: int|
            0 <= j < ls.len() ==> (dotenv_entry(#[trigger] ls[j]) matches Some((key, _)) ==> key != k))
            ==> !merged_lines(ls, m).contains_key(k),
    decreases ls.len(),
{
    if ls.len() > 0 {
        let front = ls.drop_last();
        law_first_entry_counts(front, m, k);
        assert(front.push(ls.last()) =~= ls);
        lemma_merge_step(front, ls.last(), m);
        assert forall|i: int|
            !m.contains_key(k) && 0 <= i < ls.len() && (dotenv_entry(#[trigger] ls[i]) matches Some((key, _)) && key == k)
                && (forall|j: int|
                0 <= j < i ==> (dotenv_entry(#[trigger] ls[j]) matches Some((key, _)) ==> key != k)) implies merged_lines(
            ls,
            m,
        ).contains_key(k) && dotenv_entry(ls[i]) == Some((k, merged_lines(ls, m)[k])) by {
            if i < front.len() {
                assert(front[i] == ls[i]);
                assert forall|j: int| 0 <= j < i implies (dotenv_entry(#[trigger] front[j]) matches Some((key, _)) ==> key
                    != k) by {
                    assert(front[j] == ls[j]);
                }
            } else {
                assert forall|j: int| 0 <= j < front.len() implies (dotenv_entry(#[trigger] front[j]) matches Some(
                    (key, _),
                ) ==> key != k) by {
                    assert(front[j] == ls[j]);
                }
            }
        }
        if !m.contains_key(k) && (forall|j: int|
            0 <= j < ls.len() ==> (dotenv_entry(#[trigger] ls[j]) matches Some((key, _)) ==> key != k)) {
            assert forall|j: int| 0 <= j < front.len() implies (dotenv_entry(#[trigger] front[j]) matches Some((key, _))
                ==> key != k) by {
                assert(front[j] == ls[j]);
            }
            assert(ls[ls.len() - 1] == ls.last());
        }
    }
}

/// Every file that was read counts, after those that are closer; one that was not read
/// changes nothing.
pub proof fn law_every_file_counts(files: Seq<Option<Seq<char>>>, content: Seq<char>)
    ensures
        merged_files(seq![]) == Map::<Seq<char>, Seq<char>>::empty(),
        merged_files(files.push(Some(content))) == merged_lines(lines(content), merged_files(files)),
        merged_files(files.push(None)) == merged_files(files),
{
    assert(files.push(Some(content)).drop_last() =~= files);
    assert(files.push(None).drop_last() =~= files);
}

/// The folders go up one by one, from the document's own to the workspace root or,
/// where the root is not above it, to the top.
pub proof fn law_folders_go_up(dir: Seq<char>, root: Option<Seq<char>>)
    ensures
        folders_up(dir, root).len() > 0,
        folders_up(dir, root)[0] == dir,
        forall|i: int|
            0 <= i < folders_up(dir, root).len() - 1 ==> path_parent(#[trigger] folders_up(dir, root)[i]) == Some(
                folders_up(dir, root)[i + 1],
            ) && (root matches Some(r) ==> !same_folder(folders_up(dir, root)[i], r)),
        ({
            let last = folders_up(dir, root).last();
            ||| root matches Some(r) && same_folder(last, r)
            ||| path_parent(last) is None
            ||| path_parent(last) matches Some(p) && p.len() >= last.len()
        }),
    decreases dir.len(),
{
    if !(root is Some && same_folder(dir, root->0)) {
        if let Some(p) = path_parent(dir) {
            if p.len() < dir.len() {
                law_folders_go_up(p, root);
                let all = folders_up(dir, root);
                let more = folders_up(p, root);
                assert(all =~= seq![dir] + more);
                assert forall|i: int| 0 <= i < all.len() - 1 implies path_parent(#[trigger] all[i]) == Some(all[i + 1])
                    && (root matches Some(r) ==> !same_folder(all[i], r)) by {
                    if i > 0 {
                        assert(all[i] == more[i - 1]);
                        assert(all[i + 1] == more[i]);
                    } else {
                        assert(all[1] == more[0]);
                    }
                }
                assert(all.last() == more.last());
            }
        }
    }
}

/// The folders whose `.env` counts are those that go up from the document, and the
/// workspace root after them, unless one of them is that folder, whatever its spelling.
pub proof fn law_dotenv_folders(dir: Seq<char>, root: Seq<char>)
    ensures
        dotenv_folders(Some(dir), None) == folders_up(dir, None),
        dotenv_folders(None, Some(root)) == seq![root],
        dotenv_folders(None, None).len() == 0,
        (exists|i: int|
            0 <= i < folders_up(dir, Some(root)).len() && (#[trigger] folders_up(dir, Some(root))[i] == root
                || path_same(folders_up(dir, Some(root))[i], root))) ==> dotenv_folders(Some(dir), Some(root))
            == folders_up(dir, Some(root)),
        (forall|i: int|
            0 <= i < folders_up(dir, Some(root)).len() ==> #[trigger] folders_up(dir, Some(root))[i] != root
                && !path_same(folders_up(dir, Some(root))[i], root)) ==> dotenv_folders(Some(dir), Some(root))
            == folders_up(dir, Some(root)).push(root),
{
    let own = folders_up(dir, Some(root));
    assert(!listed_folder(Seq::empty(), root));
    if exists|i: int| 0 <= i < own.len() && (#[trigger] own[i] == root || path_same(own[i], root)) {
        let i = choose|i: int| 0 <= i < own.len() && (#[trigger] own[i] == root || path_same(own[i], root));
        assert(same_folder(own[i], root));
    }
}

/// The limit is the number of seconds that the request asks for; else the number that
/// the `.env` files ask for, whatever whitespace is around it; else thirty. Zero is no
/// limit, and what is no number does not count.
pub proof fn law_limit(raw: Option<Seq<char>>, dotenv: Map<Seq<char>, Seq<char>>, n: u64, a: Seq<char>, b: Seq<char>)
    requires
        all_white(a),
        all_white(b),
    ensures
        raw == Some(decimal(n as nat)) ==> effective_timeout(raw, dotenv) == (if n > 0 {
            Some(n)
        } else {
            None
        }, "# @timeout"@),
        asked_seconds(raw) is None && dotenv.contains_key("HTTP_REQUEST_TIMEOUT"@) && dotenv["HTTP_REQUEST_TIMEOUT"@]
            == a + decimal(n as nat) + b ==> effective_timeout(raw, dotenv).0 == (if n > 0 {
            Some(n)
        } else {
            None
        }),
        asked_seconds(raw) is None && !dotenv.contains_key("HTTP_REQUEST_TIMEOUT"@) ==> effective_timeout(raw, dotenv)
            == (Some(30u64), "default"@),
        asked_seconds(None) is None,
        raw matches Some(s) ==> forall|i: int|
            0 <= i < s.len() && !('0' <= #[trigger] s[i] <= '9') && s[i] != '+' ==> asked_seconds(raw) is None,
{
    let d = decimal(n as nat);
    law_numbers_read_back(n as nat, 10, u64::MAX as int);
    crate::laws::digits::law_decimal_is_solid(n as nat);
    law_trim(a, d, b);
    if let Some(s) = raw {
        assert forall|i: int| 0 <= i < s.len() && !('0' <= #[trigger] s[i] <= '9') && s[i] != '+' implies asked_seconds(
            raw,
        ) is None by {
            law_other_texts_are_no_numbers(s, i, u64::MAX as int);
        }
    }
}

}

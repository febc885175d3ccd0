//! `.env` files: values for an environment, the closest file first.

use vstd::prelude::*;

use crate::paths::{join_path, parent, same_path};
use crate::scan::{begins_with, halves, line_list, trimmed};
use crate::table::Table;
use crate::text::{chars, string};
use vstd::slice::slice_subrange;

verus! {

use crate::paths::{path_join, path_parent, path_same};
use crate::text::{lines, opt_str, opt_text, split_once, starts_with, trim, views};
use crate::vars::lookup;

/// A value without the pair of quotes around it.
pub open spec fn unquoted(v: Seq<char>) -> Seq<char> {
    if v.len() >= 2 && ((v[0] == '"' && v.last() == '"') || (v[0] == '\'' && v.last() == '\'')) {
        v.subrange(1, v.len() - 1)
    } else {
        v
    }
}

/// The key and the value that a line gives: `KEY=VALUE`, unless it is blank or a
/// comment.
pub open spec fn dotenv_entry(line: Seq<char>) -> Option<(Seq<char>, Seq<char>)> {
    let t = trim(line);
    if t.len() == 0 || starts_with(t, "#"@) {
        None
    } else {
        match split_once(t, '=') {
            Some((k, v)) => Some((trim(k), unquoted(trim(v)))),
            None => None,
        }
    }
}

/// What some lines add to a map; keys that are there already keep their values.
pub open spec fn merged_lines(ls: Seq<Seq<char>>, m: Map<Seq<char>, Seq<char>>) -> Map<Seq<char>, Seq<char>>
    decreases ls.len(),
{
    if ls.len() == 0 {
        m
    } else {
        let before = merged_lines(ls.drop_last(), m);
        match dotenv_entry(ls.last()) {
            Some((k, v)) => if before.contains_key(k) {
                before
            } else {
                before.insert(k, v)
            },
            None => before,
        }
    }
}

/// What the files add up to, the closest one first; those that could not be read
/// add nothing.
pub open spec fn merged_files(files: Seq<Option<Seq<char>>>) -> Map<Seq<char>, Seq<char>>
    decreases files.len(),
{
    if files.len() == 0 {
        Map::empty()
    } else {
        match files.last() {
            Some(content) => merged_lines(lines(content), merged_files(files.drop_last())),
            None => merged_files(files.drop_last()),
        }
    }
}

/// Whether two texts name the same folder.
pub open spec fn same_folder(a: Seq<char>, b: Seq<char>) -> bool {
    a == b || path_same(a, b)
}

/// A folder and those above it, up to the workspace root.
pub open spec fn folders_up(dir: Seq<char>, root: Option<Seq<char>>) -> Seq<Seq<char>>
    decreases dir.len(),
{
    if root is Some && same_folder(dir, root->0) {
        seq![dir]
    } else {
        match path_parent(dir) {
            Some(p) => if p.len() < dir.len() {
                seq![dir] + folders_up(p, root)
            } else {
                seq![dir]
            },
            None => seq![dir],
        }
    }
}

/// The folders from a document's own one up, without the root where it is not
/// among them.
pub open spec fn own_folders(file_dir: Option<Seq<char>>, root: Option<Seq<char>>) -> Seq<Seq<char>> {
    match file_dir {
        Some(d) => folders_up(d, root),
        None => seq![],
    }
}

/// Whether a folder is one of some folders.
pub open spec fn listed_folder(dirs: Seq<Seq<char>>, dir: Seq<char>) -> bool {
    exists|i: int| 0 <= i < dirs.len() && same_folder(#[trigger] dirs[i], dir)
}

/// The folders whose `.env` counts, the closest one first. The workspace root is
/// always among them.
pub open spec fn dotenv_folders(file_dir: Option<Seq<char>>, root: Option<Seq<char>>) -> Seq<Seq<char>> {
    let own = own_folders(file_dir, root);
    match root {
        Some(r) => if listed_folder(own, r) {
            own
        } else {
            own.push(r)
        },
        None => own,
    }
}

/// Merges the text of one `.env` file into a map without replacing what is there
/// already.
pub fn merge_dotenv(content: &str, m: &mut Table<String>)
    ensures
        final(m)@ == merged_lines(lines(content@), old(m)@),
{
    let source = chars(content);
    let ls = line_list(source.as_slice());
    let ghost all = views(ls@);
    let ghost start = m@;
    let mut i: usize = 0;
    assert(all.take(0) =~= seq![]);
    while i < ls.len()
        invariant
            i <= ls@.len(),
            all == views(ls@),
            m@ == merged_lines(all.take(i as int), start),
        decreases ls@.len() - i,
    {
        assert(all.take(i + 1).drop_last() =~= all.take(i as int));
        assert(all.take(i + 1).last() == ls@[i as int]@);
        let t = trimmed(ls[i]);
        i = i + 1;
        if t.len() == 0 || begins_with(t, "#") {
            continue ;
        }
        if let Some((k, v)) = halves(t, '=') {
            let key = string(trimmed(k));
            let val = trimmed(v);
            let n: usize = val.len();
            let value = if n >= 2 && ((val[0] == '"' && val[n - 1] == '"') || (val[0] == '\'' && val[n - 1] == '\'')) {
                string(slice_subrange(val, 1, n - 1))
            } else {
                string(val)
            };
            assert(value@ == unquoted(trim(v@)));
            if !m.has(key.as_str()) {
                let _ = m.insert(key, value);
            }
        }
    }
    assert(all.take(i as int) =~= all);
}

/// The texts that some files hold.
pub open spec fn file_texts(files: Seq<Option<String>>) -> Seq<Option<Seq<char>>> {
    Seq::new(files.len(), |i: int| opt_text(files[i]))
}

/// The values of an environment from the texts of its `.env` files, given in the
/// order of [`dotenv_files`]; a file that could not be read is `None`.
pub fn load_dotenv(files: &Vec<Option<String>>) -> (r: Table<String>)
    ensures
        r@ == merged_files(file_texts(files@)),
{
    let ghost all = file_texts(files@);
    let mut m: Table<String> = Table::new();
    let mut i: usize = 0;
    assert(all.take(0) =~= seq![]);
    while i < files.len()
        invariant
            i <= files@.len(),
            all == file_texts(files@),
            m@ == merged_files(all.take(i as int)),
        decreases files@.len() - i,
    {
        assert(all.take(i + 1).drop_last() =~= all.take(i as int));
        assert(all.take(i + 1).last() == opt_text(files@[i as int]));
        if let Some(content) = &files[i] {
            merge_dotenv(content.as_str(), &mut m);
        }
        i = i + 1;
    }
    assert(all.take(i as int) =~= all);
    m
}

fn holds_folder(dirs: &Vec<String>, dir: &str) -> (r: bool)
    ensures
        r == listed_folder(views(dirs@), dir@),
{
    let mut i: usize = 0;
    while i < dirs.len()
        invariant
            i <= dirs@.len(),
            forall|j: int| 0 <= j < i ==> !same_folder(#[trigger] views(dirs@)[j], dir@),
        decreases dirs@.len() - i,
    {
        if same_path(dirs[i].as_str(), dir) {
            assert(same_folder(views(dirs@)[i as int], dir@));
            return true;
        }
        i = i + 1;
    }
    false
}

/// The `.env` files of a document, the closest one first: from its own folder up
/// to the workspace root, which is always consulted.
pub fn dotenv_files(file_dir: Option<&str>, root: Option<&str>) -> (r: Vec<String>)
    ensures
        views(r@) == Seq::new(
            dotenv_folders(opt_str(file_dir), opt_str(root)).len(),
            |i: int| path_join(dotenv_folders(opt_str(file_dir), opt_str(root))[i], ".env"@),
        ),
{
    let ghost own = own_folders(opt_str(file_dir), opt_str(root));
    let mut dirs: Vec<String> = Vec::new();
    assert(views(dirs@) =~= seq![]);
    if let Some(d) = file_dir {
        let mut cur: String = d.to_owned();
        assert(views(dirs@) + folders_up(cur@, opt_str(root)) =~= own);
        loop
            invariant_except_break
                views(dirs@) + folders_up(cur@, opt_str(root)) == own,
            ensures
                views(dirs@) == own,
            decreases cur@.len(),
        {
            let ghost before = dirs@;
            let up = parent(cur.as_str());
            let at_root: bool = match root {
                Some(r) => same_path(cur.as_str(), r),
                None => false,
            };
            let ghost here = cur@;
            dirs.push(cur);
            assert(views(dirs@) =~= views(before).push(here));
            if at_root {
                assert(views(dirs@) =~= own);
                break ;
            }
            match up {
                Some(p) => {
                    cur = p;
                    assert(views(before) + (seq![here] + folders_up(cur@, opt_str(root))) =~= views(dirs@) + folders_up(
                        cur@,
                        opt_str(root),
                    ));
                },
                None => {
                    assert(views(dirs@) =~= own);
                    break ;
                },
            }
        }
    }
    if let Some(r) = root {
        if !holds_folder(&dirs, r) {
            let ghost before = dirs@;
            dirs.push(r.to_owned());
            assert(views(dirs@) =~= views(before).push(r@));
        }
    }
    let mut files: Vec<String> = Vec::new();
    let mut i: usize = 0;
    while i < dirs.len()
        invariant
            i <= dirs@.len(),
            files@.len() == i,
            forall|j: int| 0 <= j < i ==> (#[trigger] files@[j])@ == path_join(views(dirs@)[j], ".env"@),
        decreases dirs@.len() - i,
    {
        files.push(join_path(dirs[i].as_str(), ".env"));
        i = i + 1;
    }
    assert(views(files@) =~= Seq::new(views(dirs@).len(), |i: int| path_join(views(dirs@)[i], ".env"@)));
    files
}

proof fn lemma_merge_keeps(ls: Seq<Seq<char>>, m: Map<Seq<char>, Seq<char>>, k: Seq<char>)
    requires
        m.contains_key(k),
    ensures
        merged_lines(ls, m).contains_key(k),
        merged_lines(ls, m)[k] == m[k],
    decreases ls.len(),
{
    if ls.len() > 0 {
        lemma_merge_keeps(ls.drop_last(), m, k);
    }
}

/// The closest file wins: what the first files give a key, the files after them
/// do not change.
pub proof fn law_closest_dotenv_wins(files: Seq<Option<Seq<char>>>, n: int, k: Seq<char>)
    requires
        0 <= n <= files.len(),
        merged_files(files.take(n)).contains_key(k),
    ensures
        lookup(merged_files(files), k) == lookup(merged_files(files.take(n)), k),
    decreases files.len(),
{
    if n == files.len() {
        assert(files.take(n) =~= files);
    } else {
        let front = files.drop_last();
        assert(front.take(n) =~= files.take(n));
        law_closest_dotenv_wins(front, n, k);
        if let Some(content) = files.last() {
            lemma_merge_keeps(lines(content), merged_files(front), k);
        }
    }
}

proof fn lemma_first_folder(dir: Seq<char>, root: Option<Seq<char>>)
    ensures
        folders_up(dir, root).len() > 0,
        folders_up(dir, root)[0] == dir,
{
}

/// A document's own folder comes first, and the workspace root is always
/// consulted.
pub proof fn law_own_folder_first_and_root_always(file_dir: Option<Seq<char>>, root: Option<Seq<char>>)
    ensures
        file_dir matches Some(d) ==> dotenv_folders(file_dir, root).len() > 0 && dotenv_folders(file_dir, root)[0] == d,
        root matches Some(r) ==> listed_folder(dotenv_folders(file_dir, root), r),
{
    if let Some(d) = file_dir {
        lemma_first_folder(d, root);
    }
    if let Some(r) = root {
        let all = dotenv_folders(file_dir, root);
        if !listed_folder(own_folders(file_dir, root), r) {
            assert(same_folder(all[all.len() - 1], r));
        }
    }
}

}

//! Files that a request body takes in: `< path` as they are, `<@ path` with
//! their variables resolved.

use vstd::prelude::*;

use crate::paths::{is_absolute, is_under, join_path};
use crate::scan::{after_prefix, join, line_list, trimmed, trimmed_start};
use crate::table::Table;
use crate::text::{chars, string};
use crate::vars::{resolve_vars, StoredResponse};

verus! {

use crate::paths::{path_is_absolute, path_join, path_starts_with};
use crate::text::{joined, lines, opt_str, opt_text, strip_prefix, trim, trim_start, views};
use crate::vars::{env, resolved, Env};

/// The path of the file that a line takes in, and whether the variables in it
/// are resolved.
pub open spec fn directive(line: Seq<char>) -> Option<(Seq<char>, bool)> {
    let t = trim_start(line);
    if let Some(rest) = strip_prefix(t, "<@"@) {
        Some((trim(rest), true))
    } else if let Some(rest) = strip_prefix(t, "<"@) {
        Some((trim(rest), false))
    } else {
        None
    }
}

/// Where a file stands: an absolute path as it is, any other one below the folder
/// of the document.
pub open spec fn located(base_dir: Option<Seq<char>>, path: Seq<char>) -> Option<Seq<char>> {
    if path_is_absolute(path) {
        Some(path)
    } else {
        match base_dir {
            Some(b) => Some(path_join(b, path)),
            None => None,
        }
    }
}

/// The folder that confines the files: the workspace root, or the folder of the
/// document where there is no workspace.
pub open spec fn boundary(base_dir: Option<Seq<char>>, root: Option<Seq<char>>) -> Option<Seq<char>> {
    match root {
        Some(r) => Some(r),
        None => base_dir,
    }
}

/// Whether a file may be read.
#[derive(Clone, Copy, PartialEq, Eq, Structural)]
pub enum Verdict {
    Allowed,
    /// It lies outside the boundary.
    Outside,
    /// There is no boundary to hold it to.
    NoBoundary,
}

/// Whether a file may be read, by its canonical path and that of the boundary.
pub open spec fn verdict(full: Seq<char>, limit: Option<Seq<char>>) -> Verdict {
    match limit {
        Some(b) => if path_starts_with(full, b) {
            Verdict::Allowed
        } else {
            Verdict::Outside
        },
        None => Verdict::NoBoundary,
    }
}

/// What the file of line `i` holds, where it was read.
pub open spec fn content_at(contents: Seq<Option<Seq<char>>>, i: int) -> Option<Seq<char>> {
    if 0 <= i < contents.len() {
        contents[i]
    } else {
        None
    }
}

/// What a line of a body becomes, given what its file holds. A line without a
/// file, or whose file was not read, stays.
pub open spec fn expanded_line(line: Seq<char>, content: Option<Seq<char>>, e: Env) -> Seq<char> {
    match (directive(line), content) {
        (Some((_, resolving)), Some(c)) => if resolving {
            resolved(c, e)
        } else {
            c
        },
        _ => line,
    }
}

/// A body with the files of its lines taken in.
pub open spec fn expanded(body: Seq<char>, contents: Seq<Option<Seq<char>>>, e: Env) -> Seq<char> {
    let ls = lines(body);
    joined(Seq::new(ls.len(), |i: int| expanded_line(ls[i], content_at(contents, i), e)), "\n"@)
}

fn directive_of(line: &[char]) -> (r: Option<(String, bool)>)
    ensures
        match r {
            Some((p, resolving)) => directive(line@) == Some((p@, resolving)),
            None => directive(line@) is None,
        },
{
    let t = trimmed_start(line);
    if let Some(rest) = after_prefix(t, "<@") {
        Some((string(trimmed(rest)), true))
    } else if let Some(rest) = after_prefix(t, "<") {
        Some((string(trimmed(rest)), false))
    } else {
        None
    }
}

/// The path of the file that each line of a body takes in.
pub fn included_paths(body: &str) -> (r: Vec<Option<String>>)
    ensures
        r@.len() == lines(body@).len(),
        forall|i: int|
            0 <= i < r@.len() ==> opt_text(#[trigger] r@[i]) == (match directive(lines(body@)[i]) {
                Some((p, _)) => Some(p),
                None => None,
            }),
{
    let source = chars(body);
    let ls = line_list(source.as_slice());
    let mut r: Vec<Option<String>> = Vec::new();
    let mut i: usize = 0;
    while i < ls.len()
        invariant
            i <= ls@.len(),
            r@.len() == i,
            views(ls@) == lines(body@),
            forall|j: int|
                0 <= j < i ==> opt_text(#[trigger] r@[j]) == (match directive(lines(body@)[j]) {
                    Some((p, _)) => Some(p),
                    None => None,
                }),
        decreases ls@.len() - i,
    {
        assert(views(ls@)[i as int] == ls@[i as int]@);
        let p: Option<String> = match directive_of(ls[i]) {
            Some((path, _)) => Some(path),
            None => None,
        };
        r.push(p);
        i = i + 1;
    }
    r
}

/// Where a file stands, before `..` and links are resolved.
pub fn include_path(base_dir: Option<&str>, path: &str) -> (r: Option<String>)
    ensures
        opt_text(r) == located(opt_str(base_dir), path@),
{
    if is_absolute(path) {
        return Some(path.to_owned());
    }
    match base_dir {
        Some(b) => Some(join_path(b, path)),
        None => None,
    }
}

/// The folder that confines the files of a document.
pub fn include_boundary<'a>(base_dir: Option<&'a str>, root: Option<&'a str>) -> (r: Option<&'a str>)
    ensures
        opt_str(r) == boundary(opt_str(base_dir), opt_str(root)),
{
    match root {
        Some(r) => Some(r),
        None => base_dir,
    }
}

/// Whether a file may be read. Both paths are canonical: without `..` and links.
pub fn include_verdict(full: &str, limit: Option<&str>) -> (r: Verdict)
    ensures
        r == verdict(full@, opt_str(limit)),
{
    match limit {
        Some(b) => if is_under(full, b) {
            Verdict::Allowed
        } else {
            Verdict::Outside
        },
        None => Verdict::NoBoundary,
    }
}

/// The texts that the files of the lines hold.
pub open spec fn read_texts(contents: Seq<Option<String>>) -> Seq<Option<Seq<char>>> {
    Seq::new(contents.len(), |i: int| opt_text(contents[i]))
}

/// A body with the files of its lines taken in. `contents` holds what was read
/// for each line of [`included_paths`], or nothing.
pub fn expand_file_includes(
    body: &str,
    contents: &Vec<Option<String>>,
    file_vars: &Table<String>,
    dotenv: &Table<String>,
    responses: &Table<StoredResponse>,
) -> (r: String)
    ensures
        r@ == expanded(body@, read_texts(contents@), env(*file_vars, *dotenv, *responses)),
{
    let ghost e = env(*file_vars, *dotenv, *responses);
    let ghost read = read_texts(contents@);
    let source = chars(body);
    let ls = line_list(source.as_slice());
    let mut out: Vec<String> = Vec::new();
    let mut i: usize = 0;
    while i < ls.len()
        invariant
            i <= ls@.len(),
            out@.len() == i,
            views(ls@) == lines(body@),
            e == env(*file_vars, *dotenv, *responses),
            read == read_texts(contents@),
            forall|j: int|
                0 <= j < i ==> (#[trigger] out@[j])@ == expanded_line(lines(body@)[j], content_at(read, j), e),
        decreases ls@.len() - i,
    {
        assert(views(ls@)[i as int] == ls@[i as int]@);
        let content: Option<&String> = if i < contents.len() {
            contents[i].as_ref()
        } else {
            None
        };
        assert(content_at(read, i as int) == (match content {
            Some(c) => Some(c@),
            None => None,
        }));
        let line: String = match (directive_of(ls[i]), content) {
            (Some((_, resolving)), Some(c)) => if resolving {
                resolve_vars(c.as_str(), file_vars, dotenv, responses)
            } else {
                c.clone()
            },
            _ => string(ls[i]),
        };
        out.push(line);
        i = i + 1;
    }
    assert(views(out@) =~= Seq::new(
        lines(body@).len(),
        |i: int| expanded_line(lines(body@)[i], content_at(read, i), e),
    ));
    join(&out, "\n")
}

/// What is read lies inside the boundary: the workspace root where there is one.
pub proof fn law_includes_are_confined(full: Seq<char>, limit: Option<Seq<char>>)
    ensures
        verdict(full, limit) == Verdict::Allowed <==> (limit matches Some(b) && path_starts_with(full, b)),
{
}

/// A blocked or unreadable file leaves its line literally in the body.
pub proof fn law_unread_line_is_kept(body: Seq<char>, contents: Seq<Option<Seq<char>>>, e: Env, i: int)
    requires
        0 <= i < lines(body).len(),
        content_at(contents, i) is None || directive(lines(body)[i]) is None,
    ensures
        expanded_line(lines(body)[i], content_at(contents, i), e) == lines(body)[i],
{
}

/// A body whose files were not read keeps each of its lines.
pub proof fn law_nothing_read_keeps_lines(body: Seq<char>, contents: Seq<Option<Seq<char>>>, e: Env)
    requires
        forall|i: int| 0 <= i < contents.len() ==> (#[trigger] contents[i]) is None,
    ensures
        expanded(body, contents, e) == joined(lines(body), "\n"@),
{
    let ls = lines(body);
    assert(Seq::new(ls.len(), |i: int| expanded_line(ls[i], content_at(contents, i), e)) =~= ls);
}

}

//! Paths: where the artifacts of a workspace live, and which environment a
//! document belongs to.

use vstd::prelude::*;

use crate::digits::write_hex16;
use crate::hash::hash_text;
use crate::scan::after_prefix;
use crate::text::{chars, string};

verus! {

use crate::digits::{digit, hex_padded};
use crate::document::alphanumeric;
use crate::hash::text_hash;
use crate::lens::or_empty;
use crate::text::{opt_str, opt_text, strip_prefix};

/// The folder of the result files, inside the artifact directory.
pub const RESULT_DIR: &'static str = "requests";

/// The name of the result file where the workspace is not known.
pub const RESULT_FALLBACK: &'static str = "http-response.http";

/// The file that named responses are kept in.
pub const RESPONSES_FILE: &'static str = "responses.json";

/// The log is started over when it has grown past this many bytes.
pub const MAX_LOG_BYTES: u64 = 0x20_0000;

/// The final component of a path, on the platform that this is built for.
pub uninterp spec fn path_file_name(path: Seq<char>) -> Option<Seq<char>>;

/// The path without its final component, on the platform that this is built for.
pub uninterp spec fn path_parent(path: Seq<char>) -> Option<Seq<char>>;

/// A path with another adjoined, on the platform that this is built for.
pub uninterp spec fn path_join(base: Seq<char>, path: Seq<char>) -> Seq<char>;

/// Whether a path is absolute, on the platform that this is built for.
pub uninterp spec fn path_is_absolute(path: Seq<char>) -> bool;

/// Whether a path begins with the components of another, on the platform that
/// this is built for.
pub uninterp spec fn path_starts_with(path: Seq<char>, base: Seq<char>) -> bool;

/// Whether two paths have the same components, on the platform that this is
/// built for.
pub uninterp spec fn path_same(a: Seq<char>, b: Seq<char>) -> bool;

/// `==` on `Path`: whether two paths have the same components. Equal texts are
/// equal paths.
#[verifier::external_body]
pub(crate) fn same_path(a: &str, b: &str) -> (r: bool)
    ensures
        r == path_same(a@, b@),
        a@ == b@ ==> r,
{
    std::path::Path::new(a) == std::path::Path::new(b)
}

/// `Path::file_name`: the final component of a path, where it has one. The
/// path is given as text, so its component is text too.
#[verifier::external_body]
fn file_name(path: &str) -> (r: Option<String>)
    ensures
        opt_text(r) == path_file_name(path@),
{
    match std::path::Path::new(path).file_name() {
        Some(n) => Some(n.to_string_lossy().into_owned()),
        None => None,
    }
}

/// `Path::parent`: the path without its final component, where it has one.
/// What is left is shorter than the path.
#[verifier::external_body]
pub(crate) fn parent(path: &str) -> (r: Option<String>)
    ensures
        opt_text(r) == path_parent(path@),
        r matches Some(p) ==> p@.len() < path@.len(),
{
    match std::path::Path::new(path).parent() {
        Some(p) => Some(p.to_string_lossy().into_owned()),
        None => None,
    }
}

/// `Path::join`: the second path adjoined to the first.
#[verifier::external_body]
pub(crate) fn join_path(base: &str, path: &str) -> (r: String)
    ensures
        r@ == path_join(base@, path@),
{
    std::path::Path::new(base).join(path).to_string_lossy().into_owned()
}

/// `Path::is_absolute`.
#[verifier::external_body]
pub(crate) fn is_absolute(path: &str) -> (r: bool)
    ensures
        r == path_is_absolute(path@),
{
    std::path::Path::new(path).is_absolute()
}

/// `Path::starts_with`: whether the components of `base` are the first ones of
/// `path`.
#[verifier::external_body]
pub(crate) fn is_under(path: &str, base: &str) -> (r: bool)
    ensures
        r == path_starts_with(path@, base@),
{
    std::path::Path::new(path).starts_with(base)
}

/// A character of a workspace name as it goes into a directory name.
pub open spec fn directory_char(c: char) -> char {
    if alphanumeric(c) || c == '-' || c == '_' {
        c
    } else {
        '_'
    }
}

/// A workspace name as it goes into a directory name.
pub open spec fn directory_name(name: Seq<char>) -> Seq<char> {
    if name.len() == 0 {
        "workspace"@
    } else {
        Seq::new(name.len(), |i: int| directory_char(name[i]))
    }
}

/// The directory name of the workspace with a root and a name: the readable name and
/// the hash of the full path, so that two folders of one name stay apart.
pub open spec fn key_with(root: Seq<char>, name: Option<Seq<char>>) -> Seq<char> {
    directory_name(or_empty(name)) + "-"@ + hex_padded(text_hash(root) as nat, 16)
}

/// The name of a workspace, where its root has one.
pub open spec fn root_name(root: Option<Seq<char>>) -> Option<Seq<char>> {
    match root {
        Some(r) => path_file_name(r),
        None => None,
    }
}

/// The directory name of a workspace.
pub open spec fn workspace_name(root: Option<Seq<char>>) -> Seq<char> {
    match root {
        Some(r) => key_with(r, path_file_name(r)),
        None => "no-workspace"@,
    }
}

fn name_of(root: Option<&str>) -> (r: Option<String>)
    ensures
        opt_text(r) == root_name(opt_str(root)),
{
    match root {
        Some(r) => file_name(r),
        None => None,
    }
}

/// The directory name of the workspace with a root and a name. It has no separator
/// in it.
pub fn directory_key(root: &str, name: Option<String>) -> (r: String)
    ensures
        r@ == key_with(root@, opt_text(name)),
        !r@.contains('/'),
{
    let name = match name {
        Some(n) => chars(n.as_str()),
        None => Vec::new(),
    };
    let mut safe: Vec<char> = Vec::new();
    let mut i: usize = 0;
    while i < name.len()
        invariant
            i <= name@.len(),
            safe@.len() == i,
            forall|j: int| 0 <= j < i ==> safe@[j] == directory_char(#[trigger] name@[j]),
            forall|j: int| 0 <= j < i ==> #[trigger] safe@[j] != '/',
        decreases name@.len() - i,
    {
        let c: char = name[i];
        if c.is_alphanumeric() || c == '-' || c == '_' {
            safe.push(c);
        } else {
            safe.push('_');
        }
        i = i + 1;
    }
    let mut r = if safe.len() == 0 {
        "workspace".to_owned()
    } else {
        string(safe.as_slice())
    };
    assert(r@ =~= directory_name(name@));
    proof {
        reveal_strlit("workspace");
        reveal_strlit("-");
        lemma_hex_has_no_slash(text_hash(root@) as nat, 16);
    }
    r.append("-");
    r.append(write_hex16(hash_text(root)).as_str());
    r
}

proof fn lemma_hex_has_no_slash(n: nat, width: nat)
    ensures
        forall|i: int| 0 <= i < hex_padded(n, width).len() ==> #[trigger] hex_padded(n, width)[i] != '/',
    decreases width,
{
    if width > 0 {
        let front = hex_padded(n / 16, (width - 1) as nat);
        lemma_hex_has_no_slash(n / 16, (width - 1) as nat);
        assert(digit((n % 16) as int) != '/');
        assert forall|i: int| 0 <= i < hex_padded(n, width).len() implies #[trigger] hex_padded(n, width)[i] != '/' by {
            if i < front.len() {
                assert(front[i] != '/');
            }
        }
    }
}

/// The directory name of a workspace.
pub fn workspace_key(root: Option<&str>) -> (r: String)
    ensures
        r@ == workspace_name(opt_str(root)),
        !r@.contains('/'),
{
    match root {
        Some(r) => directory_key(r, file_name(r)),
        None => {
            proof {
                reveal_strlit("no-workspace");
            }
            "no-workspace".to_owned()
        },
    }
}

/// The path of the persisted responses, inside the artifact directory.
pub fn responses_path(dir: &str) -> (r: String)
    ensures
        r@ == path_join(dir@, RESPONSES_FILE@),
{
    join_path(dir, RESPONSES_FILE)
}

/// The name of the result file of a workspace with a name.
pub open spec fn result_file(name: Option<Seq<char>>) -> Seq<char> {
    match name {
        Some(n) => n + ".http"@,
        None => RESULT_FALLBACK@,
    }
}

/// The name of the result file of a workspace with a name.
pub fn result_file_name(name: Option<String>) -> (r: String)
    ensures
        r@ == result_file(opt_text(name)),
{
    match name {
        Some(n) => {
            let mut s = n;
            s.append(".http");
            s
        },
        None => RESULT_FALLBACK.to_owned(),
    }
}

/// The path of the result file of a workspace.
pub open spec fn result_location(dir: Seq<char>, root: Option<Seq<char>>) -> Seq<char> {
    path_join(path_join(dir, RESULT_DIR@), result_file(root_name(root)))
}

/// The path of the result file: one for each workspace, inside the artifact
/// directory `dir`.
pub fn result_path(dir: &str, root: Option<&str>) -> (r: String)
    ensures
        r@ == result_location(dir@, opt_str(root)),
{
    let name = result_file_name(name_of(root));
    let folder = join_path(dir, RESULT_DIR);
    join_path(folder.as_str(), name.as_str())
}

/// The URI of the result file.
pub fn result_uri_for(dir: &str, root: Option<&str>) -> (r: String)
    ensures
        r@ == "file://"@ + result_location(dir@, opt_str(root)),
{
    let mut r = "file://".to_owned();
    r.append(result_path(dir, root).as_str());
    r
}

/// The name of the log file of a workspace with a name.
pub open spec fn log_file(name: Option<Seq<char>>) -> Seq<char> {
    match name {
        Some(n) => "http-request-client-lsp-"@ + n + ".log"@,
        None => "http-request-client-lsp.log"@,
    }
}

/// The name of the log file of a workspace with a name.
pub fn log_file_name(name: Option<String>) -> (r: String)
    ensures
        r@ == log_file(opt_text(name)),
{
    match name {
        Some(n) => {
            let mut s = "http-request-client-lsp-".to_owned();
            s.append(n.as_str());
            s.append(".log");
            s
        },
        None => "http-request-client-lsp.log".to_owned(),
    }
}

/// The path of the log file: one for each workspace, inside the artifact
/// directory `dir`.
pub fn log_path(dir: &str, root: Option<&str>) -> (r: String)
    ensures
        r@ == path_join(dir@, log_file(root_name(opt_str(root)))),
{
    let name = log_file_name(name_of(root));
    join_path(dir, name.as_str())
}

/// Whether a log of this many bytes is to be started over.
pub fn log_overgrown(bytes: u64) -> (r: bool)
    ensures
        r == (bytes > MAX_LOG_BYTES),
{
    bytes > MAX_LOG_BYTES
}

/// The path on disk that a `file://` URI names.
pub open spec fn uri_path(uri: Seq<char>) -> Option<Seq<char>> {
    strip_prefix(uri, "file://"@)
}

/// The path on disk that a `file://` URI names.
pub fn path_of_uri(uri: &str) -> (r: Option<String>)
    ensures
        opt_text(r) == uri_path(uri@),
{
    let u = chars(uri);
    match after_prefix(u.as_slice(), "file://") {
        Some(p) => Some(string(p)),
        None => None,
    }
}

/// The folder of the file that a `file://` URI names.
pub open spec fn uri_folder(uri: Seq<char>) -> Option<Seq<char>> {
    match uri_path(uri) {
        Some(p) => path_parent(p),
        None => None,
    }
}

/// The folder of the file that a `file://` URI names.
pub fn folder_of_uri(uri: &str) -> (r: Option<String>)
    ensures
        opt_text(r) == uri_folder(uri@),
{
    match path_of_uri(uri) {
        Some(p) => parent(p.as_str()),
        None => None,
    }
}

/// The folder of a document, or the workspace root where it has none.
pub open spec fn base_dir(uri: Seq<char>, root: Option<Seq<char>>) -> Option<Seq<char>> {
    match uri_folder(uri) {
        Some(d) => Some(d),
        None => root,
    }
}

/// The folder of a document: the base of the files that its bodies insert, and
/// the environment of its responses. A document without a path on disk falls
/// back to the workspace root.
pub fn doc_base_dir(uri: &str, root: Option<&str>) -> (r: Option<String>)
    ensures
        opt_text(r) == base_dir(uri@, opt_str(root)),
{
    match folder_of_uri(uri) {
        Some(d) => Some(d),
        None => match root {
            Some(x) => Some(x.to_owned()),
            None => None,
        },
    }
}

/// The environment that keeps stored responses apart: the folder, or the URI
/// where there is none.
pub fn response_scope(uri: &str, base_dir: Option<&str>) -> (r: String)
    ensures
        r@ == (match opt_str(base_dir) {
            Some(d) => d,
            None => uri@,
        }),
{
    match base_dir {
        Some(d) => d.to_owned(),
        None => uri.to_owned(),
    }
}

/// The environment of a document.
pub open spec fn scope_of(uri: Seq<char>, root: Option<Seq<char>>) -> Seq<char> {
    match base_dir(uri, root) {
        Some(d) => d,
        None => uri,
    }
}

/// The environment of a document, under which its responses are kept and
/// cleared.
pub fn doc_scope(uri: &str, root: Option<&str>) -> (r: String)
    ensures
        r@ == scope_of(uri@, opt_str(root)),
{
    match doc_base_dir(uri, root) {
        Some(d) => response_scope(uri, Some(d.as_str())),
        None => response_scope(uri, None),
    }
}

/// Documents of one folder share their environment; those of different folders
/// never do.
pub proof fn law_environment_is_the_folder(a: Seq<char>, b: Seq<char>, root: Option<Seq<char>>)
    requires
        uri_folder(a) is Some,
        uri_folder(b) is Some,
    ensures
        scope_of(a, root) == scope_of(b, root) <==> uri_folder(a) == uri_folder(b),
{
}

}

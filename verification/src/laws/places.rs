//! Where things stand on disk.

use vstd::prelude::*;

verus! {

use crate::artifacts::{token_text, user_dir_text, DIR_PREFIX};
use crate::digits::{decimal, hex_bytes, hex_padded, written};
use crate::document::alphanumeric;
use crate::extension::{
    asset_text, binary_text, missing_asset_text, stale, version_dir_text, Architecture, Os, BINARY_NAME,
};
use crate::hash::text_hash;
use crate::laws::digits::{law_decimal_tells_numbers_apart, law_padded_digits};
use crate::laws::text::law_prefix;
use crate::paths::{
    base_dir, directory_name, key_with, log_file, path_file_name, path_join, path_parent, result_file,
    result_location, scope_of, uri_folder, uri_path, workspace_name, MAX_LOG_BYTES, RESPONSES_FILE,
};
use crate::session::{CLOSE_GRACE, MIN_LOADING, SHOW_DOCUMENT_TIMEOUT};
use crate::text::{joined, starts_with};
use crate::timeout::DEFAULT_TIMEOUT;

/// A `file://` URI names a path, and its folder is the parent of that path; no other URI
/// names one.
pub proof fn law_file_uris(p: Seq<char>, uri: Seq<char>)
    ensures
        uri_path("file://"@ + p) == Some(p),
        uri_folder("file://"@ + p) == path_parent(p),
        !starts_with(uri, "file://"@) ==> uri_path(uri) is None && uri_folder(uri) is None,
{
    law_prefix(uri, "file://"@, p);
}

/// The environment of a document is its folder; without one it is the root of the
/// workspace, and without that the document itself.
pub proof fn law_environments(p: Seq<char>, uri: Seq<char>, root: Seq<char>)
    ensures
        path_parent(p) matches Some(d) ==> scope_of("file://"@ + p, Some(root)) == d && scope_of("file://"@ + p, None)
            == d && base_dir("file://"@ + p, None) == Some(d) && base_dir("file://"@ + p, Some(root)) == Some(d),
        !starts_with(uri, "file://"@) ==> scope_of(uri, Some(root)) == root && scope_of(uri, None) == uri && base_dir(
            uri,
            Some(root),
        ) == Some(root) && base_dir(uri, None) is None,
{
    law_file_uris(p, uri);
}

/// Sixteen to the power of `width`.
spec fn span(width: nat) -> nat
    decreases width,
{
    if width == 0 {
        1
    } else {
        16 * span((width - 1) as nat)
    }
}

proof fn lemma_padded_digits_differ(a: nat, b: nat, width: nat)
    requires
        a < span(width),
        b < span(width),
        hex_padded(a, width) == hex_padded(b, width),
    ensures
        a == b,
    decreases width,
{
    if width > 0 {
        law_padded_digits(a, width);
        law_padded_digits(b, width);
        lemma_padded_digits_differ(a / 16, b / 16, (width - 1) as nat);
    }
}

/// The directory of a workspace is called by its name, in which letters, digits, `-` and
/// `_` stay and all else becomes `_`, and by the hash of its root in sixteen digits: two
/// roots of one name with different hashes have different directories.
pub proof fn law_workspace_directories(a: Seq<char>, b: Seq<char>, name: Seq<char>)
    ensures
        directory_name(seq![]) == "workspace"@,
        name.len() > 0 ==> directory_name(name).len() == name.len(),
        name.len() > 0 ==> forall|i: int|
            0 <= i < name.len() ==> (#[trigger] directory_name(name)[i]) == (if alphanumeric(name[i]) || name[i] == '-'
                || name[i] == '_' {
                name[i]
            } else {
                '_'
            }),
        key_with(a, Some(name)) == directory_name(name) + "-"@ + hex_padded(text_hash(a) as nat, 16),
        key_with(a, None) == "workspace"@ + "-"@ + hex_padded(text_hash(a) as nat, 16),
        key_with(a, Some(name)) == key_with(b, Some(name)) <==> text_hash(a) == text_hash(b),
        workspace_name(Some(a)) == key_with(a, path_file_name(a)),
        workspace_name(None) == "no-workspace"@,
{
    let front = directory_name(name) + "-"@;
    let x = hex_padded(text_hash(a) as nat, 16);
    let y = hex_padded(text_hash(b) as nat, 16);
    reveal_with_fuel(span, 17);
    assert(span(16) == 0x1_0000_0000_0000_0000);
    if key_with(a, Some(name)) == key_with(b, Some(name)) {
        assert((front + x).skip(front.len() as int) =~= x);
        assert((front + y).skip(front.len() as int) =~= y);
        lemma_padded_digits_differ(text_hash(a) as nat, text_hash(b) as nat, 16);
    }
}

/// The files of a workspace, each named after it.
pub proof fn law_workspace_files(dir: Seq<char>, root: Seq<char>, name: Seq<char>)
    ensures
        result_file(Some(name)) == name + ".http"@,
        result_file(None) == "http-response.http"@,
        log_file(Some(name)) == "http-request-client-lsp-"@ + name + ".log"@,
        log_file(None) == "http-request-client-lsp.log"@,
        path_file_name(root) == Some(name) ==> result_location(dir, Some(root)) == path_join(
            path_join(dir, "requests"@),
            name + ".http"@,
        ),
        result_location(dir, None) == path_join(path_join(dir, "requests"@), "http-response.http"@),
        RESPONSES_FILE@ == "responses.json"@,
        MAX_LOG_BYTES == 2 * 1024 * 1024,
{
}

/// The directory of a user is told apart from those of others by its number.
pub proof fn law_user_directories(a: u32, b: u32)
    ensures
        user_dir_text(Some(a)) == "http-request-client-"@ + decimal(a as nat),
        user_dir_text(None) == "http-request-client-"@ + "user"@,
        user_dir_text(Some(a)) == user_dir_text(Some(b)) <==> a == b,
{
    law_decimal_tells_numbers_apart(a as nat, b as nat);
    let p = DIR_PREFIX@;
    assert((p + decimal(a as nat)).skip(p.len() as int) =~= decimal(a as nat));
    assert((p + decimal(b as nat)).skip(p.len() as int) =~= decimal(b as nat));
}

/// Random bytes alone make a name where there are any; else the process and the clock
/// do, both in hexadecimal digits.
pub proof fn law_random_names(bytes: Seq<u8>, pid: u32, nanos: u128)
    ensures
        token_text(Some(bytes), pid, nanos) == hex_bytes(bytes),
        token_text(None, pid, nanos) == written(pid as nat, 16) + written(nanos as nat, 16),
{
}

/// What a release calls the binary for each platform.
pub proof fn law_assets(version: Seq<char>, assets: Seq<Seq<char>>, wanted: Seq<char>)
    ensures
        asset_text(Os::Mac, Architecture::Aarch64) == "http-request-client-lsp-macos-aarch64.gz"@,
        asset_text(Os::Mac, Architecture::X8664) == "http-request-client-lsp-macos-x86_64.gz"@,
        asset_text(Os::Mac, Architecture::X86) == "http-request-client-lsp-macos-x86.gz"@,
        asset_text(Os::Linux, Architecture::Aarch64) == "http-request-client-lsp-linux-aarch64.gz"@,
        asset_text(Os::Linux, Architecture::X8664) == "http-request-client-lsp-linux-x86_64.gz"@,
        asset_text(Os::Linux, Architecture::X86) == "http-request-client-lsp-linux-x86.gz"@,
        asset_text(Os::Windows, Architecture::Aarch64) == "http-request-client-lsp-windows-aarch64.gz"@,
        asset_text(Os::Windows, Architecture::X8664) == "http-request-client-lsp-windows-x86_64.gz"@,
        asset_text(Os::Windows, Architecture::X86) == "http-request-client-lsp-windows-x86.gz"@,
        missing_asset_text(version, wanted, assets) == "release "@ + version + " has no `"@ + wanted
            + "` asset for this platform. Available assets: ["@ + joined(assets, ", "@) + "]"@,
{
    reveal_strlit("http-request-client-lsp");
    reveal_strlit("-");
    reveal_strlit(".gz");
    reveal_strlit("macos");
    reveal_strlit("linux");
    reveal_strlit("windows");
    reveal_strlit("aarch64");
    reveal_strlit("x86_64");
    reveal_strlit("x86");
    reveal_strlit("http-request-client-lsp-macos-aarch64.gz");
    reveal_strlit("http-request-client-lsp-macos-x86_64.gz");
    reveal_strlit("http-request-client-lsp-macos-x86.gz");
    reveal_strlit("http-request-client-lsp-linux-aarch64.gz");
    reveal_strlit("http-request-client-lsp-linux-x86_64.gz");
    reveal_strlit("http-request-client-lsp-linux-x86.gz");
    reveal_strlit("http-request-client-lsp-windows-aarch64.gz");
    reveal_strlit("http-request-client-lsp-windows-x86_64.gz");
    reveal_strlit("http-request-client-lsp-windows-x86.gz");
    assert(asset_text(Os::Mac, Architecture::Aarch64) =~= "http-request-client-lsp-macos-aarch64.gz"@);
    assert(asset_text(Os::Mac, Architecture::X8664) =~= "http-request-client-lsp-macos-x86_64.gz"@);
    assert(asset_text(Os::Mac, Architecture::X86) =~= "http-request-client-lsp-macos-x86.gz"@);
    assert(asset_text(Os::Linux, Architecture::Aarch64) =~= "http-request-client-lsp-linux-aarch64.gz"@);
    assert(asset_text(Os::Linux, Architecture::X8664) =~= "http-request-client-lsp-linux-x86_64.gz"@);
    assert(asset_text(Os::Linux, Architecture::X86) =~= "http-request-client-lsp-linux-x86.gz"@);
    assert(asset_text(Os::Windows, Architecture::Aarch64) =~= "http-request-client-lsp-windows-aarch64.gz"@);
    assert(asset_text(Os::Windows, Architecture::X8664) =~= "http-request-client-lsp-windows-x86_64.gz"@);
    assert(asset_text(Os::Windows, Architecture::X86) =~= "http-request-client-lsp-windows-x86.gz"@);
}

/// Each version has a directory of its own, with the binary in it. Whatever begins with
/// the name of the binary, other than the directory of the version, is stale, and
/// nothing else is.
pub proof fn law_versions(version: Seq<char>, rest: Seq<char>, other: Seq<char>, os: Os)
    ensures
        version_dir_text(version) == "http-request-client-lsp"@ + "-"@ + version,
        binary_text(version, Os::Windows) == version_dir_text(version) + "/"@ + "http-request-client-lsp"@ + ".exe"@,
        os != Os::Windows ==> binary_text(version, os) == version_dir_text(version) + "/"@
            + "http-request-client-lsp"@,
        stale("http-request-client-lsp"@ + rest, version) <==> rest != "-"@ + version,
        !starts_with(other, "http-request-client-lsp"@) ==> !stale(other, version),
{
    let b = BINARY_NAME@;
    law_prefix(other, b, rest);
    assert(b + "-"@ + version =~= b + ("-"@ + version));
    assert((b + rest).skip(b.len() as int) =~= rest);
    assert((b + ("-"@ + version)).skip(b.len() as int) =~= "-"@ + version);
    assert(version_dir_text(version) + "/"@ + b + Seq::<char>::empty() =~= version_dir_text(version) + "/"@ + b);
}

/// How long things are waited for: three seconds before responses are cleared and for
/// an answer of the editor, four tenths of a second for a running request to be seen,
/// and half a minute for a response.
pub proof fn law_waiting_times()
    ensures
        CLOSE_GRACE == 3 * 1000,
        SHOW_DOCUMENT_TIMEOUT == 3 * 1000,
        MIN_LOADING == 400 * 1000 * 1000,
        DEFAULT_TIMEOUT == 30,
{
}

}

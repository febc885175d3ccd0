//! Where the editor extension finds the binary of the language server.

use vstd::prelude::*;

use crate::scan::{begins_with, join, same};
use crate::text::chars;

verus! {

use crate::text::{joined, opt_text, starts_with, views};

/// The id of the language server in the editor's settings.
pub const SERVER_ID: &'static str = "http-request-client";

/// The name of the binary.
pub const BINARY_NAME: &'static str = "http-request-client-lsp";

/// A file that only the repository of the extension holds.
pub const REPO_MARKER: &'static str = "lsp-server/Cargo.toml";

/// The repository whose releases hold the binary.
pub const RELEASE_REPO: &'static str = "feapps/zed-api-client";

/// An operating system.
#[derive(Clone, Copy, PartialEq, Eq, Structural)]
pub enum Os {
    Mac,
    Linux,
    Windows,
}

/// A processor architecture.
#[derive(Clone, Copy, PartialEq, Eq, Structural)]
pub enum Architecture {
    Aarch64,
    X8664,
    X86,
}

/// What a release calls an operating system.
pub open spec fn os_text(os: Os) -> Seq<char> {
    match os {
        Os::Mac => "macos"@,
        Os::Linux => "linux"@,
        Os::Windows => "windows"@,
    }
}

/// What a release calls an architecture.
pub open spec fn architecture_text(arch: Architecture) -> Seq<char> {
    match arch {
        Architecture::Aarch64 => "aarch64"@,
        Architecture::X8664 => "x86_64"@,
        Architecture::X86 => "x86"@,
    }
}

/// The asset of a release for a platform: a gzip of the bare binary.
pub open spec fn asset_text(os: Os, arch: Architecture) -> Seq<char> {
    BINARY_NAME@ + "-"@ + os_text(os) + "-"@ + architecture_text(arch) + ".gz"@
}

/// The asset of a release for a platform.
pub fn asset_name(os: Os, arch: Architecture) -> (r: String)
    ensures
        r@ == asset_text(os, arch),
{
    let os_name: &str = match os {
        Os::Mac => "macos",
        Os::Linux => "linux",
        Os::Windows => "windows",
    };
    let arch_name: &str = match arch {
        Architecture::Aarch64 => "aarch64",
        Architecture::X8664 => "x86_64",
        Architecture::X86 => "x86",
    };
    let mut r = BINARY_NAME.to_owned();
    r.append("-");
    r.append(os_name);
    r.append("-");
    r.append(arch_name);
    r.append(".gz");
    r
}

/// The message about a release that lacks an asset.
pub open spec fn missing_asset_text(version: Seq<char>, wanted: Seq<char>, assets: Seq<Seq<char>>) -> Seq<char> {
    "release "@ + version + " has no `"@ + wanted + "` asset for this platform. Available assets: ["@ + joined(
        assets,
        ", "@,
    ) + "]"@
}

/// The place of the asset for a platform among those of a release, or why there
/// is none.
pub fn find_asset(version: &str, assets: &Vec<String>, wanted: &str) -> (r: Result<usize, String>)
    ensures
        match r {
            Ok(i) => i < assets@.len() && assets@[i as int]@ == wanted@ && forall|j: int|
                0 <= j < i ==> (#[trigger] assets@[j])@ != wanted@,
            Err(e) => !views(assets@).contains(wanted@) && e@ == missing_asset_text(version@, wanted@, views(assets@)),
        },
{
    let mut i: usize = 0;
    while i < assets.len()
        invariant
            i <= assets@.len(),
            forall|j: int| 0 <= j < i ==> (#[trigger] assets@[j])@ != wanted@,
        decreases assets@.len() - i,
    {
        if same(assets[i].as_str(), wanted) {
            return Ok(i);
        }
        i = i + 1;
    }
    let mut e = "release ".to_owned();
    e.append(version);
    e.append(" has no `");
    e.append(wanted);
    e.append("` asset for this platform. Available assets: [");
    e.append(join(assets, ", ").as_str());
    e.append("]");
    Err(e)
}

/// The directory of a version.
pub open spec fn version_dir_text(version: Seq<char>) -> Seq<char> {
    BINARY_NAME@ + "-"@ + version
}

/// The directory of a version.
pub fn version_dir(version: &str) -> (r: String)
    ensures
        r@ == version_dir_text(version@),
{
    let mut r = BINARY_NAME.to_owned();
    r.append("-");
    r.append(version);
    r
}

/// Where the binary of a version stands.
pub open spec fn binary_text(version: Seq<char>, os: Os) -> Seq<char> {
    version_dir_text(version) + "/"@ + BINARY_NAME@ + match os {
        Os::Windows => ".exe"@,
        _ => seq![],
    }
}

/// Where the binary of a version stands.
pub fn installed_path(version: &str, os: Os) -> (r: String)
    ensures
        r@ == binary_text(version@, os),
{
    let mut r = version_dir(version);
    r.append("/");
    r.append(BINARY_NAME);
    match os {
        Os::Windows => {
            r.append(".exe");
        },
        _ => {},
    }
    assert(r@ =~= binary_text(version@, os));
    r
}

/// Whether a directory holds another version, which the installed one replaces.
pub open spec fn stale(name: Seq<char>, version: Seq<char>) -> bool {
    starts_with(name, BINARY_NAME@) && name != version_dir_text(version)
}

/// Whether a directory holds another version.
pub fn is_stale_install(name: &str, version: &str) -> (r: bool)
    ensures
        r == stale(name@, version@),
{
    let n = chars(name);
    let dir = version_dir(version);
    begins_with(n.as_slice(), BINARY_NAME) && !same(name, dir.as_str())
}

/// The binary, from the most explicit source to the most automatic: the settings,
/// the build in the open repository where that is the extension's own, the search
/// path. Where none of them has it, it is downloaded.
pub open spec fn binary_source(
    configured: Option<Seq<char>>,
    own_repository: bool,
    root: Seq<char>,
    on_path: Option<Seq<char>>,
) -> Option<Seq<char>> {
    match configured {
        Some(p) => Some(p),
        None => if own_repository {
            Some(root + "/target/debug/"@ + BINARY_NAME@)
        } else {
            on_path
        },
    }
}

/// The binary, where it need not be downloaded.
pub fn binary_path(configured: Option<String>, own_repository: bool, root: &str, on_path: Option<String>) -> (r: Option<
    String,
>)
    ensures
        opt_text(r) == binary_source(opt_text(configured), own_repository, root@, opt_text(on_path)),
{
    match configured {
        Some(p) => Some(p),
        None => if own_repository {
            let mut r = root.to_owned();
            r.append("/target/debug/");
            r.append(BINARY_NAME);
            Some(r)
        } else {
            on_path
        },
    }
}

/// The download that an earlier call of this session made: it is used again while
/// it is still there.
pub fn cached_binary(cached: Option<String>, is_file: bool) -> (r: Option<String>)
    ensures
        opt_text(r) == (if is_file {
            opt_text(cached)
        } else {
            None
        }),
{
    if is_file {
        cached
    } else {
        None
    }
}

/// How a version is installed.
pub struct Install {
    /// The place of the asset among those of the release.
    pub asset: usize,
    /// The directory of the version.
    pub dir: String,
    /// The binary in it.
    pub path: String,
    /// Whether the asset is downloaded to that path.
    pub download: bool,
}

/// How a release is installed for a platform, or why it has nothing for it. `present`
/// tells whether a file stands at [`installed_path`] already; the asset is downloaded
/// exactly where none does.
pub fn download_binary(
    version: &str,
    assets: &Vec<String>,
    os: Os,
    arch: Architecture,
    present: bool,
) -> (r: Result<Install, String>)
    ensures
        match r {
            Ok(i) => i.asset < assets@.len() && assets@[i.asset as int]@ == asset_text(os, arch) && (forall|j: int|
                0 <= j < i.asset ==> (#[trigger] assets@[j])@ != asset_text(os, arch)) && i.dir@ == version_dir_text(
                version@,
            ) && i.path@ == binary_text(version@, os) && i.download == !present,
            Err(e) => !views(assets@).contains(asset_text(os, arch)) && e@ == missing_asset_text(
                version@,
                asset_text(os, arch),
                views(assets@),
            ),
        },
{
    let wanted = asset_name(os, arch);
    match find_asset(version, assets, wanted.as_str()) {
        Ok(asset) => Ok(
            Install { asset, dir: version_dir(version), path: installed_path(version, os), download: !present },
        ),
        Err(e) => Err(e),
    }
}

/// The end of an installation: the path to use, which is cached for later calls, and
/// the places of the entries of the working directory to remove. Those are the other
/// versions, and they are removed only after a download.
pub fn finish_install(i: &Install, version: &str, names: &Vec<String>, cached: &mut Option<String>) -> (r: (
    String,
    Vec<usize>,
))
    ensures
        r.0@ == i.path@,
        opt_text(*final(cached)) == Some(i.path@),
        forall|k: usize|
            k < names@.len() ==> (#[trigger] r.1@.contains(k) <==> (i.download && stale(
                names@[k as int]@,
                version@,
            ))),
        forall|j: int| 0 <= j < r.1@.len() ==> (#[trigger] r.1@[j]) < names@.len(),
        forall|j: int, k: int| 0 <= j < k < r.1@.len() ==> (#[trigger] r.1@[j]) < (#[trigger] r.1@[k]),
{
    let mut places: Vec<usize> = Vec::new();
    let n: usize = names.len();
    let mut k: usize = 0;
    while k < n
        invariant
            k <= n == names@.len(),
            forall|m: usize|
                m < k ==> (#[trigger] places@.contains(m) <==> (i.download && stale(
                    names@[m as int]@,
                    version@,
                ))),
            forall|j: int| 0 <= j < places@.len() ==> (#[trigger] places@[j]) < k,
            forall|j: int, m: int| 0 <= j < m < places@.len() ==> (#[trigger] places@[j]) < (#[trigger] places@[m]),
        decreases n - k,
    {
        let ghost before = places@;
        if i.download && is_stale_install(names[k].as_str(), version) {
            places.push(k);
            assert(places@[before.len() as int] == k);
        }
        proof {
            assert forall|m: usize| m < k + 1 implies (#[trigger] places@.contains(m) <==> (i.download && stale(
                names@[m as int]@,
                version@,
            ))) by {
                if before.contains(m) {
                    let j = choose|j: int| 0 <= j < before.len() && before[j] == m;
                    assert(places@[j] == m);
                }
                if places@.contains(m) {
                    let j = choose|j: int| 0 <= j < places@.len() && places@[j] == m;
                    if j < before.len() {
                        assert(before[j] == m);
                        assert(before.contains(m));
                    }
                }
            }
        }
        k = k + 1;
    }
    *cached = Some(i.path.clone());
    (i.path.clone(), places)
}

/// The configured path wins over everything, and the own build over the search
/// path; only where all three are missing is the binary downloaded.
pub proof fn law_binary_precedence(
    configured: Option<Seq<char>>,
    own_repository: bool,
    root: Seq<char>,
    on_path: Option<Seq<char>>,
)
    ensures
        configured is Some ==> binary_source(configured, own_repository, root, on_path) == configured,
        configured is None && own_repository ==> binary_source(configured, own_repository, root, on_path) == Some(
            root + "/target/debug/"@ + BINARY_NAME@,
        ),
        configured is None && !own_repository ==> binary_source(configured, own_repository, root, on_path) == on_path,
        binary_source(configured, own_repository, root, on_path) is None <==> (configured is None && !own_repository
            && on_path is None),
{
}

/// Removing other versions never removes the installed one, and removes every
/// other version.
pub proof fn law_only_other_versions_are_stale(version: Seq<char>, other: Seq<char>)
    ensures
        !stale(version_dir_text(version), version),
        other != version ==> stale(version_dir_text(other), version),
{
    let a = version_dir_text(version);
    let b = version_dir_text(other);
    let p = BINARY_NAME@ + "-"@;
    assert(b.take(BINARY_NAME@.len() as int) =~= BINARY_NAME@);
    assert(b.subrange(0, BINARY_NAME@.len() as int) =~= BINARY_NAME@);
    if a == b {
        assert(a.skip(p.len() as int) =~= version);
        assert(b.skip(p.len() as int) =~= other);
    }
}

}

//! The private directory of a workspace: its name, and when an existing one may
//! be used.

use vstd::prelude::*;

use crate::digits::{write_decimal, write_hex_bytes, write_number};
use crate::paths::{join_path, parent, workspace_key};

verus! {

use crate::digits::{decimal, hex_bytes, written};
use crate::paths::{path_join, path_parent, workspace_name};
use crate::text::{opt_str, opt_text};

/// What the names of all artifact directories begin with.
pub const DIR_PREFIX: &'static str = "http-request-client-";

/// A name that nobody can foresee: random bytes, or the process and the clock
/// where there are none.
pub open spec fn token_text(bytes: Option<Seq<u8>>, pid: u32, nanos: u128) -> Seq<char> {
    match bytes {
        Some(b) => hex_bytes(b),
        None => written(pid as nat, 16) + written(nanos as nat, 16),
    }
}

/// A name that nobody can foresee. `bytes` are random, where they could be read;
/// `nanos` is the time since the epoch.
pub fn random_token(bytes: Option<&[u8]>, pid: u32, nanos: u128) -> (r: String)
    ensures
        r@ == token_text(
            match bytes {
                Some(b) => Some(b@),
                None => None,
            },
            pid,
            nanos,
        ),
{
    match bytes {
        Some(b) => write_hex_bytes(b),
        None => {
            let mut r = write_number(pid as u128, 16);
            r.append(write_number(nanos, 16).as_str());
            r
        },
    }
}

/// The name of a directory of random name.
pub fn random_dir_name(token: &str) -> (r: String)
    ensures
        r@ == DIR_PREFIX@ + token@,
{
    let mut r = DIR_PREFIX.to_owned();
    r.append(token);
    r
}

/// The name of the directory of a user. Where the system has no user ids, its
/// temporary directory belongs to one user already.
pub open spec fn user_dir_text(uid: Option<u32>) -> Seq<char> {
    DIR_PREFIX@ + match uid {
        Some(u) => decimal(u as nat),
        None => "user"@,
    }
}

/// The name of the directory of a user.
pub fn user_dir_name(uid: Option<u32>) -> (r: String)
    ensures
        r@ == user_dir_text(uid),
{
    let mut r = DIR_PREFIX.to_owned();
    match uid {
        Some(u) => {
            r.append(write_decimal(u as u64).as_str());
        },
        None => {
            r.append("user");
        },
    }
    r
}

/// Whether a path is a directory of ours that nobody else can enter: not a link,
/// with all rights for its owner and none for others, and owned by us. `mode` are
/// the permission bits, and `owner` the user it belongs to.
pub fn is_private_dir(is_dir: bool, mode: u32, owner: u32, own_uid: Option<u32>) -> (r: bool)
    ensures
        r == (is_dir && mode % 512 == 448 && own_uid == Some(owner)),
{
    assert(mode & 511 == mode % 512) by (bit_vector);
    is_dir && mode & 511 == 448 && (match own_uid {
        Some(u) => u == owner,
        None => false,
    })
}

/// What came of creating a directory that must not exist yet.
#[derive(Clone, Copy, PartialEq, Eq, Structural)]
pub enum Creation {
    Created,
    AlreadyThere,
    Failed,
}

/// Whether the directory of a user can be used: a new one always, one that was
/// there already only where it is private.
pub fn base_usable(creation: Creation, private: bool) -> (r: bool)
    ensures
        r == (creation == Creation::Created || (creation == Creation::AlreadyThere && private)),
{
    match creation {
        Creation::Created => true,
        Creation::AlreadyThere => private,
        Creation::Failed => false,
    }
}

/// The artifact directory of a workspace, inside the directory of the user. It
/// depends on the user and the workspace root alone, so it outlives the process.
pub fn artifact_dir(base: &str, root: Option<&str>) -> (r: String)
    ensures
        r@ == path_join(base@, workspace_name(opt_str(root))),
{
    let key = workspace_key(root);
    join_path(base, key.as_str())
}

/// The folder that must exist before a file is written.
pub fn ensure_result_dir(path: &str) -> (r: Option<String>)
    ensures
        opt_text(r) == path_parent(path@),
{
    parent(path)
}

}

//! Single-instance guard: the location of the lockfile that keeps two server
//! processes from writing the same snapshot.
//!
//! Two processes writing one snapshot file race on the rename and silently
//! clobber each other's rooms, so at startup the server takes an exclusive lock
//! on a `.lock` file beside the snapshot.

use vstd::prelude::*;
use crate::gate::{opt_str, opt_str_ref};

verus! {

/// The parent directory that `std::path::Path::parent` gives for a path.
pub uninterp spec fn path_parent(p: Seq<char>) -> Option<Seq<char>>;

/// The path that `std::path::Path::join` builds from a directory and a name
/// on a Unix target: an absolute `name` replaces `dir`; otherwise `name` is
/// appended, after a `/` unless `dir` is empty or already ends in one.
pub open spec fn path_join(dir: Seq<char>, name: Seq<char>) -> Seq<char> {
    if name.len() > 0 && name[0] == '/' {
        name
    } else if dir.len() > 0 && dir.last() != '/' {
        dir + seq!['/'] + name
    } else {
        dir + name
    }
}

/// `std::path::Path::parent` on `p`, as text. The contract names the result
/// (`path_parent`) and says nothing more of it: it is a lexical function of
/// the path alone. A parent of a UTF-8 path is a prefix of it, so the text
/// conversion loses nothing.
#[verifier::external_body]
fn parent_of(p: &str) -> (r: Option<String>)
    ensures
        opt_str(r) == path_parent(p@),
{
    match std::path::Path::new(p).parent() {
        Some(d) => Some(d.to_string_lossy().into_owned()),
        None => None,
    }
}

/// `std::path::Path::join` of `dir` and `name`, as text. Promised, as its
/// documentation says for a Unix target: an absolute `name` replaces `dir`,
/// otherwise the two are joined with one `/` separator (`path_join`). Both are
/// UTF-8, so the text conversion loses nothing.
#[verifier::external_body]
fn join_path(dir: &str, name: &str) -> (r: String)
    ensures
        r@ == path_join(dir@, name@),
{
    std::path::Path::new(dir).join(name).to_string_lossy().into_owned()
}

/// The lockfile for a snapshot whose parent directory is `parent`: `.lock` in
/// that directory, or in the current directory when there is none.
pub open spec fn lock_path_in_spec(parent: Option<Seq<char>>) -> Seq<char> {
    match parent {
        Some(d) => if d.len() > 0 {
            path_join(d, ".lock"@)
        } else {
            ".lock"@
        },
        None => ".lock"@,
    }
}

/// The lockfile beside a snapshot whose parent directory is `parent`.
pub fn lock_path_in(parent: Option<&str>) -> (r: String)
    ensures
        r@ == lock_path_in_spec(opt_str_ref(parent)),
{
    match parent {
        Some(d) => if d.is_empty() {
            ".lock".to_owned()
        } else {
            join_path(d, ".lock")
        },
        None => ".lock".to_owned(),
    }
}

/// Path of the lockfile guarding the data directory that holds `snapshot_path`.
pub fn lock_path_for(snapshot_path: &str) -> (r: String)
    ensures
        r@ == lock_path_in_spec(path_parent(snapshot_path@)),
{
    let parent = parent_of(snapshot_path);
    match &parent {
        Some(d) => lock_path_in(Some(d.as_str())),
        None => lock_path_in(None),
    }
}

} // verus!

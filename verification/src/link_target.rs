//! Where a link leads.

use std::path::PathBuf;

use vstd::prelude::*;

verus! {

/// A path, as the file system has it.
#[verifier::external_type_specification]
#[verifier::external_body]
pub struct ExPathBuf(PathBuf);

/// `PathBuf::pop` of std takes the last part off a path, which leaves the path of its directory.
/// Paths are opaque, so nothing is said of which it is.
#[verifier::external_body]
fn directory_of(path: &PathBuf) -> (r: PathBuf) {
    let mut path = path.clone();
    path.pop();
    path
}

/// `PathBuf::push` of std goes on from a directory along a path, or takes that path alone where it
/// is absolute. Paths are opaque, so nothing is said of which it is.
#[verifier::external_body]
fn joined(directory: PathBuf, path: &PathBuf) -> (r: PathBuf) {
    let mut directory = directory;
    directory.push(path);
    directory
}

/// Whether `PathBuf::pop` gave `directory` for `path`.
pub closed spec fn is_directory_of(path: PathBuf, directory: PathBuf) -> bool {
    call_ensures(directory_of, (&path,), directory)
}

/// Whether `PathBuf::push` gave `r` for `path`, from `directory` on.
pub closed spec fn is_joined(directory: PathBuf, path: PathBuf, r: PathBuf) -> bool {
    call_ensures(joined, (directory, &path), r)
}

/// The path that the link at `link` leads to, where `target` is what the link holds: a relative one
/// goes on from the link's own directory.
pub fn link_target(link: &PathBuf, target: &PathBuf) -> (r: PathBuf)
    ensures
        exists|directory: PathBuf| #[trigger]
            is_directory_of(*link, directory) && is_joined(directory, *target, r),
{
    let directory: PathBuf = directory_of(link);
    let ghost from = directory;
    let r: PathBuf = joined(directory, target);
    assert(is_directory_of(*link, from));
    assert(is_joined(from, *target, r));
    r
}

/// Where a link leads is what `PathBuf::push` gives from the link's own directory on.
pub proof fn link_leads_on_from_its_directory(link: &PathBuf, target: &PathBuf, r: PathBuf)
    requires
        call_ensures(link_target, (link, target), r),
    ensures
        exists|directory: PathBuf| #[trigger]
            is_directory_of(*link, directory) && is_joined(directory, *target, r),
{
}

}

use vstd::prelude::*;

use crate::source_files::string_views;

verus! {

/// What `Path::parent` gives for a path, as text.
pub uninterp spec fn path_parent_of(path: Seq<char>) -> Option<Seq<char>>;

/// What `Path::file_name` gives for a path, as text.
pub uninterp spec fn path_file_name_of(path: Seq<char>) -> Option<Seq<char>>;

/// What `Path::join` gives for a base path and a file name, as text.
pub uninterp spec fn path_joined(base: Seq<char>, name: Seq<char>) -> Seq<char>;

pub open spec fn option_string_view(o: Option<String>) -> Option<Seq<char>> {
    match o {
        Some(s) => Some(s@),
        None => None,
    }
}

/// The parent directory of a path.
///
/// Trusted: calls `std::path::Path::parent`; its result depends on the path
/// alone, and the contract names it `path_parent_of` without saying more.
#[verifier::external_body]
fn path_parent(path: &str) -> (r: Option<String>)
    ensures
        option_string_view(r) == path_parent_of(path@),
{
    std::path::Path::new(path).parent().map(|p| p.to_string_lossy().into_owned())
}

/// The last component of a path.
///
/// Trusted: calls `std::path::Path::file_name`; its result depends on the path
/// alone, and the contract names it `path_file_name_of` without saying more.
#[verifier::external_body]
fn path_file_name(path: &str) -> (r: Option<String>)
    ensures
        option_string_view(r) == path_file_name_of(path@),
{
    std::path::Path::new(path).file_name().map(|n| n.to_string_lossy().into_owned())
}

/// A file name placed in a directory.
///
/// Trusted: calls `std::path::Path::join`; its result depends on its two
/// arguments alone, and the contract names it `path_joined` without saying
/// more.
#[verifier::external_body]
fn path_join(base: &str, name: &str) -> (r: String)
    ensures
        r@ == path_joined(base@, name@),
{
    std::path::Path::new(base).join(name).to_string_lossy().into_owned()
}

/// The lock files that server startup leaves beside a socket: the socket's
/// file name with `.startup-lock` and with `.lock` appended, in the socket's
/// directory; none for a path without a directory or a file name.
pub open spec fn startup_lock_paths_spec(socket_path: Seq<char>) -> Seq<Seq<char>> {
    match (path_parent_of(socket_path), path_file_name_of(socket_path)) {
        (Some(dir), Some(name)) => seq![
            path_joined(dir, name + ".startup-lock"@),
            path_joined(dir, name + ".lock"@),
        ],
        _ => Seq::empty(),
    }
}

/// The lock files to remove with a server socket.
pub fn startup_lock_paths(socket_path: &str) -> (paths: Vec<String>)
    ensures
        string_views(paths@) == startup_lock_paths_spec(socket_path@),
{
    let parent = match path_parent(socket_path) {
        Some(p) => p,
        None => {
            return Vec::new();
        },
    };
    let name = match path_file_name(socket_path) {
        Some(n) => n,
        None => {
            let empty: Vec<String> = Vec::new();
            proof {
                assert(string_views(empty@) =~= Seq::<Seq<char>>::empty());
            }
            return empty;
        },
    };
    let mut startup_lock_name = name.clone();
    startup_lock_name.append(".startup-lock");
    let mut legacy_lock_name = name;
    legacy_lock_name.append(".lock");
    let mut paths: Vec<String> = Vec::new();
    paths.push(path_join(parent.as_str(), startup_lock_name.as_str()));
    paths.push(path_join(parent.as_str(), legacy_lock_name.as_str()));
    proof {
        assert(string_views(paths@) =~= startup_lock_paths_spec(socket_path@));
    }
    paths
}

} // verus!

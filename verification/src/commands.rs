use vstd::prelude::*;

use crate::error::{ErrorView, GitError};
use crate::objects::{kind_name, read_stored, Object};
use crate::repository::{git_dir_of, repository_layout, LayoutEntry, Repository};

verus! {

/// Starts a repository in the working tree `worktree`: refused when its Git
/// directory `worktree/.git` already exists, otherwise the directories and
/// files to create, with their full paths.
pub fn init(worktree: String, gitdir_exists: bool) -> (r: Result<Vec<LayoutEntry>, GitError>)
    ensures
        match r {
            Ok(layout) => !gitdir_exists && layout@.map_values(|e: LayoutEntry| e@)
                == repository_layout(git_dir_of(worktree@)),
            Err(e) => gitdir_exists && e@ == ErrorView::RepositoryExists,
        },
{
    let repo = Repository::init(worktree, gitdir_exists)?;
    Ok(repo.layout())
}

/// The content of the object stored, compressed, as `stored`.
pub fn cat_file(stored: &[u8]) -> (r: Result<Vec<u8>, GitError>)
    ensures
        match read_stored(stored@) {
            Ok((_, data)) => r matches Ok(v) && v@ == data,
            Err(e) => r matches Err(x) && x@ == e,
        },
{
    let object = Object::decompress(stored)?;
    Ok(object.data)
}

/// The type name of the object stored, compressed, as `stored`.
pub fn cat_file_type(stored: &[u8]) -> (r: Result<String, GitError>)
    ensures
        match read_stored(stored@) {
            Ok((t, _)) => r matches Ok(s) && s@ == kind_name(t),
            Err(e) => r matches Err(x) && x@ == e,
        },
{
    let object = Object::decompress(stored)?;
    let name: &str = object.obj_type.as_str();
    Ok(name.to_owned())
}

/// The content size of the object stored, compressed, as `stored`.
pub fn cat_file_size(stored: &[u8]) -> (r: Result<usize, GitError>)
    ensures
        match read_stored(stored@) {
            Ok((_, data)) => r matches Ok(n) && n as nat == data.len(),
            Err(e) => r matches Err(x) && x@ == e,
        },
{
    let object = Object::decompress(stored)?;
    Ok(object.data.len())
}

} // verus!

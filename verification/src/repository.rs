use vstd::prelude::*;
use vstd::string::StringSliceAdditionalSpecFns;
use vstd::utf8::*;

use crate::crypto::is_lower_hex;
use crate::error::{ErrorView, GitError};
use crate::paths::{join_path, joined, lemma_join_parts};

verus! {

broadcast use vstd::utf8::group_utf8_lib;

/// A Git repository: its working tree and its Git directory.
pub struct Repository {
    pub worktree: String,
    pub gitdir: String,
}

/// Where an object lives under `objects/` in the Git directory: a directory
/// named by the first two bytes of its id and a file named by the rest.
pub struct ObjectPath {
    pub dir: String,
    pub file: String,
}

/// One thing that `init` creates, relative to the Git directory.
pub enum LayoutEntry {
    /// A directory (the empty path is the Git directory itself).
    Dir(String),
    /// A file and its contents.
    File(String, String),
}

/// The mathematical value of a [`LayoutEntry`].
pub enum LayoutView {
    Dir(Seq<char>),
    File(Seq<char>, Seq<char>),
}

impl View for LayoutEntry {
    type V = LayoutView;

    open spec fn view(&self) -> LayoutView {
        match self {
            LayoutEntry::Dir(path) => LayoutView::Dir(path@),
            LayoutEntry::File(path, contents) => LayoutView::File(path@, contents@),
        }
    }
}

/// The Git directory of the working tree `worktree`: `worktree/.git`.
pub open spec fn git_dir_of(worktree: Seq<char>) -> Seq<char> {
    joined(worktree, ".git"@)
}

/// What a new repository with Git directory `gitdir` holds, in the order
/// it is created.
pub open spec fn repository_layout(gitdir: Seq<char>) -> Seq<LayoutView> {
    seq![
        LayoutView::Dir(gitdir),
        LayoutView::Dir(joined(gitdir, "objects"@)),
        LayoutView::Dir(joined(gitdir, "refs/heads"@)),
        LayoutView::Dir(joined(gitdir, "refs/tags"@)),
        LayoutView::File(joined(gitdir, "HEAD"@), "ref: refs/heads/main\n"@),
        LayoutView::File(
            joined(gitdir, "description"@),
            "Unnamed repository; edit this file 'description' to name the repository.\n"@,
        ),
        LayoutView::File(
            joined(gitdir, "config"@),
            "[core]\n\trepositoryformatversion = 0\n\tfilemode = true\n\tbare = false\n"@,
        ),
    ]
}

/// The file that holds the object whose id has the UTF-8 bytes `id`, in the
/// repository with Git directory `gitdir`: `objects/`, then a directory
/// named by the id's first two bytes, then a file named by the rest.
pub open spec fn object_file_path(gitdir: Seq<char>, id: Seq<u8>) -> Seq<char> {
    joined(
        joined(joined(gitdir, "objects"@), decode_utf8(id.take(2))),
        decode_utf8(id.skip(2)),
    )
}

/// An owned copy of a string slice.
fn owned(s: &str) -> (r: String)
    ensures
        r@ == s@,
{
    s.to_owned()
}

/// An object id of 40 lowercase hexadecimal characters is 40 bytes long and
/// splits after its second byte into its first two characters and the rest.
pub proof fn lemma_id_splits(hash: &str)
    requires
        hash@.len() == 40,
        is_lower_hex(hash@),
    ensures
        hash.spec_bytes().len() == 40,
        is_char_boundary(hash.spec_bytes(), 2),
        hash.spec_bytes().take(2) == encode_utf8(hash@.take(2)),
        hash.spec_bytes().skip(2) == encode_utf8(hash@.skip(2)),
        decode_utf8(hash.spec_bytes().take(2)) == hash@.take(2),
        decode_utf8(hash.spec_bytes().skip(2)) == hash@.skip(2),
{
    let chars = hash@;
    assert(is_ascii_chars(chars)) by {
        assert forall|i: int| 0 <= i < chars.len() implies '\0' <= #[trigger] chars[i] <= '\u{7f}' by {
            assert('0' <= chars[i] <= '9' || 'a' <= chars[i] <= 'f');
        }
    }
    let head = chars.take(2);
    let tail = chars.skip(2);
    assert(is_ascii_chars(head));
    assert(is_ascii_chars(tail));
    is_ascii_chars_encode_utf8(chars);
    is_ascii_chars_encode_utf8(head);
    is_ascii_chars_encode_utf8(tail);
    let bytes = hash.spec_bytes();
    assert(bytes.take(2) =~= encode_utf8(head));
    assert(bytes.skip(2) =~= encode_utf8(tail));
    assert(!is_continuation_byte(bytes[2]));
}

/// The Git directory of the working tree `worktree`.
pub fn gitdir_of(worktree: &str) -> (r: String)
    ensures
        r@ == git_dir_of(worktree@),
{
    join_path(worktree, ".git")
}

/// Where the object with id `hash` is stored, relative to `objects/`: its
/// first two bytes name the directory and the rest the file; ids shorter
/// than two bytes are refused.
pub fn object_location(hash: &str) -> (r: Result<ObjectPath, GitError>)
    requires
        hash.spec_bytes().len() >= 2 ==> is_char_boundary(hash.spec_bytes(), 2),
    ensures
        match r {
            Ok(p) => {
                &&& hash.spec_bytes().len() >= 2
                &&& encode_utf8(p.dir@) == hash.spec_bytes().take(2)
                &&& encode_utf8(p.file@) == hash.spec_bytes().skip(2)
                &&& p.dir@ == decode_utf8(hash.spec_bytes().take(2))
                &&& p.file@ == decode_utf8(hash.spec_bytes().skip(2))
            },
            Err(e) => hash.spec_bytes().len() < 2 && e@ == ErrorView::HashTooShort,
        },
{
    if hash.as_bytes().len() < 2 {
        return Err(GitError::HashTooShort);
    }
    let (dir, file) = hash.split_at(2);
    Ok(ObjectPath { dir: owned(dir), file: owned(file) })
}

/// Every object id has its file at `objects/<first two characters>/<other
/// 38 characters>` under the Git directory.
pub proof fn lemma_object_file_of_id(gitdir: Seq<char>, hash: &str)
    requires
        hash@.len() == 40,
        is_lower_hex(hash@),
    ensures
        object_file_path(gitdir, hash.spec_bytes()) == joined(gitdir, "objects"@) + seq!['/']
            + hash@.take(2) + seq!['/'] + hash@.skip(2),
{
    lemma_id_splits(hash);
    reveal_strlit("objects");
    let objects = joined(gitdir, "objects"@);
    let dir = hash@.take(2);
    let file = hash@.skip(2);
    lemma_join_parts(gitdir, "objects"@);
    assert(objects.last() == 's');
    assert(dir[0] == hash@[0]);
    assert('0' <= hash@[0] <= '9' || 'a' <= hash@[0] <= 'f');
    assert(dir.last() == hash@[1]);
    assert('0' <= hash@[1] <= '9' || 'a' <= hash@[1] <= 'f');
    assert(file[0] == hash@[2]);
    assert('0' <= hash@[2] <= '9' || 'a' <= hash@[2] <= 'f');
    let with_dir = joined(objects, dir);
    assert(with_dir == objects + seq!['/'] + dir);
    assert(with_dir.last() == dir.last());
    assert(joined(with_dir, file) == with_dir + seq!['/'] + file);
}

/// The path that a layout entry creates.
pub open spec fn layout_path(e: LayoutView) -> Seq<char> {
    match e {
        LayoutView::Dir(p) => p,
        LayoutView::File(p, _) => p,
    }
}

/// A new repository is exactly seven entries, each path created once: the
/// Git directory, `objects`, `refs/heads`, `refs/tags`, then `HEAD` naming
/// `main`, the description, and a config for a non-bare repository.
pub proof fn lemma_layout_contents(gitdir: Seq<char>)
    ensures
        repository_layout(gitdir).len() == 7,
        repository_layout(gitdir)[0] == LayoutView::Dir(gitdir),
        repository_layout(gitdir)[1] == LayoutView::Dir(joined(gitdir, "objects"@)),
        repository_layout(gitdir)[2] == LayoutView::Dir(joined(gitdir, "refs/heads"@)),
        repository_layout(gitdir)[3] == LayoutView::Dir(joined(gitdir, "refs/tags"@)),
        repository_layout(gitdir)[4] == LayoutView::File(
            joined(gitdir, "HEAD"@),
            "ref: refs/heads/main\n"@,
        ),
        repository_layout(gitdir)[5] == LayoutView::File(
            joined(gitdir, "description"@),
            "Unnamed repository; edit this file 'description' to name the repository.\n"@,
        ),
        repository_layout(gitdir)[6] == LayoutView::File(
            joined(gitdir, "config"@),
            "[core]\n\trepositoryformatversion = 0\n\tfilemode = true\n\tbare = false\n"@,
        ),
        forall|i: int, j: int|
            0 <= i < j < 7 ==> layout_path(#[trigger] repository_layout(gitdir)[i])
                != layout_path(#[trigger] repository_layout(gitdir)[j]),
{
    reveal_strlit("objects");
    reveal_strlit("refs/heads");
    reveal_strlit("refs/tags");
    reveal_strlit("HEAD");
    reveal_strlit("description");
    reveal_strlit("config");
    lemma_join_parts(gitdir, "objects"@);
    lemma_join_parts(gitdir, "refs/heads"@);
    lemma_join_parts(gitdir, "refs/tags"@);
    lemma_join_parts(gitdir, "HEAD"@);
    lemma_join_parts(gitdir, "description"@);
    lemma_join_parts(gitdir, "config"@);
    let l = repository_layout(gitdir);
    assert forall|i: int, j: int|
        0 <= i < j < 7 implies layout_path(#[trigger] l[i]) != layout_path(#[trigger] l[j]) by {
        assert(layout_path(l[i]).len() != layout_path(l[j]).len());
    }
}

impl Repository {
    /// Opens the repository in the working tree `worktree`, whose Git
    /// directory is `worktree/.git`; `gitdir_exists` tells whether that
    /// directory exists, and without it there is no repository.
    pub fn new(worktree: String, gitdir_exists: bool) -> (r: Result<Repository, GitError>)
        ensures
            match r {
                Ok(repo) => {
                    &&& gitdir_exists
                    &&& repo.worktree@ == worktree@
                    &&& repo.gitdir@ == git_dir_of(worktree@)
                },
                Err(e) => !gitdir_exists && e@ == ErrorView::NotARepository,
            },
    {
        if !gitdir_exists {
            return Err(GitError::NotARepository);
        }
        let gitdir = gitdir_of(worktree.as_str());
        Ok(Repository { worktree, gitdir })
    }

    /// Starts a repository in the working tree `worktree`; its Git directory
    /// `worktree/.git` must not exist yet. What then has to be created is
    /// [`Repository::layout`].
    pub fn init(worktree: String, gitdir_exists: bool) -> (r: Result<Repository, GitError>)
        ensures
            match r {
                Ok(repo) => {
                    &&& !gitdir_exists
                    &&& repo.worktree@ == worktree@
                    &&& repo.gitdir@ == git_dir_of(worktree@)
                },
                Err(e) => gitdir_exists && e@ == ErrorView::RepositoryExists,
            },
    {
        if gitdir_exists {
            return Err(GitError::RepositoryExists);
        }
        let gitdir = gitdir_of(worktree.as_str());
        Ok(Repository { worktree, gitdir })
    }

    /// The directories and files of this new repository, in the order they
    /// are created.
    pub fn layout(&self) -> (r: Vec<LayoutEntry>)
        ensures
            r@.map_values(|e: LayoutEntry| e@) == repository_layout(self.gitdir@),
    {
        let g = self.gitdir.as_str();
        let mut r: Vec<LayoutEntry> = Vec::new();
        r.push(LayoutEntry::Dir(owned(g)));
        r.push(LayoutEntry::Dir(join_path(g, "objects")));
        r.push(LayoutEntry::Dir(join_path(g, "refs/heads")));
        r.push(LayoutEntry::Dir(join_path(g, "refs/tags")));
        r.push(LayoutEntry::File(join_path(g, "HEAD"), owned("ref: refs/heads/main\n")));
        r.push(
            LayoutEntry::File(
                join_path(g, "description"),
                owned(
                    "Unnamed repository; edit this file 'description' to name the repository.\n",
                ),
            ),
        );
        r.push(
            LayoutEntry::File(
                join_path(g, "config"),
                owned("[core]\n\trepositoryformatversion = 0\n\tfilemode = true\n\tbare = false\n"),
            ),
        );
        assert(r@.map_values(|e: LayoutEntry| e@) =~= repository_layout(self.gitdir@));
        r
    }

    /// The file that holds the object with id `hash`:
    /// `<gitdir>/objects/<first two bytes>/<rest>`; ids shorter than two
    /// bytes are refused.
    pub fn object_path(&self, hash: &str) -> (r: Result<String, GitError>)
        requires
            hash.spec_bytes().len() >= 2 ==> is_char_boundary(hash.spec_bytes(), 2),
        ensures
            match r {
                Ok(path) => hash.spec_bytes().len() >= 2 && path@ == object_file_path(
                    self.gitdir@,
                    hash.spec_bytes(),
                ),
                Err(e) => hash.spec_bytes().len() < 2 && e@ == ErrorView::HashTooShort,
            },
    {
        let location = object_location(hash)?;
        let objects = join_path(self.gitdir.as_str(), "objects");
        let dir = join_path(objects.as_str(), location.dir.as_str());
        Ok(join_path(dir.as_str(), location.file.as_str()))
    }
}

} // verus!

# git_rs

A small Git object store. The library (`src/`) holds the object format
(`<type> <size>\0<content>`), object ids (hexadecimal SHA-1 of the stored
form), zlib compression of stored objects, where a repository keeps its Git
directory and each object file (`<worktree>/.git/objects/<2>/<38>`, by the
Unix path-join rule), and the layout of a new repository, each with a
contract that Verus proves. SHA-1, hexadecimal encoding, zlib and UTF-8
validation are called through small trusted wrappers whose contracts their
doc comments state.

`app/` is the `git-rs` command line (`init`, `hash-object`, `cat-file`): it
checks which paths exist, reads and writes files, and hands the library
plain values.

use git_rs::commands::{cat_file, cat_file_size, cat_file_type, init};
use git_rs::crypto::id_from_digest;
use git_rs::error::GitError;
use git_rs::objects::{Object, ObjectType};
use git_rs::paths::join_path;
use git_rs::repository::{gitdir_of, object_location, LayoutEntry, Repository};

fn layout_paths(layout: Vec<LayoutEntry>) -> (Vec<String>, Vec<(String, String)>) {
    let mut dirs = Vec::new();
    let mut files = Vec::new();
    for entry in layout {
        match entry {
            LayoutEntry::Dir(p) => dirs.push(p),
            LayoutEntry::File(p, c) => files.push((p, c)),
        }
    }
    (dirs, files)
}

#[test]
fn test_init() {
    let layout = init("/tmp/work".to_string(), false).unwrap();
    let (dirs, _) = layout_paths(layout);
    assert!(dirs.contains(&"/tmp/work/.git".to_string()));
}

#[test]
fn test_repository_init() {
    let repo = Repository::init("/tmp/work".to_string(), false).unwrap();
    assert_eq!(repo.worktree, "/tmp/work");
    assert_eq!(repo.gitdir, "/tmp/work/.git");
    let (dirs, files) = layout_paths(repo.layout());
    assert!(dirs.contains(&"/tmp/work/.git".to_string()));
    assert!(dirs.contains(&"/tmp/work/.git/objects".to_string()));
    assert!(dirs.contains(&"/tmp/work/.git/refs/heads".to_string()));
    assert!(dirs.contains(&"/tmp/work/.git/refs/tags".to_string()));
    assert!(files.iter().any(|(p, _)| p == "/tmp/work/.git/HEAD"));
    assert!(files.iter().any(|(p, _)| p == "/tmp/work/.git/config"));
}

#[test]
fn test_cat_file_type() {
    let object = Object::new(ObjectType::Blob, b"test content".to_vec());
    let stored = object.compress().unwrap();
    let obj_type = cat_file_type(&stored).unwrap();
    assert_eq!(obj_type, "blob");
}

#[test]
fn test_cat_file_size() {
    let object = Object::new(ObjectType::Blob, b"test content".to_vec());
    let stored = object.compress().unwrap();
    let size = cat_file_size(&stored).unwrap();
    assert_eq!(size, 12); // "test content" is 12 bytes
}

#[test]
fn new_needs_a_git_directory() {
    let repo = Repository::new("w".to_string(), true).unwrap();
    assert_eq!(repo.worktree, "w");
    assert_eq!(repo.gitdir, "w/.git");
    assert!(matches!(
        Repository::new("w".to_string(), false),
        Err(GitError::NotARepository)
    ));
}

#[test]
fn init_refuses_an_existing_repository() {
    assert!(matches!(
        Repository::init("w".to_string(), true),
        Err(GitError::RepositoryExists)
    ));
    assert!(matches!(init("w".to_string(), true), Err(GitError::RepositoryExists)));
}

#[test]
fn gitdir_follows_path_join() {
    assert_eq!(gitdir_of("."), "./.git");
    assert_eq!(gitdir_of("w/"), "w/.git");
    assert_eq!(gitdir_of(""), ".git");
}

#[test]
fn join_path_follows_unix_rules() {
    assert_eq!(join_path("a", "b"), "a/b");
    assert_eq!(join_path("a/", "b"), "a/b");
    assert_eq!(join_path("", "b"), "b");
    assert_eq!(join_path("a", "/b"), "/b");
    assert_eq!(join_path("a", ""), "a/");
    assert_eq!(join_path("é", "ü"), "é/ü");
}

#[test]
fn layout_of_a_new_repository() {
    let layout = init("w".to_string(), false).unwrap();
    let (dirs, files) = layout_paths(layout);
    assert_eq!(dirs, vec!["w/.git", "w/.git/objects", "w/.git/refs/heads", "w/.git/refs/tags"]);
    assert_eq!(
        files[0],
        ("w/.git/HEAD".to_string(), "ref: refs/heads/main\n".to_string())
    );
    assert_eq!(
        files[1],
        (
            "w/.git/description".to_string(),
            "Unnamed repository; edit this file 'description' to name the repository.\n"
                .to_string()
        )
    );
    assert_eq!(
        files[2],
        (
            "w/.git/config".to_string(),
            "[core]\n\trepositoryformatversion = 0\n\tfilemode = true\n\tbare = false\n"
                .to_string()
        )
    );
}

#[test]
fn object_location_splits_after_two_bytes() {
    let p = object_location("95d09f2b10159347eece71399a7e2e907ea3df4f").unwrap();
    assert_eq!(p.dir, "95");
    assert_eq!(p.file, "d09f2b10159347eece71399a7e2e907ea3df4f");
    let q = object_location("ab").unwrap();
    assert_eq!(q.dir, "ab");
    assert_eq!(q.file, "");
}

#[test]
fn object_path_is_under_objects() {
    let repo = Repository::new("w".to_string(), true).unwrap();
    assert_eq!(
        repo.object_path("95d09f2b10159347eece71399a7e2e907ea3df4f").unwrap(),
        "w/.git/objects/95/d09f2b10159347eece71399a7e2e907ea3df4f"
    );
}

#[test]
fn object_path_refuses_short_ids() {
    let repo = Repository::new("w".to_string(), true).unwrap();
    assert!(matches!(repo.object_path("a"), Err(GitError::HashTooShort)));
    assert!(matches!(repo.object_path(""), Err(GitError::HashTooShort)));
    assert!(matches!(object_location("a"), Err(GitError::HashTooShort)));
}

#[test]
fn id_of_an_object_is_a_valid_object_path() {
    let id = Object::new(ObjectType::Blob, b"test content".to_vec()).hash();
    let p = object_location(&id).unwrap();
    assert_eq!(format!("{}{}", p.dir, p.file), id);
    assert_eq!(p.dir.len(), 2);
    assert_eq!(p.file.len(), 38);
}

#[test]
fn id_from_digest_spells_bytes_in_lowercase_hex() {
    assert_eq!(id_from_digest(&[0x00, 0x0f, 0xa0, 0xff]), "000fa0ff");
    assert_eq!(id_from_digest(&[]), "");
}

#[test]
fn cat_commands_read_back_a_stored_object() {
    let obj = Object::new(ObjectType::Blob, b"test content".to_vec());
    let stored = obj.compress().unwrap();
    assert_eq!(cat_file_type(&stored).unwrap(), "blob");
    assert_eq!(cat_file_size(&stored).unwrap(), 12);
    assert_eq!(cat_file(&stored).unwrap(), b"test content".to_vec());
    let tag = Object::new(ObjectType::Tag, Vec::new()).compress().unwrap();
    assert_eq!(cat_file_type(&tag).unwrap(), "tag");
    assert_eq!(cat_file_size(&tag).unwrap(), 0);
}

#[test]
fn cat_commands_report_bad_objects() {
    assert!(matches!(cat_file_type(b"junk"), Err(GitError::DecompressFailed)));
    assert!(matches!(cat_file_size(b"junk"), Err(GitError::DecompressFailed)));
    let mut bad = Object::new(ObjectType::Blob, Vec::new()).compress().unwrap();
    bad.truncate(2);
    assert!(cat_file(&bad).is_err());
}

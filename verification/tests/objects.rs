use git_rs::error::GitError;
use git_rs::objects::{Object, ObjectType};

#[test]
fn test_object_type_from_str() {
    assert_eq!(ObjectType::from_str("blob").unwrap(), ObjectType::Blob);
    assert_eq!(ObjectType::from_str("tree").unwrap(), ObjectType::Tree);
    assert_eq!(ObjectType::from_str("commit").unwrap(), ObjectType::Commit);
    assert_eq!(ObjectType::from_str("tag").unwrap(), ObjectType::Tag);
    assert!(ObjectType::from_str("invalid").is_err());
}

#[test]
fn test_object_serialize_deserialize() {
    let data = b"hello world".to_vec();
    let obj = Object::new(ObjectType::Blob, data.clone());
    let serialized = obj.serialize();
    let deserialized = Object::deserialize(&serialized).unwrap();

    assert_eq!(deserialized.obj_type, ObjectType::Blob);
    assert_eq!(deserialized.data, data);
}

#[test]
fn test_object_hash() {
    let data = b"hello world".to_vec();
    let obj = Object::new(ObjectType::Blob, data);
    let hash = obj.hash();

    // The SHA-1 of "blob 11\0hello world".
    assert_eq!(hash, "95d09f2b10159347eece71399a7e2e907ea3df4f");
}

#[test]
fn test_object_compress_decompress() {
    let data = b"hello world".to_vec();
    let obj = Object::new(ObjectType::Blob, data.clone());
    let compressed = obj.compress().unwrap();
    let decompressed = Object::decompress(&compressed).unwrap();

    assert_eq!(decompressed.obj_type, ObjectType::Blob);
    assert_eq!(decompressed.data, data);
}

#[test]
fn from_str_error_names_the_input() {
    match ObjectType::from_str("Blob") {
        Err(GitError::UnknownObjectType(name)) => assert_eq!(name, b"Blob".to_vec()),
        other => panic!("unexpected {:?}", other),
    }
    assert!(ObjectType::from_str("").is_err());
    assert!(ObjectType::from_str("blob ").is_err());
}

#[test]
fn as_str_names_each_type() {
    assert_eq!(ObjectType::Blob.as_str(), "blob");
    assert_eq!(ObjectType::Tree.as_str(), "tree");
    assert_eq!(ObjectType::Commit.as_str(), "commit");
    assert_eq!(ObjectType::Tag.as_str(), "tag");
}

#[test]
fn name_round_trip_for_every_type() {
    for t in [ObjectType::Blob, ObjectType::Tree, ObjectType::Commit, ObjectType::Tag] {
        assert_eq!(ObjectType::from_str(t.as_str()).unwrap(), t);
    }
}

#[test]
fn serialize_writes_header_then_content() {
    let obj = Object::new(ObjectType::Blob, b"hello world".to_vec());
    assert_eq!(obj.serialize(), b"blob 11\0hello world".to_vec());
    let empty = Object::new(ObjectType::Tree, Vec::new());
    assert_eq!(empty.serialize(), b"tree 0\0".to_vec());
    let commit = Object::new(ObjectType::Commit, vec![0u8; 1234]);
    let mut expected = b"commit 1234\0".to_vec();
    expected.extend_from_slice(&[0u8; 1234]);
    assert_eq!(commit.serialize(), expected);
}

#[test]
fn serialize_deserialize_round_trip_for_every_type() {
    let contents: [&[u8]; 4] = [b"", b"a", b"with\0nul and space", b"0123456789"];
    for t in [ObjectType::Blob, ObjectType::Tree, ObjectType::Commit, ObjectType::Tag] {
        for c in contents.iter() {
            let obj = Object::new(t.clone(), c.to_vec());
            let back = Object::deserialize(&obj.serialize()).unwrap();
            assert_eq!(back.obj_type, t);
            assert_eq!(back.data, c.to_vec());
        }
    }
}

#[test]
fn deserialize_without_nul_fails() {
    assert!(matches!(Object::deserialize(b"blob 3abc"), Err(GitError::NoNullByte)));
    assert!(matches!(Object::deserialize(b""), Err(GitError::NoNullByte)));
}

#[test]
fn deserialize_rejects_non_utf8_header() {
    assert!(matches!(
        Object::deserialize(b"blob \xff\0"),
        Err(GitError::InvalidUtf8Header)
    ));
}

#[test]
fn deserialize_rejects_malformed_headers() {
    assert!(matches!(Object::deserialize(b"blob\0"), Err(GitError::InvalidHeaderFormat)));
    assert!(matches!(Object::deserialize(b"\0"), Err(GitError::InvalidHeaderFormat)));
    assert!(matches!(
        Object::deserialize(b"blob 1 1\0x"),
        Err(GitError::InvalidHeaderFormat)
    ));
    assert!(matches!(
        Object::deserialize(b"blob  1\0x"),
        Err(GitError::InvalidHeaderFormat)
    ));
}

#[test]
fn deserialize_rejects_unknown_type() {
    match Object::deserialize(b"blub 1\0x") {
        Err(GitError::UnknownObjectType(name)) => assert_eq!(name, b"blub".to_vec()),
        other => panic!("unexpected {:?}", other),
    }
    assert!(matches!(
        Object::deserialize(b"\xc3\xa9 1\0x"),
        Err(GitError::UnknownObjectType(_))
    ));
}

#[test]
fn deserialize_reads_sizes_as_usize_does() {
    assert!(matches!(Object::deserialize(b"blob x\0"), Err(GitError::InvalidSize)));
    assert!(matches!(Object::deserialize(b"blob \0"), Err(GitError::InvalidSize)));
    assert!(matches!(Object::deserialize(b"blob -1\0x"), Err(GitError::InvalidSize)));
    assert!(matches!(Object::deserialize(b"blob +\0"), Err(GitError::InvalidSize)));
    assert!(matches!(
        Object::deserialize(b"blob 99999999999999999999999\0"),
        Err(GitError::InvalidSize)
    ));
    let plus = Object::deserialize(b"blob +3\0abc").unwrap();
    assert_eq!(plus.data, b"abc".to_vec());
    let zeros = Object::deserialize(b"tag 0003\0abc").unwrap();
    assert_eq!(zeros.obj_type, ObjectType::Tag);
    assert_eq!(zeros.data, b"abc".to_vec());
}

#[test]
fn deserialize_reports_size_mismatch() {
    match Object::deserialize(b"blob 5\0abc") {
        Err(GitError::SizeMismatch { expected, got }) => {
            assert_eq!(expected, 5);
            assert_eq!(got, 3);
        }
        other => panic!("unexpected {:?}", other),
    }
}

#[test]
fn content_may_hold_nul_bytes() {
    let obj = Object::deserialize(b"blob 3\0\0a\0").unwrap();
    assert_eq!(obj.data, vec![0u8, b'a', 0u8]);
}

#[test]
fn hash_of_empty_blob() {
    let obj = Object::new(ObjectType::Blob, Vec::new());
    assert_eq!(obj.hash(), "e69de29bb2d1d6434b8b29ae775ad8c2e48c5391");
}

#[test]
fn hash_is_forty_lowercase_hex_digits() {
    let obj = Object::new(ObjectType::Commit, b"tree 1234\n".to_vec());
    let id = obj.hash();
    assert_eq!(id.len(), 40);
    assert!(id.chars().all(|c| c.is_ascii_digit() || ('a'..='f').contains(&c)));
    let other = Object::new(ObjectType::Blob, b"tree 1234\n".to_vec());
    assert_ne!(id, other.hash());
}

#[test]
fn compressed_form_differs_from_stored_form() {
    let obj = Object::new(ObjectType::Blob, b"hello world".to_vec());
    let compressed = obj.compress().unwrap();
    assert_ne!(compressed, obj.serialize());
}

#[test]
fn compress_round_trip_for_every_type() {
    for t in [ObjectType::Blob, ObjectType::Tree, ObjectType::Commit, ObjectType::Tag] {
        let data: Vec<u8> = (0..=255u8).cycle().take(5000).collect();
        let obj = Object::new(t.clone(), data.clone());
        let back = Object::decompress(&obj.compress().unwrap()).unwrap();
        assert_eq!(back.obj_type, t);
        assert_eq!(back.data, data);
    }
}

#[test]
fn decompress_rejects_non_zlib_bytes() {
    assert!(matches!(
        Object::decompress(b"blob 11\0hello world"),
        Err(GitError::DecompressFailed)
    ));
}

#[test]
fn distinct_objects_have_distinct_stored_forms() {
    let a = Object::new(ObjectType::Blob, b"1".to_vec()).serialize();
    let b = Object::new(ObjectType::Tree, b"1".to_vec()).serialize();
    let c = Object::new(ObjectType::Blob, b"2".to_vec()).serialize();
    let d = Object::new(ObjectType::Blob, b"12".to_vec()).serialize();
    assert_ne!(a, b);
    assert_ne!(a, c);
    assert_ne!(a, d);
}

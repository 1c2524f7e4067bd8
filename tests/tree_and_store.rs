use rit::errors::{LSTreeError, ObjectError};
use rit::locate::{find_hash, shard_dir, split_id};
use rit::tree::{decode_tree, ls_tree};
use rit::types::{GitObject, ObjectType};

fn entry(mode: &str, name: &str, id: &[u8; 20]) -> Vec<u8> {
    let mut v = mode.as_bytes().to_vec();
    v.push(b' ');
    v.extend_from_slice(name.as_bytes());
    v.push(0);
    v.extend_from_slice(id);
    v
}

#[test]
fn tree_decode_single_file_entry() {
    let b: [u8; 20] = [
        0x00, 0x11, 0x22, 0x33, 0x44, 0x55, 0x66, 0x77, 0x88, 0x99, 0xaa, 0xbb, 0xcc, 0xdd, 0xee,
        0xff, 0x01, 0x20, 0x0a, 0xfe,
    ];
    let payload = entry("100644", "file.txt", &b);
    let entries = decode_tree(&payload).unwrap();
    assert_eq!(entries.len(), 1);
    assert_eq!(entries[0].mode, "100644");
    assert_eq!(entries[0].name, "file.txt");
    assert_eq!(entries[0].child_id, "00112233445566778899aabbccddeeff01200afe");
    assert_eq!(entries[0].object_type, ObjectType::Blob);
}

#[test]
fn tree_decode_empty_payload_is_empty_tree() {
    assert_eq!(decode_tree(&[]).unwrap().len(), 0);
}

#[test]
fn tree_decode_truncated_identifier_is_malformed() {
    let mut payload = b"100644 file.txt\x00".to_vec();
    assert_eq!(decode_tree(&payload).unwrap_err(), ObjectError::InvalidObject);
    payload.extend_from_slice(&[7u8; 19]);
    assert_eq!(decode_tree(&payload).unwrap_err(), ObjectError::InvalidObject);
}

#[test]
fn tree_decode_missing_delimiters_is_malformed() {
    assert_eq!(decode_tree(b"100644").unwrap_err(), ObjectError::InvalidObject);
    assert_eq!(decode_tree(b"100644 file.txt").unwrap_err(), ObjectError::InvalidObject);
}

#[test]
fn tree_decode_rejects_invalid_utf8_name() {
    let mut payload = b"100644 a\xffb\x00".to_vec();
    payload.extend_from_slice(&[1u8; 20]);
    assert_eq!(decode_tree(&payload).unwrap_err(), ObjectError::InvalidObject);
}

#[test]
fn tree_decode_keeps_storage_order_and_classifies_subtrees() {
    let mut payload = entry("100644", "zeta", &[1u8; 20]);
    payload.extend(entry("40000", "alpha", &[2u8; 20]));
    payload.extend(entry("100755", "run.sh", &[3u8; 20]));
    let entries = decode_tree(&payload).unwrap();
    assert_eq!(entries.len(), 3);
    assert_eq!(entries[0].name, "zeta");
    assert_eq!(entries[1].name, "alpha");
    assert_eq!(entries[1].object_type, ObjectType::Tree);
    assert_eq!(entries[1].child_id, "0202020202020202020202020202020202020202");
    assert_eq!(entries[2].mode, "100755");
    assert_eq!(entries[2].object_type, ObjectType::Blob);
}

#[test]
fn pretty_print_renders_tree_lines() {
    let mut payload = entry("40000", "dir", &[0xabu8; 20]);
    payload.extend(entry("100644", "a.txt", &[0x01u8; 20]));
    let tree = GitObject::new(ObjectType::Tree, payload);
    let text = tree.pretty_print().unwrap();
    assert_eq!(
        text,
        "40000  tree abababababababababababababababababababab dir\n\
         100644 blob 0101010101010101010101010101010101010101 a.txt\n"
    );
}

#[test]
fn ls_tree_lists_names_only() {
    let mut payload = entry("40000", "dir", &[0xabu8; 20]);
    payload.extend(entry("100644", "a.txt", &[0x01u8; 20]));
    let tree = GitObject::new(ObjectType::Tree, payload);
    assert_eq!(ls_tree(&tree, true).unwrap(), "dir\na.txt\n");
    assert_eq!(
        ls_tree(&tree, false).unwrap(),
        "40000  tree abababababababababababababababababababab dir\n\
         100644 blob 0101010101010101010101010101010101010101 a.txt\n"
    );
}

#[test]
fn ls_tree_shows_other_objects_as_pretty_print_does() {
    let blob = GitObject::new(ObjectType::Blob, b"hello".to_vec());
    assert_eq!(ls_tree(&blob, false).unwrap(), "hello");
    assert_eq!(ls_tree(&blob, true).unwrap(), "hello");
    let not_text = GitObject::new(ObjectType::Blob, vec![0xffu8]);
    assert_eq!(ls_tree(&not_text, false).unwrap_err(), LSTreeError::InvalidObject);
    let commit = GitObject::new(ObjectType::Commit, b"tree x".to_vec());
    assert_eq!(ls_tree(&commit, false).unwrap_err(), LSTreeError::InvalidObject);
    let bad = GitObject::new(ObjectType::Tree, b"100644 x\x00abc".to_vec());
    assert_eq!(ls_tree(&bad, false).unwrap_err(), LSTreeError::InvalidObject);
    assert_eq!(ls_tree(&bad, true).unwrap_err(), LSTreeError::InvalidObject);
}

#[test]
fn pretty_print_blob_and_unsupported_kinds() {
    let blob = GitObject::new(ObjectType::Blob, b"hello".to_vec());
    assert_eq!(blob.pretty_print().unwrap(), "hello");
    let bad = GitObject::new(ObjectType::Blob, vec![0xffu8, 0xfe]);
    assert_eq!(bad.pretty_print().unwrap_err(), ObjectError::InvalidObject);
    let commit = GitObject::new(ObjectType::Commit, b"tree x".to_vec());
    assert_eq!(commit.pretty_print().unwrap_err(), ObjectError::Unsupported);
    let tag = GitObject::new(ObjectType::Tag, vec![]);
    assert_eq!(tag.pretty_print().unwrap_err(), ObjectError::Unsupported);
}

#[test]
fn put_then_get_blob_hello() {
    let o = GitObject::new(ObjectType::Blob, b"hello".to_vec());
    let stored = o.to_stored();
    assert_eq!(stored.id, "b6fc4c620b67d95f953a5c1c1230aaab5db5a1b0");
    assert_eq!(stored.dir, "b6");
    assert_eq!(stored.file, "fc4c620b67d95f953a5c1c1230aaab5db5a1b0");
    let names = vec![stored.file.clone()];
    let i = find_hash(&stored.id, &names).unwrap();
    assert_eq!(i, 0);
    let back = GitObject::from_compressed(&stored.data).unwrap();
    assert_eq!(back.pretty_print().unwrap(), "hello");
    assert_eq!(back.hash(), stored.id);
}

#[test]
fn put_is_idempotent() {
    let a = GitObject::new(ObjectType::Blob, b"same".to_vec()).to_stored();
    let b = GitObject::new(ObjectType::Blob, b"same".to_vec()).to_stored();
    assert_eq!(a.id, b.id);
    assert_eq!(a.data, b.data);
}

fn shard_names() -> Vec<String> {
    vec![
        "c123".to_string() + &"0".repeat(34),
        "c124".to_string() + &"0".repeat(34),
        "ffff".to_string() + &"1".repeat(34),
    ]
}

#[test]
fn prefix_resolution_ambiguous_unique_and_too_short() {
    let names = shard_names();
    assert_eq!(
        find_hash("abc1", &names).unwrap_err(),
        ObjectError::MultipleObjectsFound("abc1".to_string())
    );
    assert_eq!(find_hash("abc123", &names).unwrap(), 0);
    assert_eq!(find_hash("abc124", &names).unwrap(), 1);
    assert_eq!(find_hash("a", &names).unwrap_err(), ObjectError::InvalidHashLength("a".to_string()));
    assert_eq!(find_hash("", &names).unwrap_err(), ObjectError::InvalidHashLength(String::new()));
    let long = "a".repeat(41);
    assert_eq!(find_hash(&long, &names).unwrap_err(), ObjectError::InvalidHashLength(long.clone()));
}

#[test]
fn prefix_resolution_not_found() {
    let names = shard_names();
    assert_eq!(find_hash("abc125", &names).unwrap_err(), ObjectError::NotFound("abc125".to_string()));
    assert_eq!(find_hash("ab", &Vec::<String>::new()).unwrap_err(), ObjectError::NotFound("ab".to_string()));
    assert_eq!(find_hash("abZ1", &names).unwrap_err(), ObjectError::NotFound("abZ1".to_string()));
}

#[test]
fn full_identifier_matches_exact_file_only() {
    let full = "ab".to_string() + &names_first();
    let mut names = shard_names();
    names.push(names_first() + ".tmp");
    assert_eq!(find_hash(&full, &names).unwrap(), 0);
    let abbreviated = &full[..39];
    assert!(matches!(
        find_hash(abbreviated, &names),
        Err(ObjectError::MultipleObjectsFound(_))
    ));
}

fn names_first() -> String {
    shard_names()[0].clone()
}

#[test]
fn shard_dir_and_split_id() {
    assert_eq!(shard_dir("abc1").unwrap(), "ab");
    assert_eq!(shard_dir("a").unwrap_err(), ObjectError::InvalidHashLength("a".to_string()));
    assert_eq!(shard_dir("../x").unwrap_err(), ObjectError::NotFound("../x".to_string()));
    let (d, f) = split_id("b6fc4c620b67d95f953a5c1c1230aaab5db5a1b0");
    assert_eq!(d, "b6");
    assert_eq!(f, "fc4c620b67d95f953a5c1c1230aaab5db5a1b0");
}

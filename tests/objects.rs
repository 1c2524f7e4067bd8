use rit::errors::ObjectError;
use rit::scan::{parse_numeral, push_numeral};
use rit::types::{GitObject, ObjectType};

#[test]
fn test_cat_file() {
    let result = GitObject::from_file(b"blob 5\x00hello");
    assert!(result.is_ok());
    let object = result.unwrap();
    assert_eq!(object.object_type, ObjectType::Blob);
    assert!(object.object_size == 5);
    assert!(object.object_content == b"hello");
}

#[test]
fn encode_writes_header_then_payload() {
    let o = GitObject::new(ObjectType::Blob, b"hello".to_vec());
    assert_eq!(o.encode(), b"blob 5\x00hello".to_vec());
    let t = GitObject::new(ObjectType::Tree, vec![]);
    assert_eq!(t.encode(), b"tree 0\x00".to_vec());
    let c = GitObject::new(ObjectType::Commit, vec![7u8; 123]);
    assert_eq!(&c.encode()[..11], b"commit 123\x00");
    let g = GitObject::new(ObjectType::Tag, b"x".to_vec());
    assert_eq!(g.encode(), b"tag 1\x00x".to_vec());
}

#[test]
fn decode_of_encode_round_trips_every_kind() {
    for kind in [ObjectType::Blob, ObjectType::Tree, ObjectType::Commit, ObjectType::Tag] {
        for content in [vec![], b"hello".to_vec(), vec![0u8, 32, 0, 255, 10], vec![1u8; 1000]] {
            let o = GitObject::new(kind, content.clone());
            let back = GitObject::from_file(&o.encode()).unwrap();
            assert_eq!(back.object_type, kind);
            assert_eq!(back.object_size, content.len());
            assert_eq!(back.object_content, content);
        }
    }
}

#[test]
fn hash_matches_known_identifiers() {
    let hello = GitObject::new(ObjectType::Blob, b"hello".to_vec());
    assert_eq!(hello.hash(), "b6fc4c620b67d95f953a5c1c1230aaab5db5a1b0");
    let empty = GitObject::new(ObjectType::Blob, vec![]);
    assert_eq!(empty.hash(), "e69de29bb2d1d6434b8b29ae775ad8c2e48c5391");
    let empty_tree = GitObject::new(ObjectType::Tree, vec![]);
    assert_eq!(empty_tree.hash(), "4b825dc642cb6eb9a060e54bf8d69288fbee4904");
}

#[test]
fn hash_is_deterministic_and_content_sensitive() {
    let a = GitObject::new(ObjectType::Blob, b"hello".to_vec());
    let b = GitObject::new(ObjectType::Blob, b"hello".to_vec());
    assert_eq!(a.hash(), b.hash());
    assert_eq!(a.hash(), a.hash());
    let c = GitObject::new(ObjectType::Blob, b"hellp".to_vec());
    assert_ne!(a.hash(), c.hash());
    let d = GitObject::new(ObjectType::Tree, b"hello".to_vec());
    assert_ne!(a.hash(), d.hash());
    assert_eq!(a.hash().len(), 40);
}

#[test]
fn rehashing_a_decoded_object_recovers_its_identifier() {
    let o = GitObject::new(ObjectType::Commit, b"tree abc\nparent def\n".to_vec());
    let back = GitObject::from_file(&o.encode()).unwrap();
    assert_eq!(back.hash(), o.hash());
}

#[test]
fn decode_ignores_bytes_beyond_declared_size() {
    let o = GitObject::from_file(b"blob 3\x00abcdef").unwrap();
    assert_eq!(o.object_size, 3);
    assert_eq!(o.object_content, b"abc".to_vec());
}

#[test]
fn decode_without_nul_is_malformed() {
    assert_eq!(GitObject::from_file(b"blob 5hello").unwrap_err(), ObjectError::InvalidObject);
    assert_eq!(GitObject::from_file(b"").unwrap_err(), ObjectError::InvalidObject);
}

#[test]
fn decode_without_space_is_malformed() {
    assert_eq!(GitObject::from_file(b"blob5\x00hello").unwrap_err(), ObjectError::InvalidObject);
}

#[test]
fn decode_with_bad_size_is_malformed() {
    assert_eq!(GitObject::from_file(b"blob x\x00hello").unwrap_err(), ObjectError::InvalidObject);
    assert_eq!(GitObject::from_file(b"blob \x00hello").unwrap_err(), ObjectError::InvalidObject);
    assert_eq!(GitObject::from_file(b"blob -1\x00").unwrap_err(), ObjectError::InvalidObject);
    assert_eq!(
        GitObject::from_file(b"blob 99999999999999999999999\x00").unwrap_err(),
        ObjectError::InvalidObject
    );
    assert_eq!(
        GitObject::from_file(b"bogus 99999999999999999999999\x00").unwrap_err(),
        ObjectError::InvalidObject
    );
}

#[test]
fn decode_with_invalid_header_text_is_malformed() {
    assert_eq!(
        GitObject::from_file(b"bl\xffb 1\x00a").unwrap_err(),
        ObjectError::InvalidObject
    );
}

#[test]
fn decode_with_unknown_kind_fails() {
    assert_eq!(GitObject::from_file(b"blab 5\x00hello").unwrap_err(), ObjectError::UnknownObjectKind);
    assert_eq!(GitObject::from_file(b"Blob 5\x00hello").unwrap_err(), ObjectError::UnknownObjectKind);
}

#[test]
fn decode_short_payload_is_malformed() {
    assert_eq!(GitObject::from_file(b"blob 6\x00hello").unwrap_err(), ObjectError::InvalidObject);
}

#[test]
fn compressed_form_round_trips() {
    let o = GitObject::new(ObjectType::Blob, b"hello hello hello hello".to_vec());
    let z = o.compressed();
    assert_ne!(z, o.encode());
    let back = GitObject::from_compressed(&z).unwrap();
    assert_eq!(back.object_type, ObjectType::Blob);
    assert_eq!(back.object_content, o.object_content);
}

#[test]
fn corrupt_compressed_stream_is_a_file_error() {
    let r = GitObject::from_compressed(b"definitely not zlib");
    assert!(matches!(r, Err(ObjectError::File(_))));
}

#[test]
fn numerals_render_and_parse() {
    let mut out = b"x".to_vec();
    push_numeral(0, &mut out);
    push_numeral(1205, &mut out);
    assert_eq!(out, b"x01205".to_vec());
    assert_eq!(parse_numeral(b"1205"), Some(1205));
    assert_eq!(parse_numeral(b""), None);
    assert_eq!(parse_numeral(b"+5"), None);
    assert_eq!(parse_numeral(b"18446744073709551615"), Some(usize::MAX));
    assert_eq!(parse_numeral(b"18446744073709551616"), None);
}

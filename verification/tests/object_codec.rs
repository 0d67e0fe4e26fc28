use git_objects::{decode_object, encode_object, GitBlob, GitObject, GitObjectType, GitTree,
    GitTreeLeaf, StoreError};

fn blob(data: &[u8]) -> GitBlob {
    GitBlob { blob_data: data.to_vec() }
}

#[test]
fn blob_envelope_is_kind_length_nul_payload() {
    assert_eq!(encode_object(&blob(b"what is up, doc?")), b"blob 16\0what is up, doc?".to_vec());
    assert_eq!(encode_object(&blob(b"a")), b"blob 1\0a".to_vec());
}

#[test]
fn empty_blob_envelope() {
    assert_eq!(encode_object(&blob(b"")), b"blob 0\0".to_vec());
    assert_eq!(decode_object(b"blob 0\0"), Ok(GitObjectType::Blob(blob(b""))));
}

#[test]
fn envelope_length_is_decimal() {
    let envelope = encode_object(&blob(&[b'x'; 1234]));
    assert_eq!(&envelope[..10], b"blob 1234\0");
    assert_eq!(envelope.len(), 10 + 1234);
}

#[test]
fn blob_methods() {
    let mut object = blob(b"abc");
    assert_eq!(object.fmt(), b"blob");
    assert_eq!(object.serialize(), b"abc".to_vec());
    assert_eq!(object.deserialize(b"de\0f"), Ok(()));
    assert_eq!(object.blob_data, b"de\0f".to_vec());
}

#[test]
fn tree_methods() {
    let mut tree = GitTree { leaves: Vec::new() };
    assert_eq!(tree.fmt(), b"tree");
    assert_eq!(tree.serialize(), Vec::<u8>::new());
    let mut payload = b"100644 f\0".to_vec();
    payload.extend_from_slice(&[0xab; 20]);
    assert_eq!(tree.deserialize(&payload), Ok(()));
    assert_eq!(tree.leaves.len(), 1);
    assert_eq!(tree.leaves[0].path, "f");
    assert_eq!(tree.deserialize(b"100644 f"), Err(StoreError::TruncatedTreeEntry));
    assert_eq!(tree.leaves.len(), 1);
    assert_eq!(tree.leaves[0].path, "f");
}

#[test]
fn decode_gives_the_blob_back() {
    let contents: [&[u8]; 6] =
        [b"", b"a", b"what is up, doc?", b"\0", b"one two\0three  \0\0", &[0xff, 0x00, 0x20, 0x80]];
    for content in contents {
        let envelope = encode_object(&blob(content));
        assert_eq!(decode_object(&envelope), Ok(GitObjectType::Blob(blob(content))));
    }
}

#[test]
fn decode_does_not_scan_the_payload() {
    assert_eq!(decode_object(b"blob 5\0\0 \0 \0"), Ok(GitObjectType::Blob(blob(b"\0 \0 \0"))));
}

#[test]
fn decode_does_not_consult_the_length() {
    assert_eq!(decode_object(b"blob 999\0abc"), Ok(GitObjectType::Blob(blob(b"abc"))));
    assert_eq!(decode_object(b"blob \0abc"), Ok(GitObjectType::Blob(blob(b"abc"))));
    assert_eq!(decode_object(b"blob x y\0abc"), Ok(GitObjectType::Blob(blob(b"abc"))));
}

#[test]
fn decode_rejects_an_envelope_without_space() {
    assert_eq!(decode_object(b""), Err(StoreError::MalformedEnvelope));
    assert_eq!(decode_object(b"blob"), Err(StoreError::MalformedEnvelope));
    assert_eq!(decode_object(b"blob\0abc"), Err(StoreError::MalformedEnvelope));
}

#[test]
fn decode_rejects_an_envelope_without_nul_after_the_space() {
    assert_eq!(decode_object(b"blob 3"), Err(StoreError::MalformedEnvelope));
    assert_eq!(decode_object(b"blob 3abc"), Err(StoreError::MalformedEnvelope));
    assert_eq!(decode_object(b"blob\0 3"), Err(StoreError::MalformedEnvelope));
    assert_eq!(decode_object(b"commit 3"), Err(StoreError::MalformedEnvelope));
}

#[test]
fn decode_rejects_an_unknown_kind() {
    assert_eq!(decode_object(b"commit 3\0abc"), Err(StoreError::UnknownObjectKind));
    assert_eq!(decode_object(b"Blob 3\0abc"), Err(StoreError::UnknownObjectKind));
    assert_eq!(decode_object(b"blobs 3\0abc"), Err(StoreError::UnknownObjectKind));
    assert_eq!(decode_object(b"blo 3\0abc"), Err(StoreError::UnknownObjectKind));
    assert_eq!(decode_object(b" 3\0abc"), Err(StoreError::UnknownObjectKind));
}

#[test]
fn decode_reads_a_tree() {
    let mut envelope = b"tree 33\0100644 a.txt\0".to_vec();
    envelope.extend_from_slice(&(0..20u8).collect::<Vec<u8>>());
    let expected = GitTree {
        leaves: vec![GitTreeLeaf {
            mode: b"100644".to_vec(),
            path: String::from("a.txt"),
            sha_hash: String::from("000102030405060708090a0b0c0d0e0f10111213"),
        }],
    };
    assert_eq!(decode_object(&envelope), Ok(GitObjectType::Tree(expected)));
    assert_eq!(decode_object(b"tree 0\0"), Ok(GitObjectType::Tree(GitTree { leaves: vec![] })));
}

#[test]
fn decode_passes_on_the_error_of_a_tree_payload() {
    assert_eq!(decode_object(b"tree 8\0100644 a"), Err(StoreError::TruncatedTreeEntry));
    assert_eq!(decode_object(b"tree 9\0100644 a\0"), Err(StoreError::TruncatedTreeEntry));
    assert_eq!(decode_object(b"tree 5\0abc a"), Err(StoreError::MalformedEnvelope));
}

#[test]
fn tree_envelope_wraps_the_sorted_payload() {
    let tree = GitTree {
        leaves: vec![GitTreeLeaf {
            mode: b"100644".to_vec(),
            path: String::from("a.txt"),
            sha_hash: String::from("000102030405060708090a0b0c0d0e0f10111213"),
        }],
    };
    let mut expected = b"tree 33\0100644 a.txt\0".to_vec();
    expected.extend_from_slice(&(0..20u8).collect::<Vec<u8>>());
    assert_eq!(encode_object(&tree), expected);
    assert_eq!(decode_object(&expected), Ok(GitObjectType::Tree(tree)));
}

use git_objects::tree::order::canonical_indices;
use git_objects::{tree_leaf_sort_key, tree_parse, tree_parse_one, GitObject, GitTree, GitTreeLeaf,
    StoreError};

const HASH_A: &str = "000102030405060708090a0b0c0d0e0f10111213";
const HASH_B: &str = "ffeeddccbbaa99887766554433221100ffeeddcc";
const RAW_A: [u8; 20] = [0, 1, 2, 3, 4, 5, 6, 7, 8, 9, 10, 11, 12, 13, 14, 15, 16, 17, 18, 19];
const RAW_B: [u8; 20] = [
    0xff, 0xee, 0xdd, 0xcc, 0xbb, 0xaa, 0x99, 0x88, 0x77, 0x66, 0x55, 0x44, 0x33, 0x22, 0x11, 0x00,
    0xff, 0xee, 0xdd, 0xcc,
];

fn leaf(mode: &str, path: &str, hash: &str) -> GitTreeLeaf {
    GitTreeLeaf {
        mode: mode.as_bytes().to_vec(),
        path: String::from(path),
        sha_hash: String::from(hash),
    }
}

fn written(mode: &str, path: &str, raw: &[u8]) -> Vec<u8> {
    let mut out = Vec::new();
    out.extend_from_slice(mode.as_bytes());
    out.push(b' ');
    out.extend_from_slice(path.as_bytes());
    out.push(0);
    out.extend_from_slice(raw);
    out
}

fn paths_of(leaves: &[GitTreeLeaf]) -> Vec<String> {
    leaves.iter().map(|l| l.path.clone()).collect()
}

#[test]
fn sort_key_of_a_regular_file_is_its_path() {
    assert_eq!(tree_leaf_sort_key(&leaf("100644", "b.txt", HASH_A)), "b.txt");
    assert_eq!(tree_leaf_sort_key(&leaf("100755", "run", HASH_A)), "run");
    assert_eq!(tree_leaf_sort_key(&leaf("100644", "", HASH_A)), "");
}

#[test]
fn sort_key_of_any_other_entry_ends_in_the_separator() {
    assert_eq!(tree_leaf_sort_key(&leaf("40000", "a", HASH_A)), "a\\");
    assert_eq!(tree_leaf_sort_key(&leaf("040000", "a", HASH_A)), "a\\");
    assert_eq!(tree_leaf_sort_key(&leaf("120000", "link", HASH_A)), "link\\");
    assert_eq!(tree_leaf_sort_key(&leaf("160000", "sub", HASH_A)), "sub\\");
}

#[test]
fn sort_key_goes_by_the_six_digit_mode() {
    assert_eq!(tree_leaf_sort_key(&leaf("10064", "f", HASH_A)), "f\\");
}

#[test]
fn one_entry_is_written_as_mode_space_path_nul_digest() {
    let tree = GitTree { leaves: vec![leaf("100644", "a.txt", HASH_A)] };
    assert_eq!(tree.serialize(), written("100644", "a.txt", &RAW_A));
    let tree = GitTree { leaves: vec![leaf("100755", "x y", HASH_B)] };
    assert_eq!(tree.serialize(), written("100755", "x y", &RAW_B));
}

#[test]
fn five_digit_mode_is_written_in_six_digits() {
    let tree = GitTree { leaves: vec![leaf("40000", "src", HASH_A)] };
    let payload = tree.serialize();
    assert_eq!(&payload[..11], b"040000 src\0");
    assert_eq!(payload, written("040000", "src", &RAW_A));
}

#[test]
fn digest_text_of_either_case_is_written_raw() {
    let upper = HASH_B.to_uppercase();
    let tree = GitTree { leaves: vec![leaf("100644", "f", &upper)] };
    assert_eq!(tree.serialize(), written("100644", "f", &RAW_B));
    let mixed = "FfEeDdCcBbAa99887766554433221100ffeeDDCC";
    let tree = GitTree { leaves: vec![leaf("100644", "f", mixed)] };
    assert_eq!(tree.serialize(), written("100644", "f", &RAW_B));
}

#[test]
fn entries_are_written_in_canonical_order() {
    let tree = GitTree {
        leaves: vec![
            leaf("100644", "b.txt", HASH_A),
            leaf("40000", "a", HASH_B),
            leaf("100644", "a.txt", HASH_A),
        ],
    };
    let mut expected = written("100644", "a.txt", &RAW_A);
    expected.extend_from_slice(&written("040000", "a", &RAW_B));
    expected.extend_from_slice(&written("100644", "b.txt", &RAW_A));
    let payload = tree.serialize();
    assert_eq!(payload, expected);
    let parsed = tree_parse(&payload).unwrap();
    assert_eq!(paths_of(&parsed), vec!["a.txt", "a", "b.txt"]);
    assert_eq!(canonical_indices(&tree.leaves), vec![2, 1, 0]);
}

#[test]
fn every_given_order_is_written_alike() {
    let a = leaf("100644", "b.txt", HASH_A);
    let b = leaf("40000", "a", HASH_B);
    let c = leaf("100644", "a.txt", HASH_A);
    let d = leaf("100755", "a-b", HASH_B);
    let first = GitTree { leaves: vec![a.clone(), b.clone(), c.clone(), d.clone()] }.serialize();
    let orders = [[3, 2, 1, 0], [1, 0, 3, 2], [2, 3, 0, 1], [0, 2, 1, 3], [1, 3, 0, 2]];
    let all = [a, b, c, d];
    for order in orders {
        let leaves: Vec<GitTreeLeaf> = order.iter().map(|&i| all[i].clone()).collect();
        assert_eq!(GitTree { leaves }.serialize(), first);
    }
    assert_eq!(paths_of(&tree_parse(&first).unwrap()), vec!["a-b", "a.txt", "a", "b.txt"]);
}

#[test]
fn entries_with_one_sort_key_stay_as_given() {
    let file = leaf("100644", "a\\", HASH_A);
    let dir = leaf("40000", "a", HASH_B);
    assert_eq!(tree_leaf_sort_key(&file), tree_leaf_sort_key(&dir));
    let one = GitTree { leaves: vec![file.clone(), dir.clone()] }.serialize();
    let other = GitTree { leaves: vec![dir, file] }.serialize();
    assert_eq!(paths_of(&tree_parse(&one).unwrap()), vec!["a\\", "a"]);
    assert_eq!(paths_of(&tree_parse(&other).unwrap()), vec!["a", "a\\"]);
}

#[test]
fn order_is_by_bytes() {
    let tree = GitTree {
        leaves: vec![
            leaf("100644", "\u{e9}", HASH_A),
            leaf("100644", "z", HASH_A),
            leaf("100644", "Z", HASH_A),
            leaf("100644", "a", HASH_A),
            leaf("100644", "", HASH_A),
            leaf("100644", "ab", HASH_A),
        ],
    };
    let parsed = tree_parse(&tree.serialize()).unwrap();
    assert_eq!(paths_of(&parsed), vec!["", "Z", "a", "ab", "z", "\u{e9}"]);
}

#[test]
fn parse_gives_the_entries_back() {
    let given = vec![
        leaf("100644", "b.txt", HASH_B),
        leaf("40000", "a", HASH_B),
        leaf("100755", "h\u{e9}llo w\u{f6}rld", HASH_A),
        leaf("120000", "a.txt", &HASH_A.to_uppercase()),
    ];
    let parsed = tree_parse(&GitTree { leaves: given }.serialize()).unwrap();
    let expected = vec![
        leaf("120000", "a.txt", HASH_A),
        leaf("040000", "a", HASH_B),
        leaf("100644", "b.txt", HASH_B),
        leaf("100755", "h\u{e9}llo w\u{f6}rld", HASH_A),
    ];
    assert_eq!(parsed, expected);
    assert_eq!(tree_parse(&GitTree { leaves: expected }.serialize()), Ok(parsed));
}

#[test]
fn parse_one_gives_the_leaf_and_the_next_index() {
    let mut payload = written("100644", "a.txt", &RAW_A);
    let first_len = payload.len();
    payload.extend_from_slice(&written("40000", "src", &RAW_B));
    assert_eq!(tree_parse_one(&payload, 0), Ok((leaf("100644", "a.txt", HASH_A), 33)));
    assert_eq!(first_len, 33);
    assert_eq!(
        tree_parse_one(&payload, 33),
        Ok((leaf("040000", "src", HASH_B), payload.len()))
    );
}

#[test]
fn parse_brings_a_five_digit_mode_to_six() {
    let payload = written("40000", "src", &RAW_A);
    assert_eq!(tree_parse(&payload), Ok(vec![leaf("040000", "src", HASH_A)]));
}

#[test]
fn parse_of_the_empty_payload_is_the_empty_tree() {
    assert_eq!(tree_parse(b""), Ok(vec![]));
}

#[test]
fn parse_keeps_the_written_order() {
    let mut payload = written("100644", "z", &RAW_A);
    payload.extend_from_slice(&written("100644", "a", &RAW_B));
    assert_eq!(
        tree_parse(&payload),
        Ok(vec![leaf("100644", "z", HASH_A), leaf("100644", "a", HASH_B)])
    );
}

#[test]
fn parse_accepts_an_empty_path_and_a_path_with_spaces() {
    assert_eq!(tree_parse(&written("100644", "", &RAW_A)), Ok(vec![leaf("100644", "", HASH_A)]));
    assert_eq!(
        tree_parse(&written("100644", "a b  c", &RAW_A)),
        Ok(vec![leaf("100644", "a b  c", HASH_A)])
    );
}

#[test]
fn parse_takes_any_twenty_bytes_as_digest() {
    let raw = [0u8; 20];
    assert_eq!(
        tree_parse(&written("100644", "f", &raw)),
        Ok(vec![leaf("100644", "f", "0000000000000000000000000000000000000000")])
    );
    let raw = [0x20u8; 20];
    assert_eq!(
        tree_parse(&written("100644", "f", &raw)),
        Ok(vec![leaf("100644", "f", "2020202020202020202020202020202020202020")])
    );
}

#[test]
fn payload_that_ends_inside_the_mode_is_truncated() {
    assert_eq!(tree_parse(b"1"), Err(StoreError::TruncatedTreeEntry));
    assert_eq!(tree_parse(b"100644"), Err(StoreError::TruncatedTreeEntry));
    assert_eq!(tree_parse(b"not a tree at all"[..3].as_ref()), Err(StoreError::TruncatedTreeEntry));
    assert_eq!(tree_parse_one(b"100644", 0), Err(StoreError::TruncatedTreeEntry));
    assert_eq!(tree_parse_one(b"100644", 6), Err(StoreError::TruncatedTreeEntry));
}

#[test]
fn payload_that_ends_inside_the_path_is_truncated() {
    assert_eq!(tree_parse(b"100644 "), Err(StoreError::TruncatedTreeEntry));
    assert_eq!(tree_parse(b"100644 a.txt"), Err(StoreError::TruncatedTreeEntry));
}

#[test]
fn payload_that_ends_inside_the_digest_is_truncated() {
    assert_eq!(tree_parse(b"100644 a.txt\0"), Err(StoreError::TruncatedTreeEntry));
    let payload = written("100644", "a.txt", &RAW_A[..19]);
    assert_eq!(tree_parse(&payload), Err(StoreError::TruncatedTreeEntry));
}

#[test]
fn bytes_behind_the_last_entry_are_not_dropped() {
    let mut payload = written("100644", "a.txt", &RAW_A);
    payload.push(b'1');
    assert_eq!(tree_parse(&payload), Err(StoreError::TruncatedTreeEntry));
    let mut payload = written("100644", "a.txt", &RAW_A);
    payload.extend_from_slice(&written("100644", "b", &RAW_A[..10]));
    assert_eq!(tree_parse(&payload), Err(StoreError::TruncatedTreeEntry));
}

#[test]
fn mode_of_another_length_is_malformed() {
    assert_eq!(tree_parse(&written("1006", "f", &RAW_A)), Err(StoreError::MalformedEnvelope));
    assert_eq!(tree_parse(&written("", "f", &RAW_A)), Err(StoreError::MalformedEnvelope));
    assert_eq!(tree_parse(&written("1006440", "f", &RAW_A)), Err(StoreError::MalformedEnvelope));
    assert_eq!(
        tree_parse(&written("100644100644100644", "f", &RAW_A)),
        Err(StoreError::MalformedEnvelope)
    );
}

#[test]
fn mode_with_another_byte_than_an_octal_digit_is_malformed() {
    assert_eq!(tree_parse(&written("100648", "f", &RAW_A)), Err(StoreError::MalformedEnvelope));
    assert_eq!(tree_parse(&written("10064a", "f", &RAW_A)), Err(StoreError::MalformedEnvelope));
    assert_eq!(tree_parse(&written("4000\0", "f", &RAW_A)), Err(StoreError::MalformedEnvelope));
    assert_eq!(tree_parse(b"abcde f"), Err(StoreError::MalformedEnvelope));
}

#[test]
fn path_that_is_not_utf8_is_malformed() {
    let mut payload = b"100644 ".to_vec();
    payload.extend_from_slice(&[0xff, 0xfe, 0]);
    payload.extend_from_slice(&RAW_A);
    assert_eq!(tree_parse(&payload), Err(StoreError::MalformedEnvelope));
    let mut payload = b"100644 ".to_vec();
    payload.extend_from_slice(&[0xc3, 0]);
    payload.extend_from_slice(&RAW_A);
    assert_eq!(tree_parse(&payload), Err(StoreError::MalformedEnvelope));
}

#[test]
fn the_error_of_a_later_entry_is_reported() {
    let mut payload = written("100644", "a.txt", &RAW_A);
    payload.extend_from_slice(&written("999999", "b", &RAW_B));
    assert_eq!(tree_parse(&payload), Err(StoreError::MalformedEnvelope));
    assert_eq!(tree_parse_one(&payload, 0), Ok((leaf("100644", "a.txt", HASH_A), 33)));
    assert_eq!(tree_parse_one(&payload, 33), Err(StoreError::MalformedEnvelope));
}

#[test]
fn well_formed_leaves_are_recognized() {
    assert!(leaf("100644", "a.txt", HASH_A).is_valid());
    assert!(leaf("40000", "a", &HASH_B.to_uppercase()).is_valid());
    assert!(leaf("000000", "", HASH_A).is_valid());
    assert!(!leaf("1006", "a", HASH_A).is_valid());
    assert!(!leaf("1006444", "a", HASH_A).is_valid());
    assert!(!leaf("10064 ", "a", HASH_A).is_valid());
    assert!(!leaf("100649", "a", HASH_A).is_valid());
    assert!(!leaf("100644", "a\0b", HASH_A).is_valid());
    assert!(!leaf("100644", "a", "").is_valid());
    assert!(!leaf("100644", "a", &HASH_A[..38]).is_valid());
    assert!(!leaf("100644", "a", &HASH_A[..39]).is_valid());
    assert!(!leaf("100644", "a", "g00102030405060708090a0b0c0d0e0f10111213").is_valid());
    assert!(!leaf("100644", "a", "\u{e9}0102030405060708090a0b0c0d0e0f10111213").is_valid());
    assert!(GitTree { leaves: vec![] }.is_valid());
    assert!(GitTree { leaves: vec![leaf("100644", "a", HASH_A)] }.is_valid());
    assert!(!GitTree { leaves: vec![leaf("100644", "a", HASH_A), leaf("1", "b", HASH_A)] }
        .is_valid());
}

#[test]
fn new_leaf_has_its_mode_in_six_digits() {
    let made = GitTreeLeaf::new(b"40000", String::from("src"), String::from(HASH_A));
    assert_eq!(made, Some(leaf("040000", "src", HASH_A)));
    let made = GitTreeLeaf::new(b"100644", String::from("f"), String::from(HASH_B));
    assert_eq!(made, Some(leaf("100644", "f", HASH_B)));
}

#[test]
fn new_leaf_is_refused_where_a_field_is_not_well_formed() {
    assert_eq!(GitTreeLeaf::new(b"4000", String::from("src"), String::from(HASH_A)), None);
    assert_eq!(GitTreeLeaf::new(b"40008", String::from("src"), String::from(HASH_A)), None);
    assert_eq!(GitTreeLeaf::new(b"40000", String::from("s\0c"), String::from(HASH_A)), None);
    assert_eq!(GitTreeLeaf::new(b"40000", String::from("src"), String::from("abc")), None);
}

#[test]
fn clone_of_a_leaf_is_the_same_leaf() {
    let original = leaf("100644", "a.txt", HASH_A);
    assert_eq!(original.clone(), original);
}

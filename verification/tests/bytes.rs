use git_objects::bytes::{append_bytes, bytes_eq, bytes_le, find_byte, push_decimal};
use git_objects::StoreError;

#[test]
fn find_byte_gives_the_first_occurrence() {
    assert_eq!(find_byte(b"a b c", 0, b' '), 1);
    assert_eq!(find_byte(b"a b c", 1, b' '), 1);
    assert_eq!(find_byte(b"a b c", 2, b' '), 3);
    assert_eq!(find_byte(b" x", 0, b' '), 0);
}

#[test]
fn find_byte_gives_the_length_where_there_is_none() {
    assert_eq!(find_byte(b"abc", 0, 0), 3);
    assert_eq!(find_byte(b"a b", 2, b' '), 3);
    assert_eq!(find_byte(b"abc", 3, b'a'), 3);
    assert_eq!(find_byte(b"", 0, 0), 0);
}

#[test]
fn bytes_le_is_lexicographic() {
    assert!(bytes_le(b"", b""));
    assert!(bytes_le(b"", b"a"));
    assert!(!bytes_le(b"a", b""));
    assert!(bytes_le(b"a", b"a"));
    assert!(bytes_le(b"a", b"ab"));
    assert!(!bytes_le(b"ab", b"a"));
    assert!(bytes_le(b"ab", b"b"));
    assert!(!bytes_le(b"b", b"ab"));
    assert!(bytes_le(b"a.txt", b"a\\"));
    assert!(bytes_le(b"a\\", b"b.txt"));
    assert!(bytes_le(&[0x7f], &[0x80]));
    assert!(!bytes_le(&[0xff], &[0x00, 0xff]));
}

#[test]
fn push_decimal_writes_ascii_digits() {
    for (n, text) in [(0usize, "0"), (7, "7"), (9, "9"), (10, "10"), (16, "16"), (100, "100"),
        (12345, "12345"), (4294967295, "4294967295")]
    {
        let mut out = Vec::new();
        push_decimal(&mut out, n);
        assert_eq!(out, text.as_bytes().to_vec());
    }
    let mut out = b"blob ".to_vec();
    push_decimal(&mut out, usize::MAX);
    assert_eq!(out, format!("blob {}", usize::MAX).into_bytes());
}

#[test]
fn append_bytes_appends() {
    let mut out = b"ab".to_vec();
    append_bytes(&mut out, b"cd");
    append_bytes(&mut out, b"");
    assert_eq!(out, b"abcd".to_vec());
}

#[test]
fn bytes_eq_compares_content() {
    assert!(bytes_eq(b"", b""));
    assert!(bytes_eq(b"blob", b"blob"));
    assert!(!bytes_eq(b"blob", b"blog"));
    assert!(!bytes_eq(b"blob", b"blobs"));
    assert!(!bytes_eq(b"blob", b""));
}

#[test]
fn every_error_has_its_message() {
    assert_eq!(StoreError::ObjectNotFound.message(), "object not found");
    assert_eq!(StoreError::CorruptStream.message(), "corrupt compressed stream");
    assert_eq!(StoreError::UnknownObjectKind.message(), "unknown object kind");
    assert_eq!(StoreError::TruncatedTreeEntry.message(), "truncated tree entry");
    assert_eq!(StoreError::MalformedEnvelope.message(), "malformed envelope");
}

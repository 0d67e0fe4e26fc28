use git_objects::compression::{compress, decompress};
use git_objects::StoreError;

fn round_trip(data: &[u8]) {
    let stream = compress(data).expect("the codec does not fail");
    assert_eq!(decompress(&stream), Ok(data.to_vec()));
}

#[test]
fn round_trip_of_empty_input() {
    round_trip(b"");
}

#[test]
fn round_trip_of_text() {
    round_trip(b"blob 16\0what is up, doc?");
}

#[test]
fn round_trip_of_binary_input() {
    let all: Vec<u8> = (0..=255u8).collect();
    round_trip(&all);
    round_trip(&[0u8; 64]);
}

#[test]
fn round_trip_of_large_input() {
    let mut data = Vec::new();
    for i in 0..100_000u32 {
        data.push((i.wrapping_mul(2654435761) >> 13) as u8);
    }
    round_trip(&data);
}

#[test]
fn compress_writes_a_zlib_stream() {
    let data = [b'a'; 4096];
    let stream = compress(&data).expect("the codec does not fail");
    assert_ne!(stream, data.to_vec());
    assert!(stream.len() < data.len());
    assert_eq!(stream[0], 0x78);
}

#[test]
fn compress_of_empty_input_is_not_empty() {
    let stream = compress(b"").expect("the codec does not fail");
    assert!(!stream.is_empty());
}

#[test]
fn decompress_reads_a_known_stream() {
    let stream = [0x78, 0x9c, 0xcb, 0x48, 0xcd, 0xc9, 0xc9, 0x07, 0x00, 0x06, 0x2c, 0x02, 0x15];
    assert_eq!(decompress(&stream), Ok(b"hello".to_vec()));
}

#[test]
fn decompress_rejects_what_is_no_stream() {
    assert_eq!(decompress(b"this is not compressed"), Err(StoreError::CorruptStream));
    assert_eq!(decompress(&[0xff, 0xff, 0xff, 0xff]), Err(StoreError::CorruptStream));
}

#[test]
fn decompress_rejects_empty_input() {
    assert_eq!(decompress(b""), Err(StoreError::CorruptStream));
}

#[test]
fn decompress_rejects_a_truncated_stream() {
    let stream = compress(b"some content that is long enough to be cut").unwrap();
    assert_eq!(decompress(&stream[..stream.len() / 2]), Err(StoreError::CorruptStream));
    assert_eq!(decompress(&stream[..1]), Err(StoreError::CorruptStream));
}

#[test]
fn decompress_rejects_a_damaged_stream() {
    let mut stream = compress(&[7u8; 300]).unwrap();
    let last = stream.len() - 1;
    stream[last] ^= 0xff;
    assert_eq!(decompress(&stream), Err(StoreError::CorruptStream));
}

#[test]
fn compress_gives_the_same_stream_for_the_same_bytes() {
    let inputs: [&[u8]; 3] = [b"", b"blob 16\0what is up, doc?", &[0xab; 2000]];
    for input in inputs {
        let first = compress(input).expect("the codec does not fail");
        let second = compress(&input.to_vec()).expect("the codec does not fail");
        assert_eq!(first, second);
    }
}

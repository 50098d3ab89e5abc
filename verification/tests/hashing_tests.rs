use hexane::hashing::{content_hash_hex, hex_encode};

#[test]
fn hex_encoding_two_digits_per_byte() {
    let bytes = vec![0x00u8, 0xff, 0x1a];
    let hex: String = hex_encode(&bytes).into_iter().collect();
    assert_eq!(hex, "00ff1a");
}

#[test]
fn hex_encoding_of_nothing_is_empty() {
    let hex: String = hex_encode(&Vec::new()).into_iter().collect();
    assert_eq!(hex, "");
}

#[test]
fn content_hash_is_sha256_hex() {
    let data = b"abc".to_vec();
    let hash: String = content_hash_hex(&data).into_iter().collect();
    assert_eq!(
        hash,
        "ba7816bf8f01cfea414140de5dae2223b00361a396177a9cb410ff61f20015ad"
    );
}

#[test]
fn content_hash_of_empty_input() {
    let hash: String = content_hash_hex(&Vec::new()).into_iter().collect();
    assert_eq!(
        hash,
        "e3b0c44298fc1c149afbf4c8996fb92427ae41e4649b934ca495991b7852b855"
    );
}

#[test]
fn equal_content_hashes_equal() {
    let a = b"same bytes".to_vec();
    let b = b"same bytes".to_vec();
    assert_eq!(content_hash_hex(&a), content_hash_hex(&b));
    let c = b"other bytes".to_vec();
    assert_ne!(content_hash_hex(&a), content_hash_hex(&c));
}

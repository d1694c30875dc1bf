use ocard::hash::{hash_bytes, StreamHasher, CHUNK_SIZE};

#[test]
fn hash_known_value() {
    assert_eq!(hash_bytes(b""), "2d06800538d394c2");
    assert_ne!(hash_bytes(b"a"), hash_bytes(b"b"));
    let mut h = StreamHasher::new();
    h.feed(b"hello");
    h.feed(b" world");
    let (n, digest) = h.finish();
    assert_eq!(n, 11);
    assert_eq!(digest, hash_bytes(b"hello world"));
}

#[test]
fn hash_stream_counts_bytes() {
    let data = vec![0u8; 5 * CHUNK_SIZE + 3];
    let mut h = StreamHasher::new();
    for chunk in data.chunks(CHUNK_SIZE) {
        h.feed(chunk);
    }
    let (n, digest) = h.finish();
    assert_eq!(n, (5 * CHUNK_SIZE + 3) as u64);
    assert_eq!(digest, hash_bytes(&data));
}

#[test]
fn hash_text_is_sixteen_hex_digits() {
    let d = hash_bytes(b"hello world");
    assert_eq!(d.len(), 16);
    assert!(d.chars().all(|c| c.is_ascii_hexdigit() && !c.is_ascii_uppercase()));
}

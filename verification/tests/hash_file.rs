use lindy_videos::hash_file::{hash_content, ContentHasher};
use sha2::{Digest, Sha256};

#[test]
fn hash_of_abc() {
    assert_eq!(
        hash_content(b"abc"),
        "ba7816bf8f01cfea414140de5dae2223b00361a396177a9cb410ff61f20015ad"
    );
}

#[test]
fn hash_of_nothing() {
    assert_eq!(
        hash_content(b""),
        "e3b0c44298fc1c149afbf4c8996fb92427ae41e4649b934ca495991b7852b855"
    );
}

#[test]
fn hash_is_lowercase_hex_of_64_digits() {
    let hash = hash_content(&[0xffu8; 5000]);
    assert_eq!(hash.len(), 64);
    assert!(hash
        .chars()
        .all(|c| c.is_ascii_digit() || ('a'..='f').contains(&c)));
}

#[test]
fn same_content_same_hash() {
    let first: Vec<u8> = (0..10_000u32).map(|i| (i % 251) as u8).collect();
    let second = first.clone();
    assert_eq!(hash_content(&first), hash_content(&second));
}

#[test]
fn one_byte_changes_the_hash() {
    let first: Vec<u8> = (0..10_000u32).map(|i| (i % 251) as u8).collect();
    let mut second = first.clone();
    second[4096] ^= 1;
    assert_ne!(hash_content(&first), hash_content(&second));
}

#[test]
fn hash_agrees_with_streaming_in_chunks() {
    let data: Vec<u8> = (0..10_000u32).map(|i| (i * 7 % 256) as u8).collect();
    let mut hasher = Sha256::new();
    for chunk in data.chunks(4096) {
        hasher.update(chunk);
    }
    let expected = base16ct::lower::encode_string(&hasher.finalize());
    assert_eq!(hash_content(&data), expected);
}

#[test]
fn chunk_size_does_not_show_in_the_hash() {
    let data: Vec<u8> = (0..10_000u32).map(|i| (i * 13 % 256) as u8).collect();
    let whole = hash_content(&data);
    for size in [1usize, 7, 64, 4096, 9999, 10_000, 20_000] {
        let mut hasher = ContentHasher::new();
        for chunk in data.chunks(size) {
            hasher.update(chunk);
        }
        assert_eq!(hasher.finish(), whole, "chunks of {}", size);
    }
}

#[test]
fn hasher_without_input_gives_the_hash_of_nothing() {
    assert_eq!(ContentHasher::new().finish(), hash_content(b""));
    let mut hasher = ContentHasher::new();
    hasher.update(b"");
    hasher.update(b"abc");
    hasher.update(b"");
    assert_eq!(
        hasher.finish(),
        "ba7816bf8f01cfea414140de5dae2223b00361a396177a9cb410ff61f20015ad"
    );
}

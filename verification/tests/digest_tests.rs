use aura_sync::hash::calculate_file_hash;
use aura_sync::scanner::{
    ascii_lower, extension_of, has_image_extension, is_image_extension, scan_digest, scan_file,
};
use sha2::Digest;

#[test]
fn sha256_digest_of_known_bytes() {
    assert_eq!(
        calculate_file_hash(b""),
        "e3b0c44298fc1c149afbf4c8996fb92427ae41e4649b934ca495991b7852b855"
    );
    assert_eq!(
        calculate_file_hash(b"abc"),
        "ba7816bf8f01cfea414140de5dae2223b00361a396177a9cb410ff61f20015ad"
    );
}

#[test]
fn digest_agrees_with_the_underlying_crates() {
    let data = b"the quick brown fox";
    let expected = hex::encode(sha2::Sha256::digest(data));
    assert_eq!(calculate_file_hash(data), expected);
}

#[test]
fn equal_bytes_equal_digest_different_bytes_differ() {
    let a: Vec<u8> = vec![1, 2, 3, 4];
    let b: Vec<u8> = vec![1, 2, 3, 4];
    let c: Vec<u8> = vec![1, 2, 3, 5];
    assert_eq!(calculate_file_hash(&a), calculate_file_hash(&b));
    assert_ne!(calculate_file_hash(&a), calculate_file_hash(&c));
}

#[test]
fn scan_digest_is_sixteen_hex_digits_of_xxh3() {
    assert_eq!(scan_digest(b""), "2d06800538d394c2");
    let data = b"photo bytes";
    let expected = format!("{:016x}", xxhash_rust::xxh3::xxh3_64(data));
    assert_eq!(scan_digest(data), expected);
}

#[test]
fn scan_file_carries_its_inputs() {
    let rec = scan_file("/p/a.jpg".to_string(), b"xyz", 777);
    assert_eq!(rec.path, "/p/a.jpg");
    assert_eq!(rec.mod_time, 777);
    assert_eq!(rec.hash, scan_digest(b"xyz"));
}

#[test]
fn extensions_are_found_after_the_last_dot() {
    assert_eq!(extension_of("/a/b.jpg"), Some("jpg".to_string()));
    assert_eq!(extension_of("a.tar.gz"), Some("gz".to_string()));
    assert_eq!(extension_of("/a/b."), Some("".to_string()));
    assert_eq!(extension_of("/a/.hidden"), None);
    assert_eq!(extension_of("/a/b"), None);
    assert_eq!(extension_of(""), None);
}

#[test]
fn lowercasing_folds_ascii_only() {
    assert_eq!(ascii_lower("JPeG"), "jpeg");
    assert_eq!(ascii_lower("already"), "already");
}

#[test]
fn image_extension_filter() {
    assert!(is_image_extension("jpg"));
    assert!(is_image_extension("nef"));
    assert!(!is_image_extension("txt"));
    assert!(has_image_extension("/photos/a.jpg"));
    assert!(has_image_extension("/photos/b.JPG"));
    assert!(has_image_extension("/photos/c.HeIc"));
    assert!(!has_image_extension("/photos/notes.txt"));
    assert!(!has_image_extension("/photos/.jpg"));
    assert!(!has_image_extension("/photos/noext"));
}

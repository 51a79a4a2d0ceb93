use glob_hasher::{canonical_digest, content_to_hash, fast_digest, is_binary, normalize_crlf};

#[test]
fn canonical_digest_matches_git_blob_id_for_hello() {
    // git's blob object id for the 6-byte content "hello\n".
    let bytes: Vec<u8> = b"hello\n".to_vec();
    let digest = canonical_digest(&bytes).expect("sha1 should succeed");
    assert_eq!(digest, "ce013625030ba8dba906f756967f9e9ca394464a");
}

#[test]
fn canonical_digest_matches_git_blob_id_for_empty() {
    // git's well-known empty-blob object id.
    let bytes: Vec<u8> = Vec::new();
    let digest = canonical_digest(&bytes).expect("sha1 should succeed");
    assert_eq!(digest, "e69de29bb2d1d6434b8b29ae775ad8c2e48c5391");
}

#[test]
fn identical_content_identical_digests() {
    let a: Vec<u8> = b"some shared file body\n".to_vec();
    let b: Vec<u8> = b"some shared file body\n".to_vec();
    assert_eq!(fast_digest(&a), fast_digest(&b));
    assert_eq!(canonical_digest(&a), canonical_digest(&b));
}

#[test]
fn digest_invariant_under_crlf_to_lf_conversion() {
    let crlf: Vec<u8> = b"line one\r\nline two\r\n".to_vec();
    let lf: Vec<u8> = b"line one\nline two\n".to_vec();
    assert_eq!(fast_digest(&crlf), fast_digest(&lf));
    assert_eq!(canonical_digest(&crlf), canonical_digest(&lf));
}

#[test]
fn digest_sensitive_to_standalone_cr_and_lf() {
    let base: Vec<u8> = b"ab".to_vec();
    let with_cr: Vec<u8> = b"a\rb".to_vec();
    let with_lf: Vec<u8> = b"a\nb".to_vec();
    assert_ne!(fast_digest(&base), fast_digest(&with_cr));
    assert_ne!(fast_digest(&base), fast_digest(&with_lf));
    assert_ne!(fast_digest(&with_cr), fast_digest(&with_lf));
}

#[test]
fn normalize_collapses_crlf_only() {
    let input: Vec<u8> = b"a\r\nb\rc\nd\r\n\r\ne".to_vec();
    let out = normalize_crlf(&input);
    assert_eq!(out, b"a\nb\rc\nd\n\ne".to_vec());
}

#[test]
fn trailing_carriage_return_is_preserved() {
    let input: Vec<u8> = b"abc\r".to_vec();
    assert_eq!(normalize_crlf(&input), b"abc\r".to_vec());
}

#[test]
fn binary_detection_uses_first_8000_bytes() {
    let mut early_zero: Vec<u8> = vec![1u8; 100];
    early_zero[50] = 0;
    assert!(is_binary(&early_zero));

    let mut late_zero: Vec<u8> = vec![1u8; 9000];
    late_zero[8500] = 0;
    assert!(!is_binary(&late_zero));

    let text: Vec<u8> = b"plain text".to_vec();
    assert!(!is_binary(&text));
}

#[test]
fn binary_file_hashed_on_raw_bytes_without_crlf_collapsing() {
    let mut raw: Vec<u8> = b"bin\r\ndata\r\n".to_vec();
    raw.insert(0, 0u8);
    // The content fed to the digest is the raw bytes, CRLF pairs intact.
    assert_eq!(content_to_hash(&raw), raw);
    // The fast digest is xxHash3-64 of exactly those raw bytes.
    assert_eq!(fast_digest(&raw), xxhash_rust::xxh3::xxh3_64(&raw));
    // Collapsing the CRLF pairs changes the digest of a binary file.
    let collapsed: Vec<u8> = {
        let mut v = b"bin\ndata\n".to_vec();
        v.insert(0, 0u8);
        v
    };
    assert_ne!(fast_digest(&raw), fast_digest(&collapsed));
}

#[test]
fn text_digest_is_fast_hash_of_normalized_bytes() {
    let input: Vec<u8> = b"x\r\ny".to_vec();
    assert_eq!(fast_digest(&input), xxhash_rust::xxh3::xxh3_64(b"x\ny"));
}

#[test]
fn canonical_digest_cross_validates_against_gix_object_hashing() {
    // The library's header + SHA-1 + hex pipeline must be bit-exact with
    // gix computing a blob object id over the same normalized bytes.
    let raw: Vec<u8> = b"alpha\r\nbeta\rgamma\n".to_vec();
    let normalized: Vec<u8> = b"alpha\nbeta\rgamma\n".to_vec();
    let expected = gix::objs::compute_hash(
        gix::hash::Kind::Sha1,
        gix::objs::Kind::Blob,
        &normalized,
    )
    .unwrap()
    .to_string();
    assert_eq!(canonical_digest(&raw).unwrap(), expected);
}

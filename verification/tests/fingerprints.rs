use dots::digest::{calculate_sha256, hex_encode, Fed, Fingerprinter, BLOCK_SIZE};
use dots::error::SyncError;
use sha2::{Digest, Sha256};

fn oracle(content: &[u8]) -> String {
    format!("{:x}", Sha256::digest(content))
}

#[test]
fn fingerprint_of_hello_world() {
    assert_eq!(
        calculate_sha256(b"hello world"),
        "b94d27b9934d3e08a52e52d7da7dabfac484efe37a5380ee9088f7ace2efcde9"
    );
}

#[test]
fn fingerprint_of_the_empty_file() {
    assert_eq!(
        calculate_sha256(b""),
        "e3b0c44298fc1c149afbf4c8996fb92427ae41e4649b934ca495991b7852b855"
    );
}

#[test]
fn fingerprint_of_abc() {
    assert_eq!(
        calculate_sha256(b"abc"),
        "ba7816bf8f01cfea414140de5dae2223b00361a396177a9cb410ff61f20015ad"
    );
}

#[test]
fn fingerprint_is_not_its_input() {
    let content = b"0123456789abcdef0123456789abcdef0123456789abcdef0123456789abcdef";
    let digest = calculate_sha256(content);
    assert_ne!(digest.as_bytes(), &content[..]);
    assert_eq!(digest, oracle(content));
}

#[test]
fn fingerprint_is_64_lowercase_hex_digits() {
    for content in [&b""[..], &b"X"[..], &b"some longer content\n"[..]] {
        let digest = calculate_sha256(content);
        assert_eq!(digest.len(), 64);
        assert!(digest.chars().all(|c| c.is_ascii_digit() || ('a'..='f').contains(&c)));
    }
}

#[test]
fn hashing_twice_gives_the_same_fingerprint() {
    let content = b"the same bytes";
    assert_eq!(calculate_sha256(content), calculate_sha256(content));
}

#[test]
fn one_changed_byte_changes_the_fingerprint() {
    let mut content = b"almost the same bytes".to_vec();
    let first = calculate_sha256(&content);
    content[3] ^= 1;
    let second = calculate_sha256(&content);
    assert_ne!(first, second);
    assert_eq!(second, oracle(&content));
}

#[test]
fn equal_fingerprints_come_from_equal_bytes() {
    let samples: Vec<Vec<u8>> = vec![
        b"".to_vec(),
        b"X".to_vec(),
        b"Y".to_vec(),
        b"X\n".to_vec(),
        b"x".to_vec(),
        vec![0u8; 4096],
        vec![0u8; 4097],
    ];
    for a in &samples {
        for b in &samples {
            let same_digest = calculate_sha256(a) == calculate_sha256(b);
            assert_eq!(same_digest, a == b);
        }
    }
}

#[test]
fn content_larger_than_a_block() {
    let content: Vec<u8> = (0..(3 * BLOCK_SIZE + 17)).map(|i| (i % 251) as u8).collect();
    assert_eq!(calculate_sha256(&content), oracle(&content));
}

#[test]
fn content_of_exactly_one_block_and_around_it() {
    for len in [BLOCK_SIZE - 1, BLOCK_SIZE, BLOCK_SIZE + 1, 2 * BLOCK_SIZE] {
        let content: Vec<u8> = (0..len).map(|i| (i % 7) as u8).collect();
        assert_eq!(calculate_sha256(&content), oracle(&content));
    }
}

#[test]
fn the_cut_of_a_stream_does_not_matter() {
    let content = b"hello world";
    let mut whole = Fingerprinter::new();
    whole.update(content);
    let mut pieces = Fingerprinter::new();
    pieces.update(b"hel");
    pieces.update(b"");
    pieces.update(b"lo wor");
    pieces.update(b"ld");
    let expected = "b94d27b9934d3e08a52e52d7da7dabfac484efe37a5380ee9088f7ace2efcde9";
    assert_eq!(whole.finish(), expected);
    assert_eq!(pieces.finish(), expected);
}

#[test]
fn the_order_of_pieces_matters() {
    let mut forward = Fingerprinter::new();
    forward.update(b"ab");
    forward.update(b"cd");
    let mut backward = Fingerprinter::new();
    backward.update(b"cd");
    backward.update(b"ab");
    assert_ne!(forward.finish(), backward.finish());
}

#[test]
fn a_fresh_fingerprinter_has_absorbed_nothing() {
    assert_eq!(Fingerprinter::new().finish(), calculate_sha256(b""));
}

#[test]
fn hex_encode_writes_two_digits_per_byte() {
    assert_eq!(hex_encode(&[0x0a, 0x14, 0x1e]), "0a141e");
    assert_eq!(hex_encode(&[0x00, 0xff, 0x10, 0x01]), "00ff1001");
    assert_eq!(hex_encode(&[0xab, 0xcd, 0xef]), "abcdef");
    assert_eq!(hex_encode(&[]), "");
}

#[test]
fn hex_encode_covers_every_byte() {
    for b in 0..=255u8 {
        assert_eq!(hex_encode(&[b]), format!("{:02x}", b));
    }
}

fn fed(reads: Vec<Result<&[u8], String>>) -> Option<Result<String, SyncError>> {
    let mut printer = Fingerprinter::new();
    for read in reads {
        match printer.feed(read) {
            Fed::Going(next) => printer = next,
            Fed::Done(result) => return Some(result),
        }
    }
    None
}

#[test]
fn a_stream_ends_with_an_empty_read() {
    let result = fed(vec![Ok(&b"hello "[..]), Ok(&b"world"[..]), Ok(&b""[..])]);
    assert_eq!(
        result.unwrap().unwrap(),
        "b94d27b9934d3e08a52e52d7da7dabfac484efe37a5380ee9088f7ace2efcde9"
    );
}

#[test]
fn a_stream_that_ends_at_once_is_the_empty_file() {
    assert_eq!(fed(vec![Ok(&b""[..])]).unwrap().unwrap(), calculate_sha256(b""));
}

#[test]
fn a_stream_goes_on_after_bytes() {
    assert!(fed(vec![Ok(&b"abc"[..])]).is_none());
    assert!(fed(Vec::new()).is_none());
}

#[test]
fn nothing_is_read_past_the_end() {
    let result = fed(vec![Ok(&b"abc"[..]), Ok(&b""[..]), Ok(&b"more"[..])]);
    assert_eq!(result.unwrap().unwrap(), calculate_sha256(b"abc"));
}

#[test]
fn a_failed_read_is_a_read_error_with_its_detail() {
    match fed(vec![Ok(&b"abc"[..]), Err("input/output error".to_string()), Ok(&b""[..])]) {
        Some(Err(SyncError::ReadError(detail))) => assert_eq!(detail, "input/output error"),
        other => panic!("unexpected {:?}", other),
    }
}

#[test]
fn a_file_that_cannot_be_opened_is_a_read_error() {
    match fed(vec![Err("permission denied".to_string())]) {
        Some(Err(SyncError::ReadError(detail))) => assert_eq!(detail, "permission denied"),
        other => panic!("unexpected {:?}", other),
    }
}

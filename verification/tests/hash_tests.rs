use file_tools::hashing::{hash_chunks, to_hex_lower, HashSession, INITIAL_CHUNK_SIZE, MAX_CHUNK_SIZE};

const EMPTY_DIGEST: &str = "e3b0c44298fc1c149afbf4c8996fb92427ae41e4649b934ca495991b7852b855";
const ABC_DIGEST: &str = "ba7816bf8f01cfea414140de5dae2223b00361a396177a9cb410ff61f20015ad";

#[test]
fn zero_byte_content_has_the_well_known_digest() {
    let session = HashSession::new();
    assert_eq!(session.finish(), EMPTY_DIGEST);
    let chunks: Vec<Vec<u8>> = Vec::new();
    assert_eq!(hash_chunks(&chunks), EMPTY_DIGEST);
}

#[test]
fn known_content_hashes_to_the_known_digest() {
    let chunks = vec![b"abc".to_vec()];
    assert_eq!(hash_chunks(&chunks), ABC_DIGEST);
}

#[test]
fn digest_is_independent_of_chunking() {
    let whole = vec![b"the quick brown fox jumps over the lazy dog".to_vec()];
    let split = vec![
        b"the quick brown ".to_vec(),
        b"fox jumps over".to_vec(),
        b" the lazy dog".to_vec(),
    ];
    let byte_at_a_time: Vec<Vec<u8>> =
        b"the quick brown fox jumps over the lazy dog".iter().map(|b| vec![*b]).collect();
    let d1 = hash_chunks(&whole);
    let d2 = hash_chunks(&split);
    let d3 = hash_chunks(&byte_at_a_time);
    assert_eq!(d1, d2);
    assert_eq!(d1, d3);
}

#[test]
fn test_file_hash_computation() {
    let hash = hash_chunks(&vec![b"[package]\nname = \"demo\"\n".to_vec()]);
    assert_eq!(hash.len(), 64, "SHA256 hash should be 64 characters long");
    assert!(
        hash.chars().all(|c| c.is_ascii_hexdigit()),
        "Hash should contain only hex digits"
    );
}

#[test]
fn test_streaming_file_hash() {
    let mut session = HashSession::new();
    session.feed(b"streamed ");
    session.feed(b"content");
    let hash = session.finish();
    assert_eq!(hash.len(), 64, "SHA256 hash should be 64 characters long");
    assert!(
        hash.chars().all(|c| c.is_ascii_hexdigit()),
        "Hash should contain only hex digits"
    );
    assert!(
        hash.chars().all(|c| !c.is_uppercase()),
        "Hash should be lowercase"
    );
    assert_eq!(hash, hash_chunks(&vec![b"streamed content".to_vec()]));
}

#[test]
fn chunk_schedule_doubles_to_the_ceiling() {
    let mut session = HashSession::new();
    assert_eq!(session.chunk_size(), INITIAL_CHUNK_SIZE);
    session.feed(b"x");
    assert_eq!(session.chunk_size(), 2 * INITIAL_CHUNK_SIZE);
    session.feed(b"x");
    assert_eq!(session.chunk_size(), 4 * INITIAL_CHUNK_SIZE);
    session.feed(b"x");
    assert_eq!(session.chunk_size(), MAX_CHUNK_SIZE);
    session.feed(b"x");
    assert_eq!(session.chunk_size(), MAX_CHUNK_SIZE);
}

#[test]
fn hex_rendering_is_lowercase_and_positional() {
    assert_eq!(to_hex_lower(&[]), "");
    assert_eq!(to_hex_lower(&[0x00, 0xff, 0x1a]), "00ff1a");
    assert_eq!(to_hex_lower(&[0xde, 0xad, 0xbe, 0xef]), "deadbeef");
}

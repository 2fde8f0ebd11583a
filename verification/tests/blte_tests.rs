use casc_storage::blte::{encode_raw_container, parse_blte, parse_blte_with_keys,
    parse_chunk_table, salsa20_decrypt_128};
use std::io::Write;
use casc_storage::errors::CascError;
use casc_storage::keysvc::KeyService;

fn headerless(body: &[u8]) -> Vec<u8> {
    let mut v = b"BLTE".to_vec();
    v.extend_from_slice(&[0, 0, 0, 0]);
    v.extend_from_slice(body);
    v
}

#[test]
fn round_trip_raw_chunks() {
    let chunks = vec![b"hello".to_vec(), b" world".to_vec(), b"!".to_vec()];
    let encoded = encode_raw_container(&chunks).unwrap();
    let decoded = parse_blte(&encoded).unwrap();
    assert_eq!(decoded, b"hello world!".to_vec());
}

#[test]
fn round_trip_single_raw_chunk() {
    let chunks = vec![vec![7u8; 100]];
    let encoded = encode_raw_container(&chunks).unwrap();
    let decoded = parse_blte(&encoded).unwrap();
    assert_eq!(decoded, vec![7u8; 100]);
}

#[test]
fn decoded_length_matches_declared_sum() {
    let chunks = vec![vec![1u8; 10], vec![2u8; 20], vec![3u8; 30]];
    let encoded = encode_raw_container(&chunks).unwrap();
    let decoded = parse_blte(&encoded).unwrap();
    assert_eq!(decoded.len(), 60);
}

#[test]
fn integrity_flip_detected_in_tabled_chunk() {
    let chunks = vec![b"integrity-checked bytes".to_vec()];
    let mut encoded = encode_raw_container(&chunks).unwrap();
    // Flip one byte inside the chunk payload (after the 36-byte header and
    // table and the chunk's type tag).
    let payload_at = 12 + 24 + 1;
    encoded[payload_at] ^= 0xFF;
    match parse_blte(&encoded) {
        Err(CascError::InvalidBlte) => {}
        other => panic!("expected InvalidBlte, got {:?}", other.map(|v| v.len())),
    }
}

#[test]
fn flip_in_implicit_chunk_is_not_detected() {
    // A single implicit chunk carries no integrity hash; a flipped payload
    // byte decodes without complaint.
    let mut body = vec![b'N'];
    body.extend_from_slice(&[9u8; 16]);
    let mut container = headerless(&body);
    let decoded = parse_blte(&container).unwrap();
    assert_eq!(decoded, vec![9u8; 16]);
    let last = container.len() - 1;
    container[last] ^= 0x55;
    let decoded2 = parse_blte(&container).unwrap();
    assert_eq!(decoded2.len(), 16);
    assert_ne!(decoded2, vec![9u8; 16]);
}

#[test]
fn deflate_chunk_round_trip_with_table() {
    // Scenario: one-chunk table [{comp, decomp = 2, hash}], chunk bytes
    // Z<2-byte zlib header><deflate stream>.
    let original = [0xABu8, 0xCD];
    let mut enc = flate2::write::ZlibEncoder::new(Vec::new(), flate2::Compression::default());
    enc.write_all(&original).unwrap();
    let zlib = enc.finish().unwrap();
    let mut chunk = vec![b'Z'];
    chunk.extend_from_slice(&zlib);
    let digest = md5::compute(&chunk).0;
    let comp = chunk.len() as u32;
    let mut v = b"BLTE".to_vec();
    let hs: u32 = 12 + 24;
    v.extend_from_slice(&hs.to_be_bytes());
    v.push(0x0F);
    v.extend_from_slice(&[0, 0, 1]);
    v.extend_from_slice(&comp.to_be_bytes());
    v.extend_from_slice(&2u32.to_be_bytes());
    v.extend_from_slice(&digest);
    v.extend_from_slice(&chunk);
    let decoded = parse_blte(&v).unwrap();
    assert_eq!(decoded, original.to_vec());
    // Corrupting the declared hash must fail the decode.
    let mut bad = v.clone();
    bad[12 + 8] ^= 0x01;
    match parse_blte(&bad) {
        Err(CascError::InvalidBlte) => {}
        other => panic!("expected InvalidBlte, got {:?}", other.map(|v| v.len())),
    }
}

fn encrypted_chunk_body(expected: usize) -> Vec<u8> {
    // E-chunk: key-name length 8, an unknown key name, 4-byte IV, stream
    // cipher selector, then a body that does not look like a nested chunk.
    let mut body = vec![b'E'];
    body.push(8);
    body.extend_from_slice(&0xDEAD_BEEF_0BAD_F00Du64.to_le_bytes());
    body.push(4);
    body.extend_from_slice(&[1, 2, 3, 4]);
    body.push(b'S');
    body.extend_from_slice(&vec![0x7Fu8; expected]);
    body
}

#[test]
fn missing_key_zero_fills_in_permissive_mode() {
    let body = encrypted_chunk_body(10);
    let container = headerless(&body);
    let expected_len = container.len() - 9;
    let ks = KeyService::new();
    let decoded = parse_blte_with_keys(&container, Some(&ks), false).unwrap();
    assert_eq!(decoded, vec![0u8; expected_len]);
}

#[test]
fn missing_key_fails_in_strict_mode() {
    let body = encrypted_chunk_body(10);
    let container = headerless(&body);
    let ks = KeyService::new();
    match parse_blte_with_keys(&container, Some(&ks), true) {
        Err(CascError::MissingDecryptionKey(name)) => {
            assert_eq!(name, 0xDEAD_BEEF_0BAD_F00D);
        }
        other => panic!("expected MissingDecryptionKey, got {:?}", other.map(|v| v.len())),
    }
}

#[test]
fn salsa20_round_trip() {
    let key = [0x11u8; 16];
    let nonce = [0x22u8; 8];
    let plain = b"stream cipher round trip".to_vec();
    let ct = salsa20_decrypt_128(&key, &nonce, &plain);
    assert_ne!(ct, plain);
    let back = salsa20_decrypt_128(&key, &nonce, &ct);
    assert_eq!(back, plain);
}

#[test]
fn truncated_container_is_rejected() {
    match parse_blte(b"BLT") {
        Err(CascError::InvalidBlte) => {}
        other => panic!("expected InvalidBlte, got {:?}", other.map(|v| v.len())),
    }
    match parse_blte(b"XLTE\0\0\0\0NN") {
        Err(CascError::InvalidBlte) => {}
        other => panic!("expected InvalidBlte, got {:?}", other.map(|v| v.len())),
    }
}

#[test]
fn reserved_chunk_type_is_rejected() {
    let mut body = vec![b'F'];
    body.extend_from_slice(&[0u8; 4]);
    let container = headerless(&body);
    match parse_blte(&container) {
        Err(CascError::InvalidBlte) => {}
        other => panic!("expected InvalidBlte, got {:?}", other.map(|v| v.len())),
    }
}

#[test]
fn chunk_table_reports_declared_sizes() {
    let chunks = vec![vec![1u8; 3], vec![2u8; 5]];
    let encoded = encode_raw_container(&chunks).unwrap();
    let file = parse_chunk_table(&encoded).unwrap();
    assert_eq!(&file.header.magic, b"BLTE");
    assert_eq!(file.header.header_size, 12 + 48);
    assert_eq!(file.chunks.len(), 2);
    assert_eq!(file.chunks[0].compressed_size, 4);
    assert_eq!(file.chunks[0].decompressed_size, 3);
    assert_eq!(file.chunks[1].compressed_size, 6);
    assert_eq!(file.chunks[1].decompressed_size, 5);
    let mut tagged = vec![b'N'];
    tagged.extend_from_slice(&[1u8; 3]);
    assert_eq!(file.chunks[0].checksum, md5::compute(&tagged).0);
    // A headerless container has no table.
    let bare = headerless(b"Nabc");
    let f2 = parse_chunk_table(&bare).unwrap();
    assert_eq!(f2.chunks.len(), 0);
}

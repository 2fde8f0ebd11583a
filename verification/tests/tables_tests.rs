use std::collections::HashMap;

use casc_storage::cdn_index::make_cdn_path;
use casc_storage::errors::CascError;
use casc_storage::keysvc::KeyService;
use casc_storage::root::{parse_root, RootTable};
use casc_storage::storage::{read_file_by_filedataid, CascStorage};
use casc_storage::types::{
    key_to_u128, CascConfig, CdnIndexStore, ContentKey, EncodingEntry, EncodingKey, EncodingTable,
    IndexEntry, IndexStore,
};

fn idx_record(key9: [u8; 9], high: u8, low: u32, size: u32) -> Vec<u8> {
    let mut r = key9.to_vec();
    r.push(high);
    r.extend_from_slice(&low.to_be_bytes());
    r.extend_from_slice(&size.to_le_bytes());
    r
}

fn idx_file(records: &[Vec<u8>]) -> Vec<u8> {
    let mut v = Vec::new();
    v.extend_from_slice(&8u32.to_le_bytes());
    v.extend_from_slice(&0u32.to_le_bytes());
    v.extend_from_slice(&[0u8; 8]);
    // Cursor pads to the next 16-byte boundary: (8 + 8 + 15) & !15 == 16.
    while v.len() < 16 {
        v.push(0);
    }
    let entries_size = (records.len() * 18) as u32;
    v.extend_from_slice(&entries_size.to_le_bytes());
    v.extend_from_slice(&0u32.to_le_bytes());
    for r in records {
        v.extend_from_slice(r);
    }
    // The record group pads to a 4 KiB boundary.
    while v.len() < 4096 {
        v.push(0);
    }
    v
}

#[test]
fn index_parse_is_idempotent_and_first_entry_wins() {
    let key9 = [1u8, 2, 3, 4, 5, 6, 7, 8, 9];
    let rec1 = idx_record(key9, 0, (1 << 30) | 0x1000, 111);
    let rec2 = idx_record(key9, 0, (2 << 30) | 0x2000, 222);
    let file = idx_file(&[rec1, rec2]);
    let store1 = IndexStore::from_files(&vec![file.clone()]).unwrap();
    let store2 = IndexStore::from_files(&vec![file]).unwrap();
    let mut full = [0u8; 16];
    full[..9].copy_from_slice(&key9);
    let e1 = store1.get(&EncodingKey(full)).unwrap();
    let e2 = store2.get(&EncodingKey(full)).unwrap();
    // First entry wins: archive bits from the first record.
    assert_eq!(e1.archive, 1);
    assert_eq!(e1.offset, 0x1000);
    assert_eq!(e1.size, 111);
    assert_eq!(e1.archive, e2.archive);
    assert_eq!(e1.offset, e2.offset);
    assert_eq!(e1.size, e2.size);
}

#[test]
fn empty_index_set_is_file_not_found() {
    match IndexStore::from_files(&Vec::new()) {
        Err(CascError::FileNotFound) => {}
        _ => panic!("expected FileNotFound"),
    }
}

fn legacy_root_group(count: u32, content_flags: u32, locale_flags: u32, ids: &[i32], ckeys: &[[u8; 16]]) -> Vec<u8> {
    let mut v = Vec::new();
    v.extend_from_slice(&count.to_le_bytes());
    v.extend_from_slice(&content_flags.to_le_bytes());
    v.extend_from_slice(&locale_flags.to_le_bytes());
    for d in ids {
        v.extend_from_slice(&d.to_le_bytes());
    }
    for ck in ckeys {
        v.extend_from_slice(ck);
        v.extend_from_slice(&0u64.to_le_bytes());
    }
    v
}

#[test]
fn zero_locale_flags_reject_the_manifest() {
    // Scenario: a record group declaring locale_flags == 0 is fatal no
    // matter what else it holds.
    let data = legacy_root_group(1, 0x8, 0, &[5], &[[0xAA; 16]]);
    match parse_root(&data) {
        Err(CascError::InvalidConfig) => {}
        _ => panic!("expected InvalidConfig"),
    }
}

#[test]
fn legacy_root_group_maps_delta_coded_ids() {
    let ck1 = [0x11u8; 16];
    let ck2 = [0x22u8; 16];
    let data = legacy_root_group(2, 0, 1, &[5, 2], &[ck1, ck2]);
    let table = parse_root(&data).unwrap();
    // id0 = 5; id1 = 5 + 1 + 2 = 8.
    assert_eq!(table.get(5).unwrap().0, ck1);
    assert_eq!(table.get(8).unwrap().0, ck2);
    assert!(table.get(6).is_none());
}

#[test]
fn disallowed_content_flags_reject_the_manifest() {
    let data = legacy_root_group(1, 0x4, 1, &[5], &[[0xAA; 16]]);
    match parse_root(&data) {
        Err(CascError::InvalidConfig) => {}
        _ => panic!("expected InvalidConfig"),
    }
}

#[test]
fn cdn_path_layout() {
    let url = make_cdn_path(b"cdn.example.net/", b"/tpr/wow", b"AB12CD34ef", true);
    assert_eq!(
        url,
        b"https://cdn.example.net/tpr/wow/data/ab/12/ab12cd34ef.index".to_vec()
    );
    let url2 = make_cdn_path(b"host", b"p", b"00ff", false);
    assert_eq!(url2, b"https://host/p/data/00/ff/00ff".to_vec());
}

fn single_chunk_blte(payload: &[u8]) -> Vec<u8> {
    let mut v = b"BLTE".to_vec();
    v.extend_from_slice(&[0, 0, 0, 0]);
    v.push(b'N');
    v.extend_from_slice(payload);
    v
}

#[test]
fn fetch_resolves_through_the_local_chain() {
    // Scenario: a 30-byte archive header (reversed truncated-key check,
    // declared size, reserved bytes) followed by a single-chunk container
    // holding 16 raw bytes.
    let payload = *b"sixteen bytes!!!";
    let blte = single_chunk_blte(&payload);
    let key9 = [9u8, 8, 7, 6, 5, 4, 3, 2, 1];
    let size = (30 + blte.len()) as u32;
    let mut archive = Vec::new();
    let mut header_hash = [0u8; 16];
    for i in 0..9 {
        header_hash[15 - i] = key9[i];
    }
    archive.extend_from_slice(&header_hash);
    archive.extend_from_slice(&size.to_le_bytes());
    archive.extend_from_slice(&[0u8; 10]);
    archive.extend_from_slice(&blte);

    let ckey = ContentKey([0xC0; 16]);
    let mut ekey_bytes = [0u8; 16];
    ekey_bytes[..9].copy_from_slice(&key9);
    let ekey = EncodingKey(ekey_bytes);

    let mut by_file_id = HashMap::new();
    by_file_id.insert(77u32, ckey);
    let mut entries = HashMap::new();
    entries.insert(
        key_to_u128(&ckey.0),
        EncodingEntry { encoding_keys: vec![ekey], size: payload.len() as u64 },
    );
    let mut idx_entries = HashMap::new();
    let mut norm = [0u8; 16];
    norm[..9].copy_from_slice(&key9);
    idx_entries.insert(
        key_to_u128(&norm),
        IndexEntry { archive: 0, offset: 0, size, key9 },
    );
    let storage = CascStorage {
        config: CascConfig {
            build_name: b"test".to_vec(),
            root_hash: [0; 16],
            encoding_ckey: [0; 16],
            encoding_ekey: [0; 16],
            archives: Vec::new(),
            cdn_hosts: Vec::new(),
            cdn_path: Vec::new(),
            build_key: [0; 16],
            cdn_key: [0; 16],
        },
        root_table: RootTable { by_file_id },
        encoding: EncodingTable { entries, encryption: HashMap::new() },
        index_store: IndexStore { entries: idx_entries },
        cdn_index: CdnIndexStore::new_empty(),
        listfile: None,
        keys: KeyService::new(),
    };
    let archives = vec![archive];
    let out = read_file_by_filedataid(&storage, 77, &archives, false).unwrap();
    assert_eq!(out, payload.to_vec());
    // An unmapped id fails with FileNotFound.
    match read_file_by_filedataid(&storage, 78, &archives, false) {
        Err(CascError::FileNotFound) => {}
        _ => panic!("expected FileNotFound"),
    }
}

#[test]
fn encoding_table_page_records() {
    // Header: "EN", version, key sizes, two page sizes, one content-key
    // page, no encoding-key pages, no spec block.
    let mut v = Vec::new();
    v.extend_from_slice(b"EN");
    v.push(1);
    v.push(16);
    v.push(16);
    v.extend_from_slice(&4u16.to_be_bytes());
    v.extend_from_slice(&4u16.to_be_bytes());
    v.extend_from_slice(&1u32.to_be_bytes());
    v.extend_from_slice(&0u32.to_be_bytes());
    v.push(0);
    v.extend_from_slice(&0u32.to_be_bytes());
    // Page hash table: one 32-byte entry.
    v.extend_from_slice(&[0u8; 32]);
    let page_start = v.len();
    // One record: two encoding keys for one content key.
    let ckey = [0x31u8; 16];
    let ek1 = [0x41u8; 16];
    let ek2 = [0x42u8; 16];
    v.push(2);
    v.extend_from_slice(&[0, 0, 0, 1, 0]);
    v.extend_from_slice(&ckey);
    v.extend_from_slice(&ek1);
    v.extend_from_slice(&ek2);
    v.push(0);
    // Page padding to the 4 KiB boundary.
    while v.len() < page_start + 4096 {
        v.push(0);
    }
    let table = EncodingTable::parse(&v).unwrap();
    let entry = table.get(&ContentKey(ckey)).unwrap();
    assert_eq!(entry.encoding_keys.len(), 2);
    assert_eq!(entry.encoding_keys[0].0, ek1);
    assert_eq!(entry.encoding_keys[1].0, ek2);
    assert_eq!(entry.size, 256);
}

#[test]
fn missing_encoding_and_truncated_archive_errors() {
    let ckey = ContentKey([0xC1; 16]);
    let mut by_file_id = HashMap::new();
    by_file_id.insert(5u32, ckey);
    let storage = CascStorage {
        config: CascConfig {
            build_name: Vec::new(),
            root_hash: [0; 16],
            encoding_ckey: [0; 16],
            encoding_ekey: [0; 16],
            archives: Vec::new(),
            cdn_hosts: Vec::new(),
            cdn_path: Vec::new(),
            build_key: [0; 16],
            cdn_key: [0; 16],
        },
        root_table: RootTable { by_file_id },
        encoding: EncodingTable { entries: HashMap::new(), encryption: HashMap::new() },
        index_store: IndexStore { entries: HashMap::new() },
        cdn_index: CdnIndexStore::new_empty(),
        listfile: None,
        keys: KeyService::new(),
    };
    // The content key has no encoding entry.
    match storage.resolve_ekey(5) {
        Err(CascError::MissingEncoding) => {}
        _ => panic!("expected MissingEncoding"),
    }
    // An archive too short for the 30-byte header is an I/O-level failure.
    let entry = IndexEntry { archive: 0, offset: 0, size: 64, key9: [0; 9] };
    match casc_storage::storage::read_blte(&[0u8; 10], &entry, &storage.keys, false) {
        Err(CascError::Io) => {}
        _ => panic!("expected Io"),
    }
}

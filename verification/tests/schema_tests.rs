use std::collections::HashMap;

use casc_storage::db2::{Db2File, Db2Section};
use casc_storage::db2_schema::tables::area_table::parse_area_table;
use casc_storage::db2_schema::tables::map::parse_map;
use casc_storage::keysvc::KeyService;
use casc_storage::root::RootTable;
use casc_storage::storage::derive_casc_root_from_account_path;
use casc_storage::types::{
    key_to_u128, ContentKey, EncodingEntry, EncodingKey, EncodingTable, IndexEntry, IndexStore,
};

fn db2_with_sections(sections: Vec<Db2Section>) -> Db2File {
    Db2File {
        magic: *b"WDC3",
        record_count: 0,
        field_count: 0,
        record_size: 0,
        string_block_size: 0,
        section_count: sections.len() as u32,
        sections,
        wdc5: None,
    }
}

#[test]
fn area_rows_read_fixed_fields_and_names() {
    // Two 20-byte records at offset 8, then the string block.
    let mut data = vec![0u8; 8];
    // Record one: id 5, map 2, parent 3, level -1, flags 9, name at 48.
    data.extend_from_slice(&5u32.to_le_bytes());
    data.extend_from_slice(&2u16.to_le_bytes());
    data.extend_from_slice(&3u16.to_le_bytes());
    data.extend_from_slice(&(-1i32).to_le_bytes());
    data.extend_from_slice(&9u32.to_le_bytes());
    data.extend_from_slice(&48u32.to_le_bytes());
    // Record two: id 6, name offset outside the buffer.
    data.extend_from_slice(&6u32.to_le_bytes());
    data.extend_from_slice(&0u16.to_le_bytes());
    data.extend_from_slice(&0u16.to_le_bytes());
    data.extend_from_slice(&0i32.to_le_bytes());
    data.extend_from_slice(&0u32.to_le_bytes());
    data.extend_from_slice(&9999u32.to_le_bytes());
    data.extend_from_slice(b"Elwynn\0");
    let db2 = db2_with_sections(vec![Db2Section {
        data_offset: 8,
        data_size: 40,
        string_offset: 48,
        string_size: 7,
    }]);
    let rows = parse_area_table(&db2, &data);
    assert_eq!(rows.len(), 2);
    assert_eq!(rows[0].id, 5);
    assert_eq!(rows[0].map_id, 2);
    assert_eq!(rows[0].parent_area_id, 3);
    assert_eq!(rows[0].area_level, -1);
    assert_eq!(rows[0].flags, 9);
    assert_eq!(rows[0].name, b"Elwynn".to_vec());
    assert_eq!(rows[1].id, 6);
    assert_eq!(rows[1].name, b"".to_vec());
}

#[test]
fn map_rows_resolve_both_names() {
    let mut data = vec![0u8; 528 + 20];
    data[0..4].copy_from_slice(&11u32.to_le_bytes());
    data[4..8].copy_from_slice(&12u32.to_le_bytes());
    data[8..12].copy_from_slice(&13u32.to_le_bytes());
    data[520..524].copy_from_slice(&528u32.to_le_bytes());
    data[524..528].copy_from_slice(&533u32.to_le_bytes());
    data[528..533].copy_from_slice(b"dir0\0");
    data[533..538].copy_from_slice(b"Zone\0");
    let db2 = db2_with_sections(vec![Db2Section {
        data_offset: 0,
        data_size: 528,
        string_offset: 528,
        string_size: 10,
    }]);
    let rows = parse_map(&db2, &data);
    assert_eq!(rows.len(), 1);
    assert_eq!(rows[0].id, 11);
    assert_eq!(rows[0].parent_area_id, 12);
    assert_eq!(rows[0].flags, 13);
    assert_eq!(rows[0].internal_name, b"dir0".to_vec());
    assert_eq!(rows[0].map_name, b"Zone".to_vec());
}

#[test]
fn account_path_climbs_three_components() {
    assert_eq!(
        derive_casc_root_from_account_path(b"/games/wow/_retail_/WTF/Account"),
        b"/games/wow".to_vec()
    );
    assert_eq!(
        derive_casc_root_from_account_path(b"C:\\WoW\\_retail_\\WTF\\Account"),
        b"C:\\WoW".to_vec()
    );
    // Too few components: the path comes back unchanged.
    assert_eq!(
        derive_casc_root_from_account_path(b"WTF/Account"),
        b"WTF/Account".to_vec()
    );
}

#[test]
fn root_manifest_loads_through_index_and_encoding() {
    // The root manifest is itself an archive payload: one legacy group
    // with one record, wrapped in a single-chunk container behind a
    // 30-byte archive header.
    let mut manifest = Vec::new();
    manifest.extend_from_slice(&1u32.to_le_bytes());
    manifest.extend_from_slice(&0u32.to_le_bytes());
    manifest.extend_from_slice(&1u32.to_le_bytes());
    manifest.extend_from_slice(&42i32.to_le_bytes());
    manifest.extend_from_slice(&[0x77u8; 16]);
    manifest.extend_from_slice(&0u64.to_le_bytes());

    let mut blte = b"BLTE".to_vec();
    blte.extend_from_slice(&[0, 0, 0, 0]);
    blte.push(b'N');
    blte.extend_from_slice(&manifest);

    let key9 = [3u8; 9];
    let size = (30 + blte.len()) as u32;
    let mut archive = Vec::new();
    let mut header_hash = [0u8; 16];
    for i in 0..9 {
        header_hash[15 - i] = key9[i];
    }
    archive.extend_from_slice(&header_hash);
    archive.extend_from_slice(&size.to_le_bytes());
    archive.extend_from_slice(&[0u8; 10]);
    archive.extend_from_slice(&blte);

    let root_ckey = [0xCC; 16];
    let mut ekey_bytes = [0u8; 16];
    ekey_bytes[..9].copy_from_slice(&key9);
    let mut entries = HashMap::new();
    entries.insert(
        key_to_u128(&root_ckey),
        EncodingEntry { encoding_keys: vec![EncodingKey(ekey_bytes)], size: manifest.len() as u64 },
    );
    let encoding = EncodingTable { entries, encryption: HashMap::new() };
    let mut idx_entries = HashMap::new();
    idx_entries.insert(
        key_to_u128(&ekey_bytes),
        IndexEntry { archive: 0, offset: 0, size, key9 },
    );
    let indices = IndexStore { entries: idx_entries };
    let keys = KeyService::new();
    let table = RootTable::load_from_index(&archive, &indices, &encoding, root_ckey, &keys)
        .unwrap();
    assert_eq!(table.get(42).unwrap().0, [0x77u8; 16]);
    let _ = ContentKey(root_ckey);
}

use casc_storage::blte::printable_block_type;
use casc_storage::bytes::{read_i32_le, read_u16_le, read_u32_be, read_u32_le, read_u64_le};
use casc_storage::cdn_index::parse_index;
use casc_storage::db2::Db2Section;
use casc_storage::db2_schema::record_iter::iter_section_records;
use casc_storage::errors::CascError;
use casc_storage::listfile::Listfile;
use casc_storage::reader::Reader;
use casc_storage::root::RootTable;
use casc_storage::types::EncodingKey;
use casc_storage::wdc5::types::{CompressionType, Value32};
use std::collections::HashMap;

#[test]
fn fixed_width_reads() {
    let data = [0x01u8, 0x02, 0x03, 0x04, 0x05, 0x06, 0x07, 0x08];
    assert_eq!(read_u16_le(&data, 0).unwrap(), 0x0201);
    assert_eq!(read_u32_le(&data, 0).unwrap(), 0x04030201);
    assert_eq!(read_u32_be(&data, 0).unwrap(), 0x01020304);
    assert_eq!(read_i32_le(&[0xFF, 0xFF, 0xFF, 0xFF], 0).unwrap(), -1);
    assert_eq!(read_u64_le(&data, 0).unwrap(), 0x0807060504030201);
    assert!(read_u32_le(&data, 5).is_none());
}

#[test]
fn cursor_reads_advance_and_bound() {
    let data = [0xAAu8, 0x01, 0x02, 0x03, 0x04, 0x10, 0x20];
    let mut r = Reader::new(&data);
    assert_eq!(r.read_u8(CascError::InvalidConfig).unwrap(), 0xAA);
    assert_eq!(r.read_u32_be(CascError::InvalidConfig).unwrap(), 0x01020304);
    assert_eq!(r.read_u16_le(CascError::InvalidConfig).unwrap(), 0x2010);
    match r.read_u8(CascError::InvalidConfig) {
        Err(CascError::InvalidConfig) => {}
        _ => panic!("expected InvalidConfig"),
    }
    let mut r2 = Reader::new(&data);
    r2.seek(5, CascError::InvalidConfig).unwrap();
    assert_eq!(r2.read_u16_be(CascError::InvalidConfig).unwrap(), 0x1020);
    assert!(r2.seek(100, CascError::InvalidConfig).is_err());
}

#[test]
fn cursor_reads_wide_values() {
    let data = [0x01u8, 0x02, 0x03, 0x04, 0x05, 0x06, 0x07, 0x08, 0x09];
    let mut r = Reader::new(&data);
    assert_eq!(r.read_u40_be(CascError::InvalidBlte).unwrap(), 0x0102030405);
    let mut r2 = Reader::new(&data);
    assert_eq!(r2.read_u64_le(CascError::InvalidBlte).unwrap(), 0x0807060504030201);
    let mut r3 = Reader::new(&data);
    let md5 = r3.read_md5(CascError::InvalidBlte);
    assert!(md5.is_err());
}

#[test]
fn section_records_step_by_record_size() {
    let data = [0u8; 100];
    let section = Db2Section { data_offset: 10, data_size: 25, string_offset: 35, string_size: 0 };
    let mut it = iter_section_records(&data, &section, 10);
    assert_eq!(it.next(data.len()).unwrap(), (10, 20));
    assert_eq!(it.next(data.len()).unwrap(), (20, 30));
    // Only a partial record remains, so iteration ends.
    assert!(it.next(data.len()).is_none());
}

#[test]
fn listfile_keeps_only_rooted_names() {
    let mut by_file_id = HashMap::new();
    by_file_id.insert(10u32, casc_storage::types::ContentKey([1; 16]));
    let root = RootTable { by_file_id };
    let text = b"10,Interface\\Icons\\One.blp\n11,unrooted.blp\nnot-a-line\n";
    let lf = Listfile::from_text(text, &root);
    assert_eq!(lf.lookup(b"interface/icons/one.blp").unwrap(), 10);
    assert!(lf.lookup(b"unrooted.blp").is_none());
}

#[test]
fn remote_index_records_parse_via_the_footer() {
    // One record: 16-byte key, 4-byte size, 4-byte offset; footer declares
    // version 1, 4 KiB blocks, 4-byte offsets, 4-byte sizes, 16-byte keys.
    let key = [7u8; 16];
    let mut v = Vec::new();
    v.extend_from_slice(&key);
    v.extend_from_slice(&123u32.to_be_bytes());
    v.extend_from_slice(&0x4000u32.to_be_bytes());
    let mut footer = vec![1u8, 0, 0, 4, 4, 4, 16, 8];
    footer.extend_from_slice(&1u32.to_be_bytes());
    footer.extend_from_slice(&[0u8; 8]);
    v.extend_from_slice(&footer);
    let mut map = HashMap::new();
    parse_index(&v, 3, &mut map).unwrap();
    let store = casc_storage::types::CdnIndexStore { entries: map };
    let mut lookup_key = [0u8; 16];
    lookup_key[..9].copy_from_slice(&key[..9]);
    let e = store.get(&EncodingKey(lookup_key)).unwrap();
    assert_eq!(e.archive, 3);
    assert_eq!(e.size, 123);
    assert_eq!(e.offset, 0x4000);
}

#[test]
fn small_display_helpers() {
    assert_eq!(printable_block_type(b'N'), 'N');
    assert_eq!(printable_block_type(b'E'), 'E');
    assert_eq!(printable_block_type(0x00), '?');
    assert_eq!(CascError::InvalidBlte.describe(), "invalid blte format");
    assert_eq!(CompressionType::from_u32(3), Some(CompressionType::Pallet));
    assert_eq!(CompressionType::from_u32(0), Some(CompressionType::Uncompressed));
    assert_eq!(CompressionType::from_u32(99), None);
    assert_eq!(Value32(0xFFFF_FFFF).as_u32(), 0xFFFF_FFFF);
    assert_eq!(Value32(0xFFFF_FFFF).as_i32(), -1);
}

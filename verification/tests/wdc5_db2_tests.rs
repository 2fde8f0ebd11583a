use std::collections::HashMap;

use casc_storage::db2::parse_db2;
use casc_storage::db2_schema::dbd::{parse_dbd_str, DbdType};
use casc_storage::db2_schema::string_table::read_string;
use casc_storage::errors::CascError;
use casc_storage::tact_keys::{find_static_header, parse_tactkey_payload, seed_keys_from_tact_tables,
    wowstatic_payload};
use casc_storage::keysvc::KeyService;
use casc_storage::wdc5::decoder::{decode_row_value, BitReader, DecodedValue};
use casc_storage::wdc5::types::{ColumnMetaData, CompressionType, FieldMetaData, Value32,
    Wdc5Meta, Wdc5Section};

#[test]
fn bit_reader_reads_packed_fields() {
    // 0xB4 0x01 little-endian: bits are 0b0000_0001_1011_0100.
    let data = [0xB4u8, 0x01];
    let mut r = BitReader::new(&data, 0);
    r.set_position(2);
    assert_eq!(r.read_bits(5).unwrap(), 0b01101);
    assert_eq!(r.read_bits(0).unwrap(), 0);
    let mut r2 = BitReader::new(&data, 0);
    r2.set_position(0);
    assert_eq!(r2.read_bits(16).unwrap(), 0x01B4);
    // Reading past the end is refused.
    let mut r3 = BitReader::new(&data, 0);
    r3.set_position(10);
    assert!(r3.read_bits(8).is_none());
}

#[test]
fn bit_reader_sign_extends() {
    let data = [0b0000_0111u8];
    let mut r = BitReader::new(&data, 0);
    assert_eq!(r.read_signed(3).unwrap(), -1);
    let data2 = [0b0000_0011u8];
    let mut r2 = BitReader::new(&data2, 0);
    assert_eq!(r2.read_signed(3).unwrap(), 3);
}

fn empty_section(records_data: Vec<u8>, record_offsets: Vec<usize>, record_size: u32) -> Wdc5Section {
    Wdc5Section {
        num_records: record_offsets.len() as u32,
        string_table_size: 0,
        record_size,
        is_sparse: false,
        ptr_records: 0,
        total_records: record_offsets.len() as u32,
        record_id_base: 0,
        ptr_string_block: 0,
        ptr_offset_map: 0,
        record_sizes: record_offsets.iter().map(|_| record_size as usize).collect(),
        records_data,
        record_offsets,
        string_table: HashMap::new(),
        record_ids: Vec::new(),
        parent_ids: Vec::new(),
        copy_data: HashMap::new(),
        sparse_entries: Vec::new(),
    }
}

fn one_column_meta(compression: CompressionType, width_bits: i16, val1: u32, val3: u32) -> Wdc5Meta {
    Wdc5Meta {
        records_count: 2,
        fields_count: 1,
        record_size: 4,
        total_record_data: 8,
        id_field_index: 0,
        field_meta: vec![FieldMetaData { bits: 32 - width_bits, offset: 0 }],
        column_meta: vec![ColumnMetaData {
            record_offset: 0,
            size: width_bits as u16,
            additional_data_size: 0,
            compression,
            val1,
            val2: 0,
            val3,
        }],
        pallet_data: vec![Vec::new()],
        common_data: vec![HashMap::new()],
        sections: Vec::new(),
        table_hash: 0,
        layout_hash: 0,
    }
}

#[test]
fn pallet_value_is_the_palette_entry_at_the_raw_index() {
    // One 8-bit pallet index per 4-byte record; rows 0 and 1 pick palette
    // entries 2 and 0.
    let section = empty_section(vec![2, 0, 0, 0, 0, 0, 0, 0], vec![0, 4], 4);
    let mut meta = one_column_meta(CompressionType::Pallet, 8, 0, 0);
    meta.pallet_data = vec![vec![Value32(100), Value32(200), Value32(300)]];
    let v0 = decode_row_value(0, 0, 0, &section, &meta).unwrap();
    assert_eq!(v0, DecodedValue::UInt(300));
    let v1 = decode_row_value(1, 0, 0, &section, &meta).unwrap();
    assert_eq!(v1, DecodedValue::UInt(100));
    // Determinism: the same cell decodes to the same value.
    assert_eq!(
        decode_row_value(0, 0, 0, &section, &meta),
        decode_row_value(0, 0, 0, &section, &meta)
    );
    // An index outside the palette decodes to nothing.
    let section_bad = empty_section(vec![9, 0, 0, 0], vec![0], 4);
    assert!(decode_row_value(0, 0, 0, &section_bad, &meta).is_none());
}

#[test]
fn common_value_falls_back_to_the_default() {
    let section = empty_section(vec![0, 0, 0, 0], vec![0], 4);
    let mut meta = one_column_meta(CompressionType::Common, 0, 777, 0);
    let mut m = HashMap::new();
    m.insert(5u32, Value32(42));
    meta.common_data = vec![m];
    assert_eq!(decode_row_value(0, 5, 0, &section, &meta).unwrap(), DecodedValue::UInt(42));
    assert_eq!(decode_row_value(0, 6, 0, &section, &meta).unwrap(), DecodedValue::UInt(777));
}

#[test]
fn immediate_values_read_from_the_record() {
    let section = empty_section(vec![0x2A, 0, 0, 0], vec![0], 4);
    let meta = one_column_meta(CompressionType::Immediate, 8, 0, 0);
    assert_eq!(decode_row_value(0, 0, 0, &section, &meta).unwrap(), DecodedValue::UInt(0x2A));
    let meta_s = one_column_meta(CompressionType::SignedImmediate, 8, 0, 0);
    let section_s = empty_section(vec![0xFF, 0, 0, 0], vec![0], 4);
    assert_eq!(
        decode_row_value(0, 0, 0, &section_s, &meta_s).unwrap(),
        DecodedValue::Int(-1)
    );
}

#[test]
fn legacy_db2_bounds_are_exact() {
    // WDC1: 20-byte header + records + strings must fit, and the implicit
    // section spans the payload after byte 72.
    let mut v = Vec::new();
    v.extend_from_slice(b"WDC1");
    v.extend_from_slice(&1u32.to_le_bytes());
    v.extend_from_slice(&1u32.to_le_bytes());
    v.extend_from_slice(&4u32.to_le_bytes());
    v.extend_from_slice(&0u32.to_le_bytes());
    while v.len() < 80 {
        v.push(0);
    }
    let f = parse_db2(&v).unwrap();
    assert_eq!(f.magic, *b"WDC1");
    assert_eq!(f.record_count, 1);
    assert_eq!(f.section_count, 1);
    assert_eq!(f.sections[0].data_offset, 72);
    assert_eq!(f.sections[0].data_size, 8);

    // Declaring more records than the buffer holds is fatal.
    let mut bad = v.clone();
    bad[4..8].copy_from_slice(&1000u32.to_le_bytes());
    match parse_db2(&bad) {
        Err(CascError::InvalidConfig) => {}
        _ => panic!("expected InvalidConfig"),
    }
}

#[test]
fn sectioned_db2_rejects_ranges_past_the_buffer() {
    // WDC3 with one section whose declared record range exceeds the data.
    let mut v = vec![0u8; 72 + 40];
    v[0..4].copy_from_slice(b"WDC3");
    v[12..16].copy_from_slice(&4u32.to_le_bytes());
    v[68..72].copy_from_slice(&1u32.to_le_bytes());
    let base = 72;
    v[base + 8..base + 12].copy_from_slice(&100u32.to_le_bytes());
    v[base + 12..base + 16].copy_from_slice(&50u32.to_le_bytes());
    match parse_db2(&v) {
        Err(CascError::InvalidConfig) => {}
        _ => panic!("expected InvalidConfig"),
    }
}

#[test]
fn unknown_magic_is_rejected() {
    let mut v = vec![0u8; 80];
    v[0..4].copy_from_slice(b"WXYZ");
    match parse_db2(&v) {
        Err(CascError::InvalidConfig) => {}
        _ => panic!("expected InvalidConfig"),
    }
}

#[test]
fn string_runs_read_to_the_null() {
    let data = b"abc\0def\0";
    assert_eq!(read_string(data, 0).unwrap(), b"abc".to_vec());
    assert_eq!(read_string(data, 4).unwrap(), b"def".to_vec());
    assert_eq!(read_string(data, 8).unwrap(), b"".to_vec());
    assert!(read_string(data, 9).is_none());
}

#[test]
fn table_definitions_parse_columns() {
    let text = b"MyTable\nCOLUMNS\nint ID\nlocstring Name_lang\nint<Other::ID> RefID\nfloat[3] Coords\nLAYOUT\nint ignored\n";
    let t = parse_dbd_str(text).unwrap();
    assert_eq!(t.name, b"MyTable".to_vec());
    assert_eq!(t.fields.len(), 4);
    assert_eq!(t.fields[0].name, b"ID".to_vec());
    assert_eq!(t.fields[0].ty, DbdType::Int);
    assert_eq!(t.fields[1].ty, DbdType::LocText);
    assert_eq!(t.fields[2].ty, DbdType::Int);
    assert_eq!(t.fields[3].ty, DbdType::Float);
    assert_eq!(t.fields[3].array_len, 3);
}

fn static_table(payload: Vec<u8>) -> Vec<u8> {
    let mut v = vec![0u8; 8];
    let mut build = [0u8; 128];
    build[..10].copy_from_slice(b"WOWSTATIC_");
    v.extend_from_slice(&build);
    v.extend_from_slice(&payload);
    v
}

fn tactkey_payload(ids: &[u32], keys: &[[u8; 16]]) -> Vec<u8> {
    // Header: (record count, aux, key size, aux), then filler, then the
    // key blob immediately followed by the id table at the very end.
    let mut p = Vec::new();
    p.extend_from_slice(&(ids.len() as u32).to_le_bytes());
    p.extend_from_slice(&1u32.to_le_bytes());
    p.extend_from_slice(&16u32.to_le_bytes());
    p.extend_from_slice(&0u32.to_le_bytes());
    p.extend_from_slice(&[0u8; 16]);
    for k in keys {
        p.extend_from_slice(k);
    }
    for id in ids {
        p.extend_from_slice(&(id << 16).to_le_bytes());
    }
    p
}

#[test]
fn key_table_scan_locates_header_and_records() {
    let payload = tactkey_payload(&[15, 20], &[[0xAA; 16], [0xBB; 16]]);
    let (off, count) = find_static_header(&payload, 16).unwrap();
    assert_eq!(off, 0);
    assert_eq!(count, 2);
    let map = parse_tactkey_payload(&payload).unwrap();
    assert_eq!(map.get(&15).unwrap(), &[0xAA; 16]);
    assert_eq!(map.get(&20).unwrap(), &[0xBB; 16]);
}

#[test]
fn seeding_registers_resolved_lookup_pairs() {
    let key15 = [0xABu8; 16];
    let tactkey = static_table(tactkey_payload(&[15], &[key15]));
    // Lookup payload: header expecting 8-byte keys, the key-name blob,
    // then the id table (ids shifted left 24 bits).
    let mut lp = Vec::new();
    lp.extend_from_slice(&1u32.to_le_bytes());
    lp.extend_from_slice(&1u32.to_le_bytes());
    lp.extend_from_slice(&8u32.to_le_bytes());
    lp.extend_from_slice(&0u32.to_le_bytes());
    lp.extend_from_slice(&0x1122334455667788u64.to_le_bytes());
    lp.extend_from_slice(&(15u32 << 24).to_le_bytes());
    let lookup = static_table(lp);
    let mut ks = KeyService::new();
    let n = seed_keys_from_tact_tables(&mut ks, &tactkey, &lookup).unwrap();
    assert_eq!(n, 1);
    assert_eq!(ks.get(0x1122334455667788).unwrap(), key15);
}

#[test]
fn payload_requires_the_static_marker() {
    let mut bytes = vec![0u8; 200];
    assert!(wowstatic_payload(&bytes).is_err());
    bytes[8..18].copy_from_slice(b"WOWSTATIC_");
    assert!(wowstatic_payload(&bytes).is_ok());
}

#[test]
fn whole_wdc5_buffer_parses_and_decodes() {
    // Minimal one-section, one-column table: 204-byte header, one 40-byte
    // section header, one field meta, one column meta, one 4-byte record.
    let mut v = vec![0u8; 276];
    v[0..4].copy_from_slice(b"WDC5");
    v[136..140].copy_from_slice(&1u32.to_le_bytes());
    v[140..144].copy_from_slice(&1u32.to_le_bytes());
    v[144..148].copy_from_slice(&4u32.to_le_bytes());
    v[152..156].copy_from_slice(&0xAABBCCDDu32.to_le_bytes());
    v[156..160].copy_from_slice(&0x11223344u32.to_le_bytes());
    v[174..176].copy_from_slice(&0u16.to_le_bytes());
    v[176..180].copy_from_slice(&1u32.to_le_bytes());
    v[200..204].copy_from_slice(&1u32.to_le_bytes());
    let sb = 204;
    v[sb + 8..sb + 12].copy_from_slice(&272u32.to_le_bytes());
    v[sb + 12..sb + 16].copy_from_slice(&1u32.to_le_bytes());
    let fb = 244;
    v[fb..fb + 2].copy_from_slice(&24i16.to_le_bytes());
    let cb = 248;
    v[cb..cb + 2].copy_from_slice(&0u16.to_le_bytes());
    v[cb + 2..cb + 4].copy_from_slice(&8u16.to_le_bytes());
    v[cb + 8..cb + 12].copy_from_slice(&1u32.to_le_bytes());
    v[272] = 0x2A;
    let f = parse_db2(&v).unwrap();
    assert_eq!(f.magic, *b"WDC5");
    let meta = f.wdc5.as_ref().unwrap();
    assert_eq!(meta.records_count, 1);
    assert_eq!(meta.fields_count, 1);
    assert_eq!(meta.table_hash, 0xAABBCCDD);
    assert_eq!(meta.layout_hash, 0x11223344);
    assert_eq!(meta.sections.len(), 1);
    let sec = &meta.sections[0];
    assert_eq!(sec.num_records, 1);
    assert_eq!(sec.records_data, vec![0x2A, 0, 0, 0]);
    // The record id comes from the id column; the cell decodes from the
    // record bits.
    assert_eq!(sec.record_ids, vec![0x2A]);
    assert_eq!(
        decode_row_value(0, 0x2A, 0, sec, meta).unwrap(),
        DecodedValue::UInt(0x2A)
    );
    // An encrypted section is skipped rather than decoded.
    let mut enc = v.clone();
    enc[sb..sb + 8].copy_from_slice(&1u64.to_le_bytes());
    let f2 = parse_db2(&enc).unwrap();
    assert_eq!(f2.wdc5.as_ref().unwrap().sections.len(), 0);
}

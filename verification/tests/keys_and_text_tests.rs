use casc_storage::config::{detect_delimiter, hex16, parse_build_info, parse_cdn_config_text,
    parse_config_text};
use casc_storage::hexutil::{decode_hex, encode_hex_lower, encode_hex_upper, parse_hex_u64};
use casc_storage::keysvc::KeyService;
use casc_storage::listfile::{name_hash, normalize_name};
use casc_storage::root::file_data_hash;
use casc_storage::text::{split_byte, split_ws, trim};

#[test]
fn builtin_keys_are_loaded() {
    let ks = KeyService::new();
    let key = ks.get(0xFA505078126ACB3E).unwrap();
    assert_eq!(
        encode_hex_upper(&key),
        b"BDC51862ABED79B2DE48C8E7E66C6200".to_vec()
    );
    assert!(ks.get(0x0123456789ABCDEF).is_none());
}

#[test]
fn insert_key_reports_changes_only() {
    let mut ks = KeyService::new();
    let k1 = [1u8; 16];
    let k2 = [2u8; 16];
    assert!(ks.insert_key(42, k1));
    assert!(!ks.insert_key(42, k1));
    assert!(ks.insert_key(42, k2));
    assert_eq!(ks.get(42).unwrap(), k2);
}

#[test]
fn key_file_lines_parse_and_first_entry_wins() {
    let mut ks = KeyService::new();
    let text = b"# comment\n\
0x0000000000000042;000102030405060708090A0B0C0D0E0F\n\
0000000000000042 FFFFFFFFFFFFFFFFFFFFFFFFFFFFFFFF\n\
not a key line\n\
0000000000000043 0F0E0D0C0B0A09080706050403020100\n";
    let added = ks.load_from_text(text);
    assert_eq!(added, 2);
    assert_eq!(ks.get(0x42).unwrap()[0], 0x00);
    assert_eq!(ks.get(0x42).unwrap()[15], 0x0F);
    assert_eq!(ks.get(0x43).unwrap()[0], 0x0F);
}

#[test]
fn hex_decoding_and_encoding() {
    assert_eq!(decode_hex(b"00ff10Ab").unwrap(), vec![0x00, 0xFF, 0x10, 0xAB]);
    assert!(decode_hex(b"0g").is_none());
    assert!(decode_hex(b"abc").is_none());
    assert_eq!(parse_hex_u64(b"FA505078126ACB3E").unwrap(), 0xFA505078126ACB3E);
    assert_eq!(parse_hex_u64(b"10").unwrap(), 16);
    assert!(parse_hex_u64(b"").is_none());
    assert!(parse_hex_u64(b"1Z").is_none());
    assert_eq!(encode_hex_lower(&[0xAB, 0x01]), b"ab01".to_vec());
    assert_eq!(encode_hex_upper(&[0xAB, 0x01]), b"AB01".to_vec());
}

#[test]
fn hex16_requires_exactly_sixteen_bytes() {
    assert!(hex16(b"00112233445566778899AABBCCDDEEFF").is_ok());
    assert!(hex16(b"0011").is_err());
}

#[test]
fn text_splitting() {
    assert_eq!(trim(b"  abc\t\r\n"), b"abc");
    let parts = split_byte(b"a|b||c", b'|');
    assert_eq!(parts, vec![b"a".to_vec(), b"b".to_vec(), b"".to_vec(), b"c".to_vec()]);
    let words = split_ws(b"  one  two\tthree ");
    assert_eq!(words, vec![b"one".to_vec(), b"two".to_vec(), b"three".to_vec()]);
}

#[test]
fn hashes_match_reference_values() {
    // FNV-1a over the id's four little-endian bytes, from the FNV offset
    // basis.
    let mut expected: u64 = 0xCBF29CE484222325;
    for b in 53188u32.to_le_bytes() {
        expected = 0x100000001B3u64.wrapping_mul(expected ^ b as u64);
    }
    assert_eq!(file_data_hash(53188), expected);

    let mut h: u64 = 0xcbf29ce484222325;
    for b in b"interface/icons/temp.blp" {
        h ^= *b as u64;
        h = h.wrapping_mul(0x100000001b3);
    }
    assert_eq!(name_hash(b"interface/icons/temp.blp"), h);
}

#[test]
fn names_normalize_to_lowercase_forward_slashes() {
    assert_eq!(
        normalize_name(b"  Interface\\Icons\\Temp.BLP "),
        b"interface/icons/temp.blp".to_vec()
    );
}

#[test]
fn build_info_prefers_the_retail_row() {
    let text = b"Branch!STRING:0|Build Key!HEX:16|CDN Key!HEX:16|CDN Path!STRING:0|CDN Hosts!STRING:0|Version!STRING:0|Product!STRING:0\n\
eu|11111111111111111111111111111111|2222222222222222222222222222222222|/tpr/test|a.example b.example|1.0.0.1111|wow_classic\n\
eu|3333333333333333333333333333333333|4444444444444444444444444444444444|/tpr/wow|c.example|2.0.0.2222|wow\n";
    let info = parse_build_info(text).unwrap();
    assert_eq!(info.build_key, b"3333333333333333333333333333333333".to_vec());
    assert_eq!(info.cdn_path, b"/tpr/wow".to_vec());
    assert_eq!(info.cdn_hosts, vec![b"c.example".to_vec()]);
    assert_eq!(info.build_name.unwrap(), b"2.0.0.2222".to_vec());
}

#[test]
fn build_info_without_required_fields_is_rejected() {
    assert!(parse_build_info(b"Product\nwow\n").is_err());
}

#[test]
fn delimiter_detection() {
    assert_eq!(detect_delimiter(b"a|b"), b'|');
    assert_eq!(detect_delimiter(b"a!b"), b'!');
    assert_eq!(detect_delimiter(b"a\tb"), b'\t');
    assert_eq!(detect_delimiter(b"ab"), b' ');
}

#[test]
fn build_config_supplies_hashes() {
    let text = b"# Build configuration\n\
root = 000102030405060708090a0b0c0d0e0f\n\
encoding = 101112131415161718191a1b1c1d1e1f 202122232425262728292a2b2c2d2e2f\n\
build-name = WOW-11111patch1.0.0_Retail\n";
    let cfg = parse_config_text(text).unwrap();
    assert_eq!(cfg.root_hash[0], 0x00);
    assert_eq!(cfg.root_hash[15], 0x0F);
    assert_eq!(cfg.encoding_ckey[0], 0x10);
    assert_eq!(cfg.encoding_ekey[0], 0x20);
    assert_eq!(cfg.build_name, b"WOW-11111patch1.0.0_Retail".to_vec());
}

#[test]
fn build_config_missing_encoding_is_rejected() {
    assert!(parse_config_text(b"root = 000102030405060708090a0b0c0d0e0f\n").is_err());
}

#[test]
fn build_config_bad_hex_is_rejected() {
    assert!(parse_config_text(b"root = zz0102030405060708090a0b0c0d0e0f\n").is_err());
}

#[test]
fn cdn_config_lists_archives() {
    let text = b"# cdn config\narchives = aabbcc ddeeff\narchive-group = 112233\n";
    let archives = parse_cdn_config_text(text).unwrap();
    assert_eq!(archives, vec![b"aabbcc".to_vec(), b"ddeeff".to_vec()]);
}

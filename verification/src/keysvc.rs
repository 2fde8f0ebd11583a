//! The decryption-key service: a monotonically growing table of named
//! 128-bit keys, seeded from a fixed builtin set and extended from key files
//! and from key tables found inside the asset store itself.

use vstd::prelude::*;

use std::collections::HashMap;

use crate::hexutil::{decode_hex16, parse_hex_u64, spec_decode_hex16, spec_parse_hex_u64};
use crate::text::{spec_split, spec_split_ws, spec_trim, sep_prefix_len, split_byte, split_ws,
    trim, find_byte};

verus! {

broadcast use vstd::std_specs::hash::group_hash_axioms;

/// Owns all decryption key material, keyed by 64-bit key name.
pub struct KeyService {
    keys: HashMap<u64, [u8; 16]>,
}

impl View for KeyService {
    type V = Map<u64, Seq<u8>>;

    closed spec fn view(&self) -> Map<u64, Seq<u8>> {
        Map::new(|k: u64| self.keys@.contains_key(k), |k: u64| self.keys@[k]@)
    }
}

impl KeyService {
    /// The builtin key table every service starts from.
    pub open spec fn spec_builtin() -> Map<u64, Seq<u8>> {
        map![
            0x2915DA21ADE22EA8u64 => seq![0x3du8, 0x4bu8, 0x4cu8, 0x0fu8, 0xe8u8, 0x41u8, 0x1cu8, 0xddu8, 0x8eu8, 0x14u8, 0xfdu8, 0x2du8, 0x5eu8, 0x43u8, 0xbdu8, 0x0bu8],
            0xE07E107F1390A3DFu64 => seq![0x29u8, 0x0du8, 0x27u8, 0xb0u8, 0xe8u8, 0x71u8, 0xf8u8, 0xc5u8, 0xb1u8, 0x4au8, 0x14u8, 0xe5u8, 0x14u8, 0xd0u8, 0xf0u8, 0xd9u8],
            0xFA505078126ACB3Eu64 => seq![0xbdu8, 0xc5u8, 0x18u8, 0x62u8, 0xabu8, 0xedu8, 0x79u8, 0xb2u8, 0xdeu8, 0x48u8, 0xc8u8, 0xe7u8, 0xe6u8, 0x6cu8, 0x62u8, 0x00u8],
            0xFF813F7D062AC0BCu64 => seq![0xaau8, 0x0bu8, 0x5cu8, 0x77u8, 0xf0u8, 0x88u8, 0xccu8, 0xc2u8, 0xd3u8, 0x90u8, 0x49u8, 0xbdu8, 0x26u8, 0x7fu8, 0x06u8, 0x6du8],
            0xD1E9B5EDF9283668u64 => seq![0x8eu8, 0x4au8, 0x25u8, 0x79u8, 0x89u8, 0x4eu8, 0x38u8, 0xb4u8, 0xabu8, 0x90u8, 0x58u8, 0xbau8, 0x5cu8, 0x73u8, 0x28u8, 0xeeu8],
            0xB76729641141CB34u64 => seq![0x98u8, 0x49u8, 0xd1u8, 0xaau8, 0x7bu8, 0x1fu8, 0xd0u8, 0x98u8, 0x19u8, 0xc5u8, 0xc6u8, 0x62u8, 0x83u8, 0xa3u8, 0x26u8, 0xecu8],
            0xFFB9469FF16E6BF8u64 => seq![0xd5u8, 0x14u8, 0xbdu8, 0x19u8, 0x09u8, 0xa9u8, 0xe5u8, 0xdcu8, 0x87u8, 0x03u8, 0xf4u8, 0xb8u8, 0xbbu8, 0x1du8, 0xfdu8, 0x9au8],
            0x23C5B5DF837A226Cu64 => seq![0x14u8, 0x06u8, 0xe2u8, 0xd8u8, 0x73u8, 0xb6u8, 0xfcu8, 0x99u8, 0x21u8, 0x7au8, 0x18u8, 0x08u8, 0x81u8, 0xdau8, 0x8du8, 0x62u8],
            0xE2854509C471C554u64 => seq![0x43u8, 0x32u8, 0x65u8, 0xf0u8, 0xcdu8, 0xebu8, 0x2fu8, 0x4eu8, 0x65u8, 0xc0u8, 0xeeu8, 0x70u8, 0x08u8, 0x71u8, 0x4du8, 0x9eu8],
            0x8EE2CB82178C995Au64 => seq![0xdau8, 0x6au8, 0xfcu8, 0x98u8, 0x9eu8, 0xd6u8, 0xcau8, 0xd2u8, 0x79u8, 0x88u8, 0x59u8, 0x92u8, 0xc0u8, 0x37u8, 0xa8u8, 0xeeu8],
            0x5813810F4EC9B005u64 => seq![0x01u8, 0xbeu8, 0x8bu8, 0x43u8, 0x14u8, 0x2du8, 0xd9u8, 0x9au8, 0x9eu8, 0x69u8, 0x0fu8, 0xadu8, 0x28u8, 0x8bu8, 0x60u8, 0x82u8],
            0x7F9E217166ED43EAu64 => seq![0x05u8, 0xfcu8, 0x92u8, 0x7bu8, 0x9fu8, 0x4fu8, 0x5bu8, 0x05u8, 0x56u8, 0x81u8, 0x42u8, 0x91u8, 0x2au8, 0x05u8, 0x2bu8, 0x0fu8],
            0xC4A8D364D23793F7u64 => seq![0xd1u8, 0xacu8, 0x20u8, 0xfdu8, 0x14u8, 0x95u8, 0x7fu8, 0xabu8, 0xc2u8, 0x71u8, 0x96u8, 0xe9u8, 0xf6u8, 0xe7u8, 0x02u8, 0x4au8],
            0x40A234AEBCF2C6E5u64 => seq![0xc6u8, 0xc5u8, 0xf6u8, 0xc7u8, 0xf7u8, 0x35u8, 0xd7u8, 0xd9u8, 0x4cu8, 0x87u8, 0x26u8, 0x7fu8, 0xa4u8, 0x99u8, 0x4du8, 0x45u8],
            0x9CF7DFCFCBCE4AE5u64 => seq![0x72u8, 0xa9u8, 0x7au8, 0x24u8, 0xa9u8, 0x98u8, 0xe3u8, 0xa5u8, 0x50u8, 0x0fu8, 0x38u8, 0x71u8, 0xf3u8, 0x76u8, 0x28u8, 0xc0u8],
            0x4E4BDECAB8485B4Fu64 => seq![0x38u8, 0x32u8, 0xd7u8, 0xc4u8, 0x2au8, 0xacu8, 0x92u8, 0x68u8, 0xf0u8, 0x0bu8, 0xe7u8, 0xb6u8, 0xb4u8, 0x8eu8, 0xc9u8, 0xafu8],
            0x94A50AC54EFF70E4u64 => seq![0xc2u8, 0x50u8, 0x1au8, 0x72u8, 0x65u8, 0x4bu8, 0x96u8, 0xf8u8, 0x63u8, 0x50u8, 0xc5u8, 0xa9u8, 0x27u8, 0x96u8, 0x2fu8, 0x7au8],
            0xBA973B0E01DE1C2Cu64 => seq![0xd8u8, 0x3bu8, 0xbcu8, 0xb4u8, 0x6cu8, 0xc4u8, 0x38u8, 0xb1u8, 0x7au8, 0x48u8, 0xe7u8, 0x6cu8, 0x4fu8, 0x56u8, 0x54u8, 0xa3u8],
            0x494A6F8E8E108BEFu64 => seq![0xf0u8, 0xfdu8, 0xe1u8, 0xd2u8, 0x9bu8, 0x27u8, 0x4fu8, 0x6eu8, 0x7du8, 0xbdu8, 0xb7u8, 0xffu8, 0x81u8, 0x5fu8, 0xe9u8, 0x10u8],
            0x918D6DD0C3849002u64 => seq![0x85u8, 0x70u8, 0x90u8, 0xd9u8, 0x26u8, 0xbbu8, 0x28u8, 0xaeu8, 0xdau8, 0x4bu8, 0xf0u8, 0x28u8, 0xcau8, 0xccu8, 0x4bu8, 0xa3u8],
        ]
    }

    /// A fresh service holding exactly the builtin keys.
    pub fn new() -> (r: Self)
        ensures
            r@ == Self::spec_builtin(),
    {
        let mut m: HashMap<u64, [u8; 16]> = HashMap::new();
        m.insert(0x2915DA21ADE22EA8, [0x3d, 0x4b, 0x4c, 0x0f, 0xe8, 0x41, 0x1c, 0xdd, 0x8e, 0x14, 0xfd, 0x2d, 0x5e, 0x43, 0xbd, 0x0b]);
        m.insert(0xE07E107F1390A3DF, [0x29, 0x0d, 0x27, 0xb0, 0xe8, 0x71, 0xf8, 0xc5, 0xb1, 0x4a, 0x14, 0xe5, 0x14, 0xd0, 0xf0, 0xd9]);
        m.insert(0xFA505078126ACB3E, [0xbd, 0xc5, 0x18, 0x62, 0xab, 0xed, 0x79, 0xb2, 0xde, 0x48, 0xc8, 0xe7, 0xe6, 0x6c, 0x62, 0x00]);
        m.insert(0xFF813F7D062AC0BC, [0xaa, 0x0b, 0x5c, 0x77, 0xf0, 0x88, 0xcc, 0xc2, 0xd3, 0x90, 0x49, 0xbd, 0x26, 0x7f, 0x06, 0x6d]);
        m.insert(0xD1E9B5EDF9283668, [0x8e, 0x4a, 0x25, 0x79, 0x89, 0x4e, 0x38, 0xb4, 0xab, 0x90, 0x58, 0xba, 0x5c, 0x73, 0x28, 0xee]);
        m.insert(0xB76729641141CB34, [0x98, 0x49, 0xd1, 0xaa, 0x7b, 0x1f, 0xd0, 0x98, 0x19, 0xc5, 0xc6, 0x62, 0x83, 0xa3, 0x26, 0xec]);
        m.insert(0xFFB9469FF16E6BF8, [0xd5, 0x14, 0xbd, 0x19, 0x09, 0xa9, 0xe5, 0xdc, 0x87, 0x03, 0xf4, 0xb8, 0xbb, 0x1d, 0xfd, 0x9a]);
        m.insert(0x23C5B5DF837A226C, [0x14, 0x06, 0xe2, 0xd8, 0x73, 0xb6, 0xfc, 0x99, 0x21, 0x7a, 0x18, 0x08, 0x81, 0xda, 0x8d, 0x62]);
        m.insert(0xE2854509C471C554, [0x43, 0x32, 0x65, 0xf0, 0xcd, 0xeb, 0x2f, 0x4e, 0x65, 0xc0, 0xee, 0x70, 0x08, 0x71, 0x4d, 0x9e]);
        m.insert(0x8EE2CB82178C995A, [0xda, 0x6a, 0xfc, 0x98, 0x9e, 0xd6, 0xca, 0xd2, 0x79, 0x88, 0x59, 0x92, 0xc0, 0x37, 0xa8, 0xee]);
        m.insert(0x5813810F4EC9B005, [0x01, 0xbe, 0x8b, 0x43, 0x14, 0x2d, 0xd9, 0x9a, 0x9e, 0x69, 0x0f, 0xad, 0x28, 0x8b, 0x60, 0x82]);
        m.insert(0x7F9E217166ED43EA, [0x05, 0xfc, 0x92, 0x7b, 0x9f, 0x4f, 0x5b, 0x05, 0x56, 0x81, 0x42, 0x91, 0x2a, 0x05, 0x2b, 0x0f]);
        m.insert(0xC4A8D364D23793F7, [0xd1, 0xac, 0x20, 0xfd, 0x14, 0x95, 0x7f, 0xab, 0xc2, 0x71, 0x96, 0xe9, 0xf6, 0xe7, 0x02, 0x4a]);
        m.insert(0x40A234AEBCF2C6E5, [0xc6, 0xc5, 0xf6, 0xc7, 0xf7, 0x35, 0xd7, 0xd9, 0x4c, 0x87, 0x26, 0x7f, 0xa4, 0x99, 0x4d, 0x45]);
        m.insert(0x9CF7DFCFCBCE4AE5, [0x72, 0xa9, 0x7a, 0x24, 0xa9, 0x98, 0xe3, 0xa5, 0x50, 0x0f, 0x38, 0x71, 0xf3, 0x76, 0x28, 0xc0]);
        m.insert(0x4E4BDECAB8485B4F, [0x38, 0x32, 0xd7, 0xc4, 0x2a, 0xac, 0x92, 0x68, 0xf0, 0x0b, 0xe7, 0xb6, 0xb4, 0x8e, 0xc9, 0xaf]);
        m.insert(0x94A50AC54EFF70E4, [0xc2, 0x50, 0x1a, 0x72, 0x65, 0x4b, 0x96, 0xf8, 0x63, 0x50, 0xc5, 0xa9, 0x27, 0x96, 0x2f, 0x7a]);
        m.insert(0xBA973B0E01DE1C2C, [0xd8, 0x3b, 0xbc, 0xb4, 0x6c, 0xc4, 0x38, 0xb1, 0x7a, 0x48, 0xe7, 0x6c, 0x4f, 0x56, 0x54, 0xa3]);
        m.insert(0x494A6F8E8E108BEF, [0xf0, 0xfd, 0xe1, 0xd2, 0x9b, 0x27, 0x4f, 0x6e, 0x7d, 0xbd, 0xb7, 0xff, 0x81, 0x5f, 0xe9, 0x10]);
        m.insert(0x918D6DD0C3849002, [0x85, 0x70, 0x90, 0xd9, 0x26, 0xbb, 0x28, 0xae, 0xda, 0x4b, 0xf0, 0x28, 0xca, 0xcc, 0x4b, 0xa3]);
        let ks = KeyService { keys: m };
        proof {
            assert(ks@ =~= Self::spec_builtin());
        }
        ks
    }

    /// The key registered under `name`, if any.
    pub fn get(&self, name: u64) -> (r: Option<[u8; 16]>)
        ensures
            match r {
                Some(k) => self@.contains_key(name) && k@ == self@[name],
                None => !self@.contains_key(name),
            },
    {
        match self.keys.get(&name) {
            Some(a) => Some(*a),
            None => None,
        }
    }

    /// Registers `key` under `name`, overwriting any conflicting key held
    /// under the same name. Returns true exactly when the mapping changed:
    /// the name was new, or it previously mapped to a different key.
    pub fn insert_key(&mut self, name: u64, key: [u8; 16]) -> (r: bool)
        ensures
            final(self)@ == old(self)@.insert(name, key@),
            r == !(old(self)@.contains_key(name) && old(self)@[name] == key@),
    {
        let same = match self.keys.get(&name) {
            Some(existing) => {
                let mut eq = true;
                let mut i: usize = 0;
                let e = *existing;
                while i < 16
                    invariant
                        i <= 16,
                        e@ == old(self)@[name],
                        key@.len() == 16,
                        e@.len() == 16,
                        eq == (forall|j: int| 0 <= j < i ==> e@[j] == key@[j]),
                    decreases 16 - i,
                {
                    if e[i] != key[i] {
                        eq = false;
                        assert(!(e@[i as int] == key@[i as int]));
                    }
                    i = i + 1;
                }
                proof {
                    if eq {
                        assert(e@ =~= key@);
                    }
                }
                eq
            },
            None => false,
        };
        if same {
            proof {
                assert(final(self)@ =~= old(self)@.insert(name, key@));
            }
            false
        } else {
            let had = self.keys.contains_key(&name);
            self.keys.insert(name, key);
            proof {
                assert(self@ =~= old(self)@.insert(name, key@));
            }
            true
        }
    }
}


/// Strips every leading `0x` marker from a hexadecimal name.
pub open spec fn strip_0x(s: Seq<u8>) -> Seq<u8>
    decreases s.len(),
{
    if s.len() >= 2 && s[0] == 0x30 && s[1] == 0x78 {
        strip_0x(s.skip(2))
    } else {
        s
    }
}

/// What one line of a key file denotes: a (name, key) pair for lines of the
/// form `name;key` or `name key` with a 32-digit key, nothing for comments,
/// blank lines and malformed lines.
pub open spec fn spec_parse_key_line(line: Seq<u8>) -> Option<(u64, Seq<u8>)> {
    let t = spec_trim(line);
    if t.len() == 0 || t[0] == 0x23 {
        None
    } else {
        let parts = if sep_prefix_len(t, 0x3b) < t.len() {
            spec_split(t, 0x3b)
        } else {
            spec_split_ws(t)
        };
        if parts.len() < 2 {
            None
        } else {
            let name_str = strip_0x(spec_trim(parts[0]));
            let key_hex = spec_trim(parts[1]);
            if key_hex.len() != 32 {
                None
            } else {
                match (spec_parse_hex_u64(name_str), spec_decode_hex16(key_hex)) {
                    (Some(n), Some(key)) => Some((n, key)),
                    _ => None,
                }
            }
        }
    }
}

/// The key map after folding the lines of a key file into `m`, first entry
/// winning on duplicate names.
pub open spec fn spec_merge_key_lines(m: Map<u64, Seq<u8>>, lines: Seq<Seq<u8>>) -> Map<
    u64,
    Seq<u8>,
>
    decreases lines.len(),
{
    if lines.len() == 0 {
        m
    } else {
        let m1 = match spec_parse_key_line(lines[0]) {
            Some(p) => if m.contains_key(p.0) {
                m
            } else {
                m.insert(p.0, p.1)
            },
            None => m,
        };
        spec_merge_key_lines(m1, lines.drop_first())
    }
}

/// Parses one line of a key file into a (name, key) pair.
pub fn parse_key_line(line: &[u8]) -> (r: Option<(u64, [u8; 16])>)
    ensures
        match r {
            Some(p) => spec_parse_key_line(line@) == Some((p.0, p.1@)),
            None => spec_parse_key_line(line@) is None,
        },
{
    let t = trim(line);
    if t.len() == 0 || t[0] == 0x23 {
        return None;
    }
    let has_semi = match find_byte(t, 0, 0x3b) {
        Some(i) => {
            proof {
                crate::text::lemma_sep_prefix_char_upper(t@, 0x3b, i as int);
            }
            true
        },
        None => {
            proof {
                crate::text::lemma_sep_prefix_char(t@, 0x3b, t@.len() as int);
            }
            false
        },
    };
    let parts = if has_semi {
        split_byte(t, 0x3b)
    } else {
        split_ws(t)
    };
    let ghost sparts = if has_semi {
        spec_split(t@, 0x3b)
    } else {
        spec_split_ws(t@)
    };
    proof {
        assert(parts@.map_values(|v: Vec<u8>| v@) == sparts);
    }
    if parts.len() < 2 {
        return None;
    }
    proof {
        assert(parts@[0]@ == sparts[0]);
        assert(parts@[1]@ == sparts[1]);
    }
    let name_trimmed = trim(parts[0].as_slice());
    let mut name_str: &[u8] = name_trimmed;
    while name_str.len() >= 2 && name_str[0] == 0x30 && name_str[1] == 0x78
        invariant
            strip_0x(name_str@) == strip_0x(spec_trim(sparts[0])),
        decreases name_str@.len(),
    {
        let rest = &name_str[2..name_str.len()];
        proof {
            assert(rest@ =~= name_str@.skip(2));
        }
        name_str = rest;
    }
    proof {
        assert(strip_0x(name_str@) == name_str@);
    }
    let key_hex = trim(parts[1].as_slice());
    if key_hex.len() != 32 {
        return None;
    }
    let name = match parse_hex_u64(name_str) {
        Some(v) => v,
        None => {
            return None;
        },
    };
    let key = match decode_hex16(key_hex) {
        Some(k) => k,
        None => {
            return None;
        },
    };
    Some((name, key))
}

impl KeyService {
    /// Folds the lines of a key file (`name;key` or `name key`, 32 hex
    /// digits per key) into the service; malformed lines are skipped and a
    /// name already present keeps its key. Returns how many keys were added.
    pub fn load_from_text(&mut self, text: &[u8]) -> (added: usize)
        ensures
            final(self)@ == spec_merge_key_lines(old(self)@, spec_split(text@, 0x0a)),
            added <= spec_split(text@, 0x0a).len(),
    {
        let lines = split_byte(text, 0x0a);
        let ghost slines = spec_split(text@, 0x0a);
        let mut added: usize = 0;
        let mut i: usize = 0;
        proof {
            assert(slines.skip(0) =~= slines);
        }
        while i < lines.len()
            invariant
                i <= lines@.len(),
                added <= i,
                lines@.map_values(|v: Vec<u8>| v@) == slines,
                spec_merge_key_lines(old(self)@, slines) == spec_merge_key_lines(
                    self@,
                    slines.skip(i as int),
                ),
            decreases lines@.len() - i,
        {
            proof {
                assert(lines@[i as int]@ == slines[i as int]);
                assert(slines.skip(i as int)[0] == slines[i as int]);
                assert(slines.skip(i as int).drop_first() =~= slines.skip(i as int + 1));
            }
            match parse_key_line(lines[i].as_slice()) {
                Some(p) => {
                    let known = match self.get(p.0) {
                        Some(_) => true,
                        None => false,
                    };
                    if !known {
                        self.insert_key(p.0, p.1);
                        added = added + 1;
                    }
                },
                None => {},
            }
            i = i + 1;
        }
        proof {
            assert(slines.skip(i as int) =~= Seq::<Seq<u8>>::empty());
        }
        added
    }
}

} // verus!

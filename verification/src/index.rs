//! The local archive index: sequences of 18-byte records mapping a 9-byte
//! truncated encoding key to (archive id, offset, size), with a header and
//! 4 KiB record-group padding. First-seen entry wins on key collision.

use vstd::prelude::*;

use std::collections::HashMap;

use crate::bytes::{be32_at, le32_at, read_u32_le, zeros};
use crate::errors::CascError;
use crate::types::{key_to_u128, spec_key_to_u128, IndexEntry, IndexStore, SpecIndexEntry};

verus! {

broadcast use vstd::std_specs::hash::group_hash_axioms;

/// The spec view of an index map.
pub open spec fn view_of(m: Map<u128, IndexEntry>) -> Map<u128, SpecIndexEntry> {
    Map::new(|k: u128| m.contains_key(k), |k: u128| m[k]@)
}

/// The nine stored key bytes of the record at `off`, zero-padded to the
/// full key width.
pub open spec fn padded_key9(data: Seq<u8>, off: int) -> Seq<u8> {
    data.subrange(off, off + 9) + zeros(7)
}

/// The entry described by the 18-byte record at `off`: the archive id packs
/// the high byte with the top two bits of the big-endian word, whose low 30
/// bits are the offset.
pub open spec fn spec_idx_entry(data: Seq<u8>, off: int) -> SpecIndexEntry {
    let high = data[off + 9] as int;
    let low = be32_at(data, off + 10) as int;
    SpecIndexEntry {
        archive: (high * 4 + low / 0x4000_0000) as u32,
        offset: (low % 0x4000_0000) as u32,
        size: le32_at(data, off + 14),
        key9: data.subrange(off, off + 9),
    }
}

/// Folds `k` records starting at `start` into the map, first entry winning.
pub open spec fn spec_idx_record_fold(
    data: Seq<u8>,
    m: Map<u128, SpecIndexEntry>,
    start: int,
    k: nat,
) -> Map<u128, SpecIndexEntry>
    decreases k,
{
    if k == 0 {
        m
    } else {
        let key = spec_key_to_u128(padded_key9(data, start));
        let m1 = if m.contains_key(key) {
            m
        } else {
            m.insert(key, spec_idx_entry(data, start))
        };
        spec_idx_record_fold(data, m1, start + 18, (k - 1) as nat)
    }
}

/// The 32-bit truncation of `x` with its low four bits cleared, as the
/// header-padding computation applies it.
pub open spec fn align16_trunc(x: int) -> int {
    ((x % 0x1_0000_0000) / 16) * 16
}

/// The 32-bit truncation of `x` rounded to its 4 KiB group, low twelve bits
/// cleared.
pub open spec fn align4096_trunc(x: int) -> int {
    ((x % 0x1_0000_0000) / 4096) * 4096
}

/// What parsing one index file folds into `m`: `None` exactly when the
/// header, the record region or the trailing padding does not fit.
pub open spec fn spec_parse_idx(data: Seq<u8>, m: Map<u128, SpecIndexEntry>) -> Option<
    Map<u128, SpecIndexEntry>,
> {
    if data.len() < 8 {
        None
    } else {
        let hhs = le32_at(data, 0) as int;
        if 8 + hhs > data.len() {
            None
        } else {
            let pad = align16_trunc(8 + hhs + 0x0F);
            if pad + 8 > data.len() {
                None
            } else {
                let es = le32_at(data, pad) as int;
                let k = es / 18;
                if pad + 8 + 18 * k > data.len() {
                    None
                } else if align4096_trunc(es + 0x0FFF) > data.len() {
                    None
                } else {
                    Some(spec_idx_record_fold(data, m, pad + 8, k as nat))
                }
            }
        }
    }
}

/// Parses one index file into the shared map; on any structural error the
/// map is left untouched.
pub fn parse_idx_file(data: &[u8], map: &mut HashMap<u128, IndexEntry>) -> (r: Result<
    (),
    CascError,
>)
    ensures
        match spec_parse_idx(data@, view_of(old(map)@)) {
            Some(m) => r is Ok && view_of(final(map)@) == m,
            None => r == Err::<(), CascError>(CascError::InvalidConfig) && final(map)@ == old(
                map,
            )@,
        },
{
    let hhs = match read_u32_le(data, 0) {
        Some(v) => v,
        None => {
            return Err(CascError::InvalidConfig);
        },
    };
    if data.len() < 8 {
        return Err(CascError::InvalidConfig);
    }
    let hhs_us = hhs as usize;
    if hhs_us > data.len() - 8 {
        return Err(CascError::InvalidConfig);
    }
    let pad64: u64 = (((8u64 + hhs as u64 + 0x0F) % 0x1_0000_0000u64) / 16) * 16;
    proof {
        assert(pad64 == align16_trunc(8 + hhs + 0x0F));
    }
    if pad64 > data.len() as u64 {
        return Err(CascError::InvalidConfig);
    }
    let pad: usize = pad64 as usize;
    if pad > data.len() || data.len() - pad < 8 {
        return Err(CascError::InvalidConfig);
    }
    let es = match read_u32_le(data, pad) {
        Some(v) => v,
        None => {
            return Err(CascError::InvalidConfig);
        },
    };
    let es_us = es as usize;
    let k: usize = es_us / 18;
    if k > (data.len() - pad - 8) / 18 {
        proof {
            assert(pad + 8 + 18 * (es as int / 18) > data@.len());
        }
        return Err(CascError::InvalidConfig);
    }
    proof {
        assert(pad + 8 + 18 * (es as int / 18) <= data@.len());
    }
    let endpad: u64 = (((es as u64 + 0x0FFF) % 0x1_0000_0000u64) / 4096) * 4096;
    proof {
        assert(endpad == align4096_trunc(es + 0x0FFF));
    }
    if endpad > data.len() as u64 {
        return Err(CascError::InvalidConfig);
    }
    let ghost m0 = view_of(map@);
    let start: usize = pad + 8;
    let mut i: usize = 0;
    while i < k
        invariant
            i <= k,
            start + 18 * k <= data@.len(),
            data@.len() <= usize::MAX,
            spec_idx_record_fold(data@, m0, start as int, k as nat) == spec_idx_record_fold(
                data@,
                view_of(map@),
                start + 18 * i,
                (k - i) as nat,
            ),
        decreases k - i,
    {
        let off = start + 18 * i;
        let full: [u8; 16] = [
            data[off],
            data[off + 1],
            data[off + 2],
            data[off + 3],
            data[off + 4],
            data[off + 5],
            data[off + 6],
            data[off + 7],
            data[off + 8],
            0,
            0,
            0,
            0,
            0,
            0,
            0,
        ];
        proof {
            assert(full@ =~= padded_key9(data@, off as int));
        }
        let key = key_to_u128(&full);
        let high = data[off + 9];
        let low = data[off + 10] as u32 * 0x100_0000 + data[off + 11] as u32 * 0x1_0000 + data[off
            + 12] as u32 * 0x100 + data[off + 13] as u32;
        let size = data[off + 14] as u32 + data[off + 15] as u32 * 0x100 + data[off + 16] as u32
            * 0x1_0000 + data[off + 17] as u32 * 0x100_0000;
        let archive = high as u32 * 4 + low / 0x4000_0000;
        let offset = low % 0x4000_0000;
        let entry = IndexEntry {
            archive,
            offset,
            size,
            key9: [
                data[off],
                data[off + 1],
                data[off + 2],
                data[off + 3],
                data[off + 4],
                data[off + 5],
                data[off + 6],
                data[off + 7],
                data[off + 8],
            ],
        };
        proof {
            assert(low == be32_at(data@, off + 10));
            assert(size == le32_at(data@, off + 14));
            assert(entry.key9@ =~= data@.subrange(off as int, off + 9));
            assert(entry@ == spec_idx_entry(data@, off as int));
        }
        let ghost pre = view_of(map@);
        if !map.contains_key(&key) {
            map.insert(key, entry);
            proof {
                assert(view_of(map@) =~= pre.insert(key, entry@));
            }
        }
        proof {
            assert(view_of(map@) =~= if pre.contains_key(key) {
                pre
            } else {
                pre.insert(key, spec_idx_entry(data@, off as int))
            });
        }
        i = i + 1;
    }
    Ok(())
}

/// What loading a set of index files yields, folding them in order into an
/// empty map; `None` when any file is malformed.
pub open spec fn spec_index_fold(files: Seq<Seq<u8>>, m: Map<u128, SpecIndexEntry>) -> Option<
    Map<u128, SpecIndexEntry>,
>
    decreases files.len(),
{
    if files.len() == 0 {
        Some(m)
    } else {
        match spec_parse_idx(files[0], m) {
            Some(m1) => spec_index_fold(files.drop_first(), m1),
            None => None,
        }
    }
}

impl IndexStore {
    /// Builds the index from the selected index files' bytes. An empty set
    /// fails with `FileNotFound`, a malformed file with `InvalidConfig`.
    pub fn from_files(files: &Vec<Vec<u8>>) -> (r: Result<IndexStore, CascError>)
        ensures
            files@.len() == 0 ==> r == Err::<IndexStore, CascError>(CascError::FileNotFound),
            files@.len() > 0 ==> match spec_index_fold(
                files@.map_values(|f: Vec<u8>| f@),
                Map::empty(),
            ) {
                Some(m) => r matches Ok(store) && view_of(store.entries@) == m,
                None => r == Err::<IndexStore, CascError>(CascError::InvalidConfig),
            },
    {
        if files.len() == 0 {
            return Err(CascError::FileNotFound);
        }
        let ghost sfiles = files@.map_values(|f: Vec<u8>| f@);
        let mut entries: HashMap<u128, IndexEntry> = HashMap::new();
        proof {
            assert(view_of(entries@) =~= Map::<u128, SpecIndexEntry>::empty());
            assert(sfiles.skip(0) =~= sfiles);
        }
        let mut i: usize = 0;
        while i < files.len()
            invariant
                i <= files@.len(),
                sfiles == files@.map_values(|f: Vec<u8>| f@),
                spec_index_fold(sfiles, Map::empty()) == spec_index_fold(
                    sfiles.skip(i as int),
                    view_of(entries@),
                ),
            decreases files@.len() - i,
        {
            proof {
                assert(sfiles.skip(i as int)[0] == sfiles[i as int]);
                assert(sfiles[i as int] == files@[i as int]@);
                assert(sfiles.skip(i as int).drop_first() =~= sfiles.skip(i as int + 1));
            }
            match parse_idx_file(files[i].as_slice(), &mut entries) {
                Ok(_) => {},
                Err(e) => {
                    return Err(e);
                },
            }
            i = i + 1;
        }
        proof {
            assert(sfiles.skip(i as int) =~= Seq::<Seq<u8>>::empty());
        }
        Ok(IndexStore { entries })
    }

    /// The archive location registered for an encoding key, which matches
    /// on the stored nine-byte truncation.
    pub fn get(&self, key: &crate::types::EncodingKey) -> (r: Option<IndexEntry>)
        ensures
            ({
                let id = spec_key_to_u128(key@.take(9) + zeros(7));
                match r {
                    Some(e) => view_of(self.entries@).contains_key(id) && e@ == view_of(
                        self.entries@,
                    )[id],
                    None => !view_of(self.entries@).contains_key(id),
                }
            }),
    {
        let k = key.0;
        let full: [u8; 16] = [
            k[0],
            k[1],
            k[2],
            k[3],
            k[4],
            k[5],
            k[6],
            k[7],
            k[8],
            0,
            0,
            0,
            0,
            0,
            0,
            0,
        ];
        proof {
            assert(full@ =~= key@.take(9) + zeros(7));
        }
        let id = key_to_u128(&full);
        match self.entries.get(&id) {
            Some(e) => Some(*e),
            None => None,
        }
    }
}

/// Whatever is already mapped stays mapped, unchanged, as later records
/// fold in: the first entry for a key wins and a duplicate is a no-op.
pub proof fn lemma_idx_first_wins(
    data: Seq<u8>,
    m: Map<u128, SpecIndexEntry>,
    start: int,
    k: nat,
    key: u128,
)
    requires
        m.contains_key(key),
    ensures
        spec_idx_record_fold(data, m, start, k).contains_key(key),
        spec_idx_record_fold(data, m, start, k)[key] == m[key],
    decreases k,
{
    if k > 0 {
        let kid = spec_key_to_u128(padded_key9(data, start));
        let m1 = if m.contains_key(kid) {
            m
        } else {
            m.insert(kid, spec_idx_entry(data, start))
        };
        lemma_idx_first_wins(data, m1, start + 18, (k - 1) as nat, key);
    }
}

/// Parsing is a function of the bytes alone: two parses of the same index
/// bytes from the same starting map yield identical mappings.
pub proof fn lemma_idx_parse_deterministic(
    data1: Seq<u8>,
    data2: Seq<u8>,
    m1: Map<u128, SpecIndexEntry>,
    m2: Map<u128, SpecIndexEntry>,
)
    requires
        data1 == data2,
        m1 == m2,
    ensures
        spec_parse_idx(data1, m1) == spec_parse_idx(data2, m2),
{
}

} // verus!

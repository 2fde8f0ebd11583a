//! The root manifest: maps a numeric asset id to a content key. Both the
//! legacy flat layout and the versioned `MFST` layout are read; asset ids
//! are run-length-delta coded per record group, and the first record seen
//! for an id wins.

use vstd::prelude::*;

use std::collections::HashMap;

use crate::bytes::le32_at;
use crate::errors::CascError;
use crate::types::ContentKey;

verus! {

broadcast use vstd::std_specs::hash::group_hash_axioms;

/// The `MFST` tag of the versioned layout, as read little-endian.
pub const MFST_MAGIC: u32 = 0x4D46_5354;

/// A record group whose content flags meet none of these is rejected.
pub const CONTENTFLAGS_ALLOWED_MASK: u32 = 0x1 | 0x8 | 0x10 | 0x80 | 0x20000 | 0x80000 | 0x100000
    | 0x200000 | 0x400000 | 0x2000000 | 0x8000_0000 | 0x1000_0000 | 0x2000_0000;

/// Content flag marking groups that carry no per-asset name hashes.
pub const CONTENTFLAGS_NONAMEHASH: u32 = 0x1000_0000;

/// Maps asset ids to content keys, keyed by the 32-bit asset id.
pub struct RootTable {
    pub by_file_id: HashMap<u32, ContentKey>,
}

/// The spec view of the asset-id table.
pub open spec fn root_view(m: Map<u32, ContentKey>) -> Map<u32, Seq<u8>> {
    Map::new(|k: u32| m.contains_key(k), |k: u32| m[k]@)
}

/// The `j`-th asset id of a group: a running sum of the declared deltas,
/// each later id one past the previous plus its delta, modulo 2^32.
pub open spec fn root_id_at(data: Seq<u8>, idpos: int, j: int) -> u32
    decreases j,
{
    if j <= 0 {
        le32_at(data, idpos)
    } else {
        (((root_id_at(data, idpos, j - 1) + 1 + le32_at(data, idpos + 4 * j))
            % 0x1_0000_0000) as u32)
    }
}

/// The `j`-th content key of a group, at the given stride.
pub open spec fn root_ckey_at(data: Seq<u8>, ckpos: int, stride: int, j: int) -> Seq<u8> {
    data.subrange(ckpos + stride * j, ckpos + stride * j + 16)
}

/// Folds one group's records into the map, first id winning.
pub open spec fn spec_root_group_fold(
    data: Seq<u8>,
    m: Map<u32, Seq<u8>>,
    idpos: int,
    ckpos: int,
    stride: int,
    count: nat,
    j: nat,
) -> Map<u32, Seq<u8>>
    decreases count - j,
{
    if j >= count {
        m
    } else {
        let id = root_id_at(data, idpos, j as int);
        let m1 = if m.contains_key(id) {
            m
        } else {
            m.insert(id, root_ckey_at(data, ckpos, stride, j as int))
        };
        spec_root_group_fold(data, m1, idpos, ckpos, stride, count, (j + 1) as nat)
    }
}

/// What parsing the record groups from `pos` to the end folds into `m`:
/// `None` on a truncated group, a negative count, zero locale flags, or
/// content flags outside the allow-list.
pub open spec fn spec_root_groups(
    data: Seq<u8>,
    m: Map<u32, Seq<u8>>,
    pos: int,
    version: int,
    is_new: bool,
) -> Option<Map<u32, Seq<u8>>>
    decreases data.len() - pos,
{
    if pos < 0 || pos > data.len() {
        None
    } else if pos == data.len() {
        Some(m)
    } else {
        let hdrlen: int = if version == 2 {
            17
        } else {
            12
        };
        if pos + hdrlen > data.len() {
            None
        } else {
            let count_raw = le32_at(data, pos);
            let locale_flags: u32 = if version == 2 {
                le32_at(data, pos + 4)
            } else {
                le32_at(data, pos + 8)
            };
            let content_flags: u32 = if version == 2 {
                le32_at(data, pos + 8) | le32_at(data, pos + 12) | ((data[pos + 16] as u32) << 17)
            } else {
                le32_at(data, pos + 4)
            };
            if count_raw >= 0x8000_0000 {
                None
            } else if locale_flags == 0 {
                None
            } else if content_flags != 0 && (content_flags & CONTENTFLAGS_ALLOWED_MASK) == 0 {
                None
            } else {
                let count = count_raw as int;
                let idpos = pos + hdrlen;
                if idpos + 4 * count > data.len() {
                    None
                } else {
                    let ckpos = idpos + 4 * count;
                    let stride: int = if is_new {
                        16
                    } else {
                        24
                    };
                    let hashes: int = if is_new {
                        if content_flags & CONTENTFLAGS_NONAMEHASH == 0 {
                            8 * count
                        } else {
                            0
                        }
                    } else {
                        0
                    };
                    if ckpos + stride * count + hashes > data.len() {
                        None
                    } else {
                        let m1 = spec_root_group_fold(
                            data,
                            m,
                            idpos,
                            ckpos,
                            stride,
                            count as nat,
                            0,
                        );
                        spec_root_groups(
                            data,
                            m1,
                            ckpos + stride * count + hashes,
                            version,
                            is_new,
                        )
                    }
                }
            }
        }
    }
}

/// What parsing a whole root manifest yields: the version and header size
/// are sniffed from the `MFST` tag, then every record group is folded in.
pub open spec fn spec_parse_root(data: Seq<u8>) -> Option<Map<u32, Seq<u8>>> {
    if data.len() < 4 {
        None
    } else {
        let magic = le32_at(data, 0);
        if magic == MFST_MAGIC {
            if data.len() < 12 {
                None
            } else {
                let hs = le32_at(data, 4);
                let ver = le32_at(data, 8);
                if hs != 0x18 {
                    if data.len() < 12 {
                        None
                    } else {
                        spec_root_groups(data, Map::empty(), 12, 0, true)
                    }
                } else if ver != 1 && ver != 2 {
                    None
                } else {
                    if data.len() < 0x18 {
                        None
                    } else {
                        spec_root_groups(data, Map::empty(), 0x18, ver as int, true)
                    }
                }
            }
        } else {
            spec_root_groups(data, Map::empty(), 0, 0, false)
        }
    }
}

/// A record group declaring `locale_flags == 0` poisons the whole
/// manifest: parsing fails no matter what any other field holds.
pub proof fn lemma_zero_locale_rejected(
    data: Seq<u8>,
    m: Map<u32, Seq<u8>>,
    pos: int,
    version: int,
    is_new: bool,
)
    requires
        0 <= pos < data.len(),
        pos + (if version == 2 {
            17int
        } else {
            12int
        }) <= data.len(),
        (if version == 2 {
            le32_at(data, pos + 4)
        } else {
            le32_at(data, pos + 8)
        }) == 0,
    ensures
        spec_root_groups(data, m, pos, version, is_new) is None,
{
}

/// Parses a root manifest buffer into the asset-id table.
pub fn parse_root(data: &[u8]) -> (r: Result<RootTable, CascError>)
    ensures
        match r {
            Ok(t) => spec_parse_root(data@) == Some(root_view(t.by_file_id@)),
            Err(e) => spec_parse_root(data@) is None && e == CascError::InvalidConfig,
        },
{
    if data.len() < 4 {
        return Err(CascError::InvalidConfig);
    }
    let magic = data[0] as u32 + data[1] as u32 * 0x100 + data[2] as u32 * 0x1_0000 + data[3] as u32
        * 0x100_0000;
    proof {
        assert(magic == le32_at(data@, 0));
    }
    let mut version: u32 = 0;
    let mut start: usize = 0;
    let is_new = magic == MFST_MAGIC;
    if is_new {
        if data.len() < 12 {
            return Err(CascError::InvalidConfig);
        }
        let hs = match crate::bytes::read_u32_le(data, 4) {
            Some(v) => v,
            None => {
                return Err(CascError::InvalidConfig);
            },
        };
        let ver = match crate::bytes::read_u32_le(data, 8) {
            Some(v) => v,
            None => {
                return Err(CascError::InvalidConfig);
            },
        };
        if hs != 0x18 {
            version = 0;
            start = 12;
        } else if ver != 1 && ver != 2 {
            return Err(CascError::InvalidConfig);
        } else {
            if data.len() < 0x18 {
                return Err(CascError::InvalidConfig);
            }
            version = ver;
            start = 0x18;
        }
    }
    let mut by_file_id: HashMap<u32, ContentKey> = HashMap::new();
    let ghost ver_s = version as int;
    proof {
        assert(root_view(by_file_id@) =~= Map::<u32, Seq<u8>>::empty());
    }
    proof {
        assert(spec_parse_root(data@) == spec_root_groups(
            data@,
            Map::empty(),
            start as int,
            ver_s,
            is_new,
        ));
    }
    let mut pos: usize = start;
    if pos > data.len() {
        return Err(CascError::InvalidConfig);
    }
    while pos < data.len()
        invariant
            pos <= data@.len(),
            data@.len() <= usize::MAX,
            ver_s == version as int,
            version == 0 || version == 1 || version == 2,
            spec_parse_root(data@) == spec_root_groups(
                data@,
                Map::empty(),
                start as int,
                ver_s,
                is_new,
            ),
            spec_root_groups(data@, Map::empty(), start as int, ver_s, is_new)
                == spec_root_groups(data@, root_view(by_file_id@), pos as int, ver_s, is_new),
        decreases data@.len() - pos,
    {
        match parse_root_group(data, pos, version, is_new, &mut by_file_id) {
            Ok(next) => {
                pos = next;
            },
            Err(e) => {
                return Err(e);
            },
        }
    }
    Ok(RootTable { by_file_id })
}

/// Parses one record group starting at `pos`, returning where the next
/// group starts.
#[verifier::rlimit(100)]
fn parse_root_group(
    data: &[u8],
    pos: usize,
    version: u32,
    is_new: bool,
    map: &mut HashMap<u32, ContentKey>,
) -> (r: Result<usize, CascError>)
    requires
        pos < data@.len(),
        version == 0 || version == 1 || version == 2,
    ensures
        match r {
            Ok(next) => pos < next <= data@.len() && spec_root_groups(
                data@,
                root_view(old(map)@),
                pos as int,
                version as int,
                is_new,
            ) == spec_root_groups(
                data@,
                root_view(final(map)@),
                next as int,
                version as int,
                is_new,
            ),
            Err(e) => spec_root_groups(
                data@,
                root_view(old(map)@),
                pos as int,
                version as int,
                is_new,
            ) is None && e == CascError::InvalidConfig && final(map)@ == old(map)@,
        },
{
    let hdrlen: usize = if version == 2 {
        17
    } else {
        12
    };
    if data.len() - pos < hdrlen {
        return Err(CascError::InvalidConfig);
    }
    let count_raw = data[pos] as u32 + data[pos + 1] as u32 * 0x100 + data[pos + 2] as u32
        * 0x1_0000 + data[pos + 3] as u32 * 0x100_0000;
    let locale_flags: u32 = if version == 2 {
        data[pos + 4] as u32 + data[pos + 5] as u32 * 0x100 + data[pos + 6] as u32 * 0x1_0000
            + data[pos + 7] as u32 * 0x100_0000
    } else {
        data[pos + 8] as u32 + data[pos + 9] as u32 * 0x100 + data[pos + 10] as u32 * 0x1_0000
            + data[pos + 11] as u32 * 0x100_0000
    };
    let content_flags: u32 = if version == 2 {
        let cf1 = data[pos + 8] as u32 + data[pos + 9] as u32 * 0x100 + data[pos + 10] as u32
            * 0x1_0000 + data[pos + 11] as u32 * 0x100_0000;
        let cf2 = data[pos + 12] as u32 + data[pos + 13] as u32 * 0x100 + data[pos + 14] as u32
            * 0x1_0000 + data[pos + 15] as u32 * 0x100_0000;
        let cf3 = data[pos + 16] as u32;
        cf1 | cf2 | (cf3 << 17u32)
    } else {
        data[pos + 4] as u32 + data[pos + 5] as u32 * 0x100 + data[pos + 6] as u32 * 0x1_0000
            + data[pos + 7] as u32 * 0x100_0000
    };
    proof {
        assert(count_raw == le32_at(data@, pos as int));
        if version == 2 {
            assert(locale_flags == le32_at(data@, pos + 4));
            assert(content_flags == (le32_at(data@, pos + 8) | le32_at(data@, pos + 12) | ((
            data@[pos + 16] as u32) << 17)));
        } else {
            assert(locale_flags == le32_at(data@, pos + 8));
            assert(content_flags == le32_at(data@, pos + 4));
        }
    }
    if count_raw >= 0x8000_0000 {
        return Err(CascError::InvalidConfig);
    }
    if locale_flags == 0 {
        return Err(CascError::InvalidConfig);
    }
    if content_flags != 0 && (content_flags & CONTENTFLAGS_ALLOWED_MASK) == 0 {
        return Err(CascError::InvalidConfig);
    }
    let count64 = count_raw as u64;
    let len64 = data.len() as u64;
    let idpos64 = pos as u64 + hdrlen as u64;
    if 4 * count64 > len64 - idpos64 {
        return Err(CascError::InvalidConfig);
    }
    let stride64: u64 = if is_new {
        16
    } else {
        24
    };
    let hashes64: u64 = if is_new && (content_flags & CONTENTFLAGS_NONAMEHASH) == 0 {
        8 * count64
    } else {
        0
    };
    let ckpos64 = idpos64 + 4 * count64;
    if stride64 * count64 > len64 - ckpos64 || hashes64 > len64 - ckpos64 - stride64 * count64 {
        return Err(CascError::InvalidConfig);
    }
    let count = count_raw as usize;
    let idpos = pos + hdrlen;
    let ckpos = idpos + 4 * count;
    let stride: usize = stride64 as usize;
    let hashes: usize = hashes64 as usize;
    proof {
        assert(ckpos + stride * count + hashes <= data@.len());
    }
    let next = ckpos + stride * count + hashes;
    let ghost m0 = root_view(map@);
    let mut j: usize = 0;
    let mut prev_id: u32 = 0;
    while j < count
        invariant
            j <= count,
            count < 0x8000_0000,
            idpos + 4 * count <= data@.len(),
            ckpos == idpos + 4 * count,
            ckpos + stride * count <= data@.len(),
            stride == 16 || stride == 24,
            data@.len() <= usize::MAX,
            j > 0 ==> prev_id == root_id_at(data@, idpos as int, j - 1),
            spec_root_group_fold(data@, m0, idpos as int, ckpos as int, stride as int,
                count as nat, 0) == spec_root_group_fold(
                data@,
                root_view(map@),
                idpos as int,
                ckpos as int,
                stride as int,
                count as nat,
                j as nat,
            ),
        decreases count - j,
    {
        let d = data[idpos + 4 * j] as u32 + data[idpos + 4 * j + 1] as u32 * 0x100 + data[idpos + 4
            * j + 2] as u32 * 0x1_0000 + data[idpos + 4 * j + 3] as u32 * 0x100_0000;
        proof {
            assert(d == le32_at(data@, idpos + 4 * j));
        }
        let id: u32 = if j == 0 {
            d
        } else {
            (((prev_id as u64 + 1 + d as u64) % 0x1_0000_0000) as u32)
        };
        proof {
            assert(id == root_id_at(data@, idpos as int, j as int));
        }
        proof {
            if stride == 16 {
                assert(16 * (j as int) + 16 <= 16 * (count as int));
            } else {
                assert(24 * (j as int) + 24 <= 24 * (count as int));
            }
        }
        let ko = ckpos + stride * j;
        let ck = ContentKey(
            [
                data[ko],
                data[ko + 1],
                data[ko + 2],
                data[ko + 3],
                data[ko + 4],
                data[ko + 5],
                data[ko + 6],
                data[ko + 7],
                data[ko + 8],
                data[ko + 9],
                data[ko + 10],
                data[ko + 11],
                data[ko + 12],
                data[ko + 13],
                data[ko + 14],
                data[ko + 15],
            ],
        );
        proof {
            assert(ck@ =~= root_ckey_at(data@, ckpos as int, stride as int, j as int));
        }
        let ghost pre = root_view(map@);
        if !map.contains_key(&id) {
            map.insert(id, ck);
            proof {
                assert(root_view(map@) =~= pre.insert(id, ck@));
            }
        }
        prev_id = id;
        j = j + 1;
    }
    Ok(next)
}

/// The FNV-style hash derived from an asset id where a group carries no
/// name hashes: folds the id's four little-endian bytes into the FNV basis.
pub open spec fn spec_file_data_hash(id: u32) -> u64 {
    let h0 = 0xCBF29CE484222325u64;
    let h1 = mul_wrap64(0x100000001B3, ((id & 0xFF) as u64) ^ h0);
    let h2 = mul_wrap64(0x100000001B3, (((id >> 8) & 0xFF) as u64) ^ h1);
    let h3 = mul_wrap64(0x100000001B3, (((id >> 16) & 0xFF) as u64) ^ h2);
    mul_wrap64(0x100000001B3, (((id >> 24) & 0xFF) as u64) ^ h3)
}

/// 64-bit wrapping product.
pub open spec fn mul_wrap64(a: u64, b: u64) -> u64 {
    ((a * b) % 0x1_0000_0000_0000_0000) as u64
}

/// Computes the name-hash stand-in for an asset id.
pub fn file_data_hash(file_data_id: i32) -> (r: u64)
    ensures
        r == spec_file_data_hash(file_data_id as u32),
{
    let id = file_data_id as u32;
    let mut h: u64 = 0xCBF29CE484222325;
    let b0 = (id & 0xFF) as u64;
    h = wrap_mul_pub(0x100000001B3, b0 ^ h);
    let b1 = ((id >> 8) & 0xFF) as u64;
    h = wrap_mul_pub(0x100000001B3, b1 ^ h);
    let b2 = ((id >> 16) & 0xFF) as u64;
    h = wrap_mul_pub(0x100000001B3, b2 ^ h);
    let b3 = ((id >> 24) & 0xFF) as u64;
    h = wrap_mul_pub(0x100000001B3, b3 ^ h);
    h
}

/// 64-bit wrapping multiplication via 128-bit intermediate arithmetic.
pub fn wrap_mul_pub(a: u64, b: u64) -> (r: u64)
    ensures
        r == mul_wrap64(a, b),
{
    let p = a as u128;
    let q = b as u128;
    proof {
        assert(p * q < 0x1_0000_0000_0000_0000_0000_0000_0000_0000) by (nonlinear_arith)
            requires
                p < 0x1_0000_0000_0000_0000,
                q < 0x1_0000_0000_0000_0000,
        ;
    }
    ((p * q) % 0x1_0000_0000_0000_0000) as u64
}

impl RootTable {
    /// The content key registered for an asset id.
    pub fn get(&self, file_data_id: u32) -> (r: Option<ContentKey>)
        ensures
            match r {
                Some(ck) => root_view(self.by_file_id@).contains_key(file_data_id) && ck@
                    == root_view(self.by_file_id@)[file_data_id],
                None => !root_view(self.by_file_id@).contains_key(file_data_id),
            },
    {
        match self.by_file_id.get(&file_data_id) {
            Some(ck) => Some(*ck),
            None => None,
        }
    }
}

} // verus!

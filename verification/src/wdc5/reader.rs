//! Parsing a WDC5 table: the 204-byte extended header, per-section
//! headers, shared field and column metadata, the pallet and common-value
//! blocks, and each unencrypted section's record data.
//!
//! The header, the field and column metadata and every section's record
//! byte range are pinned exactly; the auxiliary per-section blocks (string
//! runs, record ids, parent keys, clone directives) are pinned to their
//! declared counts and to reads inside the buffer.

use vstd::prelude::*;

use std::collections::HashMap;

use crate::bytes::{le16_at, le32_at, le64_at};
use crate::errors::CascError;
use super::types::{ColumnMetaData, CompressionType, FieldMetaData, Value32, Wdc5Meta, Wdc5Section};

verus! {

broadcast use vstd::std_specs::hash::group_hash_axioms;

/// Clamps a declared signed 32-bit count at zero.
pub open spec fn clamp0(v: u32) -> int {
    if v >= 0x8000_0000 {
        0
    } else {
        v as int
    }
}

/// Whether the section header at index `i` names a decryption key: such
/// a section is encrypted and skipped.
pub open spec fn spec_section_encrypted(data: Seq<u8>, s: int) -> bool {
    le64_at(data, 204 + 40 * s) != 0
}

/// Whether the record byte range the section header at `s` declares lies
/// inside the buffer, under the table-wide record size `rs`.
pub open spec fn spec_section_ranges_ok(data: Seq<u8>, s: int, rs: int) -> bool {
    let b = 204 + 40 * s;
    let ro = clamp0(le32_at(data, b + 8));
    let tr = clamp0(le32_at(data, b + 12));
    let pb = clamp0(le32_at(data, b + 20));
    let rl: int = if pb > 0 {
        if pb > ro {
            pb - ro
        } else {
            0
        }
    } else {
        rs * tr
    };
    &&& ro <= data.len()
    &&& (pb > 0 || rs * tr <= u32::MAX)
    &&& ro + rl <= data.len()
}

/// The field metadata at index `i`, following the section headers.
pub open spec fn spec_field_meta(data: Seq<u8>, ns: int, i: int) -> FieldMetaData {
    let b = 204 + 40 * ns + 4 * i;
    FieldMetaData { bits: le16_at(data, b) as i16, offset: le16_at(data, b + 2) as i16 }
}

/// The column metadata at index `i`, following the field metadata.
pub open spec fn spec_column_meta(data: Seq<u8>, ns: int, fc: int, i: int) -> ColumnMetaData {
    let b = 204 + 40 * ns + 4 * fc + 24 * i;
    ColumnMetaData {
        record_offset: le16_at(data, b),
        size: le16_at(data, b + 2),
        additional_data_size: le32_at(data, b + 4),
        compression: CompressionType::spec_from_u32(le32_at(data, b + 8)),
        val1: le32_at(data, b + 12),
        val2: le32_at(data, b + 16),
        val3: le32_at(data, b + 20),
    }
}

/// Parses a WDC5 buffer into its metadata and unencrypted sections.
///
/// On success the header counts and hashes, the field and column metadata
/// and every section's record byte range are exactly the declared ones,
/// every unencrypted section's declared range lies inside the buffer, and
/// encrypted sections (non-zero key lookup) are skipped. Any structural
/// violation fails the whole table with `InvalidConfig`. The auxiliary
/// per-section blocks (string runs, ids, parents, clones) are pinned to
/// their declared counts and to reads inside the buffer, and success is
/// owed only for shapes without them; a full acceptance condition over
/// the streamed auxiliary blocks is not stated.
#[verifier::rlimit(100)]
pub fn parse_wdc5(data: &[u8]) -> (r: Result<Wdc5Meta, CascError>)
    ensures
        r matches Err(e) ==> e == CascError::InvalidConfig,
        data@.len() >= 204 && clamp0(le32_at(data@, 140)) == 0 && 204 + 40 * clamp0(
            le32_at(data@, 200),
        ) <= data@.len() && (forall|s: int|
            0 <= s < clamp0(le32_at(data@, 200)) ==> spec_section_encrypted(data@, s)) ==> r
            is Ok,
        r matches Ok(meta) ==> {
            let ns = clamp0(le32_at(data@, 200));
            let fc = clamp0(le32_at(data@, 140));
            &&& data@.len() >= 204
            &&& meta.records_count == le32_at(data@, 136)
            &&& meta.fields_count == le32_at(data@, 140)
            &&& meta.record_size == le32_at(data@, 144)
            &&& meta.table_hash == le32_at(data@, 152)
            &&& meta.layout_hash == le32_at(data@, 156)
            &&& meta.id_field_index == le16_at(data@, 174)
            &&& fc <= clamp0(le32_at(data@, 176))
            &&& meta.field_meta@.len() == fc
            &&& (forall|i: int|
                0 <= i < fc ==> #[trigger] meta.field_meta@[i] == spec_field_meta(data@, ns, i))
            &&& meta.column_meta@.len() == fc
            &&& (forall|i: int|
                0 <= i < fc ==> #[trigger] le32_at(data@, 204 + 40 * ns + 4 * fc + 24 * i + 8)
                    <= 5)
            &&& (forall|i: int|
                0 <= i < fc ==> #[trigger] meta.column_meta@[i] == spec_column_meta(
                    data@,
                    ns,
                    fc,
                    i,
                ))
            &&& meta.pallet_data@.len() == fc
            &&& meta.common_data@.len() == fc
            &&& meta.sections@.len() <= ns
            &&& (forall|s: int|
                0 <= s < ns && !spec_section_encrypted(data@, s)
                    ==> #[trigger] spec_section_ranges_ok(
                    data@,
                    s,
                    clamp0(le32_at(data@, 144)),
                ))
            &&& (forall|s: int|
                0 <= s < meta.sections@.len() ==> {
                    let sec = #[trigger] meta.sections@[s];
                    &&& sec.ptr_records + sec.records_data@.len() <= data@.len()
                    &&& sec.records_data@ == data@.subrange(
                        sec.ptr_records as int,
                        sec.ptr_records + sec.records_data@.len(),
                    )
                    &&& sec.record_offsets@.len() == sec.num_records
                    &&& sec.record_sizes@.len() == sec.num_records
                    &&& sec.parent_ids@.len() == sec.num_records
                })
        },
{
    if data.len() < 204 {
        return Err(CascError::InvalidConfig);
    }
    let records_count = read32(data, 136);
    let fields_count_raw = read32(data, 140);
    let record_size_raw = read32(data, 144);
    let table_hash = read32(data, 152);
    let layout_hash = read32(data, 156);
    let flags = data[172] as u16 + data[173] as u16 * 0x100;
    let id_field_index = data[174] as u16 + data[175] as u16 * 0x100;
    let total_fields_raw = read32(data, 176);
    let sections_raw = read32(data, 200);
    let ns: usize = if sections_raw >= 0x8000_0000 {
        0
    } else {
        sections_raw as usize
    };
    let fc: usize = if fields_count_raw >= 0x8000_0000 {
        0
    } else {
        fields_count_raw as usize
    };
    let tf: usize = if total_fields_raw >= 0x8000_0000 {
        0
    } else {
        total_fields_raw as usize
    };
    if fc > tf {
        return Err(CascError::InvalidConfig);
    }
    // Section headers, field metadata and column metadata are laid out
    // back to back; make sure they all fit before reading any of them.
    let fixed64: u64 = 204u64 + 40 * ns as u64 + 4 * fc as u64 + 24 * fc as u64;
    if fixed64 > data.len() as u64 {
        return Err(CascError::InvalidConfig);
    }
    let mut field_meta: Vec<FieldMetaData> = Vec::new();
    let mut i: usize = 0;
    while i < fc
        invariant
            i <= fc,
            204 + 40 * ns + 4 * fc + 24 * fc <= data@.len(),
            data@.len() <= usize::MAX,
            field_meta@.len() == i,
            forall|j: int|
                0 <= j < i ==> #[trigger] field_meta@[j] == spec_field_meta(
                    data@,
                    ns as int,
                    j,
                ),
        decreases fc - i,
    {
        let b = 204 + 40 * ns + 4 * i;
        let bits = (data[b] as u16 + data[b + 1] as u16 * 0x100) as i16;
        let offset = (data[b + 2] as u16 + data[b + 3] as u16 * 0x100) as i16;
        field_meta.push(FieldMetaData { bits, offset });
        i = i + 1;
    }
    let cb = 204 + 40 * ns + 4 * fc;
    let mut column_meta: Vec<ColumnMetaData> = Vec::new();
    let mut i2: usize = 0;
    while i2 < fc
        invariant
            i2 <= fc,
            fc == clamp0(le32_at(data@, 140)),
            cb == 204 + 40 * ns + 4 * fc,
            cb + 24 * fc <= data@.len(),
            data@.len() <= usize::MAX,
            column_meta@.len() == i2,
            forall|j: int|
                0 <= j < i2 ==> #[trigger] le32_at(data@, 204 + 40 * ns + 4 * fc + 24 * j + 8)
                    <= 5,
            forall|j: int|
                0 <= j < i2 ==> #[trigger] column_meta@[j] == spec_column_meta(
                    data@,
                    ns as int,
                    fc as int,
                    j,
                ),
        decreases fc - i2,
    {
        let b = cb + 24 * i2;
        let record_offset = data[b] as u16 + data[b + 1] as u16 * 0x100;
        let size = data[b + 2] as u16 + data[b + 3] as u16 * 0x100;
        let ads = read32(data, b + 4);
        let compression = match CompressionType::from_u32(read32(data, b + 8)) {
            Some(k) => k,
            None => {
                // An unknown compression kind names no scheme: reject the
                // whole table rather than guessing.
                return Err(CascError::InvalidConfig);
            },
        };
        let val1 = read32(data, b + 12);
        let val2 = read32(data, b + 16);
        let val3 = read32(data, b + 20);
        column_meta.push(
            ColumnMetaData {
                record_offset,
                size,
                additional_data_size: ads,
                compression,
                val1,
                val2,
                val3,
            },
        );
        i2 = i2 + 1;
    }
    // Pallet blocks, in column order, for pallet-compressed columns.
    let mut pallet_data: Vec<Vec<Value32>> = Vec::new();
    let mut pos: usize = cb + 24 * fc;
    let mut c: usize = 0;
    while c < fc
        invariant
            c <= fc,
            fc == column_meta@.len(),
            fc == clamp0(le32_at(data@, 140)),
            pos <= data@.len(),
            data@.len() <= usize::MAX,
            pallet_data@.len() == c,
        decreases fc - c,
    {
        let cm = column_meta[c];
        let is_pallet = match cm.compression {
            CompressionType::Pallet => true,
            CompressionType::PalletArray => true,
            _ => false,
        };
        if is_pallet {
            let count = (cm.additional_data_size / 4) as usize;
            if count > (data.len() - pos) / 4 {
                return Err(CascError::InvalidConfig);
            }
            let mut vals: Vec<Value32> = Vec::new();
            let mut k: usize = 0;
            while k < count
                invariant
                    k <= count,
                    pos + 4 * count <= data@.len(),
                    data@.len() <= usize::MAX,
                    vals@.len() == k,
                decreases count - k,
            {
                vals.push(Value32(read32(data, pos + 4 * k)));
                k = k + 1;
            }
            pallet_data.push(vals);
            pos = pos + 4 * count;
        } else {
            pallet_data.push(Vec::new());
        }
        c = c + 1;
    }
    // Common-value blocks, in column order, for common-compressed columns.
    let mut common_data: Vec<HashMap<u32, Value32>> = Vec::new();
    let mut c2: usize = 0;
    while c2 < fc
        invariant
            c2 <= fc,
            fc == column_meta@.len(),
            fc == clamp0(le32_at(data@, 140)),
            pos <= data@.len(),
            data@.len() <= usize::MAX,
            common_data@.len() == c2,
        decreases fc - c2,
    {
        let cm = column_meta[c2];
        let is_common = match cm.compression {
            CompressionType::Common => true,
            _ => false,
        };
        let mut map: HashMap<u32, Value32> = HashMap::new();
        if is_common {
            let entries = (cm.additional_data_size / 8) as usize;
            if entries > (data.len() - pos) / 8 {
                return Err(CascError::InvalidConfig);
            }
            let mut k: usize = 0;
            while k < entries
                invariant
                    k <= entries,
                    pos + 8 * entries <= data@.len(),
                    data@.len() <= usize::MAX,
                decreases entries - k,
            {
                let key = read32(data, pos + 8 * k);
                let val = Value32(read32(data, pos + 8 * k + 4));
                map.insert(key, val);
                k = k + 1;
            }
            pos = pos + 8 * entries;
        }
        common_data.push(map);
        c2 = c2 + 1;
    }
    // Sections: skip encrypted ones, bounds-check every declared range.
    let record_size_u: usize = if record_size_raw >= 0x8000_0000 {
        0
    } else {
        record_size_raw as usize
    };
    let is_sparse = flags % 2 == 1;
    let mut sections: Vec<Wdc5Section> = Vec::new();
    let mut record_id_base: usize = 0;
    let mut total_record_data: usize = 0;
    let mut s: usize = 0;
    while s < ns
        invariant
            s <= ns,
            ns == clamp0(le32_at(data@, 200)),
            204 + 40 * ns <= data@.len(),
            data@.len() <= usize::MAX,
            fc == column_meta@.len(),
            fc == field_meta@.len(),
            record_size_u < 0x8000_0000,
            record_size_u == clamp0(le32_at(data@, 144)),
            sections@.len() <= s,
            forall|t: int|
                0 <= t < s && !spec_section_encrypted(data@, t)
                    ==> #[trigger] spec_section_ranges_ok(
                    data@,
                    t,
                    record_size_u as int,
                ),
            forall|t: int|
                0 <= t < sections@.len() ==> {
                    let sec = #[trigger] sections@[t];
                    &&& sec.ptr_records + sec.records_data@.len() <= data@.len()
                    &&& sec.records_data@ == data@.subrange(
                        sec.ptr_records as int,
                        sec.ptr_records + sec.records_data@.len(),
                    )
                    &&& sec.record_offsets@.len() == sec.num_records
                    &&& sec.record_sizes@.len() == sec.num_records
                    &&& sec.parent_ids@.len() == sec.num_records
                },
        decreases ns - s,
    {
        match parse_one_section(
            data,
            s,
            record_size_u,
            is_sparse,
            &column_meta,
            &field_meta,
            id_field_index,
            record_id_base,
        ) {
            Ok(parsed) => {
                let (sec_opt, total) = parsed;
                match sec_opt {
                    Some(sec) => {
                        sections.push(sec);
                    },
                    None => {},
                }
                record_id_base = if total > usize::MAX - record_id_base {
                    usize::MAX
                } else {
                    record_id_base + total
                };
            },
            Err(e) => {
                return Err(e);
            },
        }
        s = s + 1;
    }
    let rc_u: usize = if records_count >= 0x8000_0000 {
        0
    } else {
        records_count as usize
    };
    proof {
        vstd::arithmetic::mul::lemma_mul_upper_bound(
            record_size_u as int,
            0x8000_0000,
            rc_u as int,
            0x8000_0000,
        );
    }
    let trd128 = record_size_u as u128 * rc_u as u128;
    let trd: usize = if trd128 > usize::MAX as u128 {
        usize::MAX
    } else {
        trd128 as usize
    };
    total_record_data = trd;
    Ok(
        Wdc5Meta {
            records_count,
            fields_count: fields_count_raw,
            record_size: record_size_raw,
            total_record_data,
            id_field_index,
            field_meta,
            column_meta,
            pallet_data,
            common_data,
            sections,
            table_hash,
            layout_hash,
        },
    )
}

/// Reads the little-endian 32-bit word at `off`, which must be in bounds.
fn read32(data: &[u8], off: usize) -> (r: u32)
    requires
        off + 4 <= data@.len(),
    ensures
        r == le32_at(data@, off as int),
{
    data[off] as u32 + data[off + 1] as u32 * 0x100 + data[off + 2] as u32 * 0x1_0000 + data[off
        + 3] as u32 * 0x100_0000
}

/// Parses one section: `Ok((None, total))` for an encrypted section that
/// is skipped, `Ok((Some(section), total))` for a decoded one, where
/// `total` is the section's declared record count.
#[verifier::rlimit(100)]
fn parse_one_section(
    data: &[u8],
    s: usize,
    record_size_u: usize,
    is_sparse: bool,
    column_meta: &Vec<ColumnMetaData>,
    field_meta: &Vec<FieldMetaData>,
    id_field_index: u16,
    record_id_base: usize,
) -> (r: Result<(Option<Wdc5Section>, usize), CascError>)
    requires
        204 + 40 * (s + 1) <= data@.len(),
        data@.len() <= usize::MAX,
        record_size_u < 0x8000_0000,
        column_meta@.len() == field_meta@.len(),
    ensures
        r matches Err(e) ==> e == CascError::InvalidConfig && !spec_section_encrypted(
            data@,
            s as int,
        ),
        spec_section_encrypted(data@, s as int) ==> (r matches Ok(p) && p.0 is None),
        r matches Ok(p) ==> p.0 is None ==> spec_section_encrypted(data@, s as int),
        r matches Ok(p) ==> p.0 matches Some(sec) ==> {
            &&& spec_section_ranges_ok(data@, s as int, record_size_u as int)
            &&& sec.ptr_records == clamp0(le32_at(data@, 204 + 40 * (s as int) + 8))
            &&& sec.ptr_records + sec.records_data@.len() <= data@.len()
            &&& sec.records_data@ == data@.subrange(
                sec.ptr_records as int,
                sec.ptr_records + sec.records_data@.len(),
            )
            &&& sec.record_offsets@.len() == sec.num_records
            &&& sec.record_sizes@.len() == sec.num_records
            &&& sec.parent_ids@.len() == sec.num_records
        },
{
    let b = 204 + 40 * s;
    let tact_lo = read32(data, b);
    let tact_hi = read32(data, b + 4);
    proof {
        assert(le64_at(data@, b as int) == tact_lo + 0x1_0000_0000 * (tact_hi as int));
    }
    let ptr_records = clamp32(read32(data, b + 8));
    let total_records = clamp32(read32(data, b + 12));
    let string_table_size = clamp32(read32(data, b + 16));
    let ptr_blocks = clamp32(read32(data, b + 20));
    let id_block_size = clamp32(read32(data, b + 24));
    let key_block_size = clamp32(read32(data, b + 28));
    let offset_map_entries = clamp32(read32(data, b + 32));
    let clone_block_entries = clamp32(read32(data, b + 36));
    if tact_lo != 0 || tact_hi != 0 {
        // Encrypted section: its key is not resolvable at this layer.
        return Ok((None, total_records as usize));
    }
    let records_offset = ptr_records as usize;
    if records_offset > data.len() {
        return Err(CascError::InvalidConfig);
    }
    // Block offsets after the record data, in declared order.
    let rs128 = record_size_u as u128;
    let tr128 = total_records as u128;
    proof {
        vstd::arithmetic::mul::lemma_mul_upper_bound(
            rs128 as int,
            0x8000_0000,
            tr128 as int,
            0x8000_0000,
        );
    }
    let mut running: u128 = 0;
    let mut ptr_string_block: u128 = 0;
    if ptr_blocks == 0 {
        ptr_string_block = records_offset as u128 + rs128 * tr128;
        running = ptr_string_block + string_table_size as u128;
    } else {
        running = ptr_blocks as u128;
    }
    let ptr_id_block: u128 = if id_block_size > 0 {
        let off = running;
        running = running + id_block_size as u128;
        off
    } else {
        0
    };
    let ptr_clone_block: u128 = if clone_block_entries > 0 {
        let off = running;
        running = running + clone_block_entries as u128 * 8;
        off
    } else {
        0
    };
    let (ptr_offset_map, ptr_id_map): (u128, u128) = if ptr_blocks > 0 && offset_map_entries > 0 {
        let om = running;
        running = running + offset_map_entries as u128 * 6;
        let im = running;
        running = running + offset_map_entries as u128 * 4;
        (om, im)
    } else {
        (0, 0)
    };
    let ptr_key_block: u128 = if key_block_size > 0 {
        running
    } else {
        0
    };
    let record_count: usize = if ptr_blocks > 0 && offset_map_entries > 0 {
        offset_map_entries as usize
    } else {
        total_records as usize
    };
    let records_len: usize = if ptr_blocks > 0 {
        if ptr_blocks as usize > records_offset {
            ptr_blocks as usize - records_offset
        } else {
            0
        }
    } else {
        let rl = rs128 * tr128;
        if rl > u32::MAX as u128 {
            return Err(CascError::InvalidConfig);
        }
        rl as usize
    };
    if records_len > data.len() - records_offset {
        return Err(CascError::InvalidConfig);
    }
    let records_end = records_offset + records_len;
    let records_data = crate::text::slice_to_vec(data, records_offset, records_end);
    // Per-row spans: the offset map when present, else the fixed stride.
    let mut record_offsets: Vec<usize> = Vec::new();
    let mut record_sizes: Vec<usize> = Vec::new();
    if ptr_offset_map > 0 && record_count > 0 {
        let om = ptr_offset_map;
        if om > data.len() as u128 || record_count as u128 * 6 > data.len() as u128 - om {
            return Err(CascError::InvalidConfig);
        }
        let om_us = om as usize;
        let mut i: usize = 0;
        while i < record_count
            invariant
                i <= record_count,
                om_us + 6 * record_count <= data@.len(),
                data@.len() <= usize::MAX,
                record_offsets@.len() == i,
                record_sizes@.len() == i,
            decreases record_count - i,
        {
            let eo = om_us + 6 * i;
            let data_offset = read32(data, eo) as usize;
            let size = (data[eo + 4] as u16 + data[eo + 5] as u16 * 0x100) as usize;
            let rel = if data_offset >= records_offset {
                data_offset - records_offset
            } else {
                data_offset
            };
            record_offsets.push(rel);
            record_sizes.push(size);
            i = i + 1;
        }
    } else {
        let mut i: usize = 0;
        while i < record_count
            invariant
                i <= record_count,
                record_count < 0x8000_0000,
                record_size_u < 0x8000_0000,
                !spec_section_encrypted(data@, s as int),
                record_offsets@.len() == i,
                record_sizes@.len() == i,
            decreases record_count - i,
        {
            proof {
                vstd::arithmetic::mul::lemma_mul_upper_bound(
                    record_size_u as int,
                    0x8000_0000,
                    i as int,
                    0x8000_0000,
                );
            }
            let off64 = record_size_u as u64 * i as u64;
            if off64 > usize::MAX as u64 {
                return Err(CascError::InvalidConfig);
            }
            record_offsets.push(off64 as usize);
            record_sizes.push(record_size_u);
            i = i + 1;
        }
    }
    // String runs, keyed by their offset within the string block.
    let mut string_table: HashMap<u32, Vec<u8>> = HashMap::new();
    if ptr_string_block > 0 && string_table_size > 0 {
        let start64 = ptr_string_block;
        let size_us = string_table_size as usize;
        if start64 > data.len() as u128 || size_us as u128 > data.len() as u128 - start64 {
            return Err(CascError::InvalidConfig);
        }
        let start = start64 as usize;
        let mut off: usize = 0;
        while off < size_us
            invariant
                start + size_us <= data@.len(),
                data@.len() <= usize::MAX,
                size_us < 0x8000_0000,
            decreases size_us + 1 - off,
        {
            let mut end = off;
            while end < size_us && data[start + end] != 0
                invariant
                    off <= end <= size_us,
                    start + size_us <= data@.len(),
                    data@.len() <= usize::MAX,
                decreases size_us - end,
            {
                end = end + 1;
            }
            let run = crate::text::slice_to_vec(data, start + off, start + end);
            string_table.insert(off as u32, run);
            off = end + 1;
        }
    }
    // Record ids: an explicit id block, the offset-map id list, or the id
    // field extracted from each record.
    let mut record_ids: Vec<u32> = Vec::new();
    if ptr_id_block > 0 && id_block_size > 0 {
        let count = (id_block_size as usize) / 4;
        let ib = ptr_id_block;
        if ib > data.len() as u128 || count as u128 * 4 > data.len() as u128 - ib {
            return Err(CascError::InvalidConfig);
        }
        let ib_us = ib as usize;
        let mut i: usize = 0;
        while i < count
            invariant
                i <= count,
                ib_us + 4 * count <= data@.len(),
                data@.len() <= usize::MAX,
                record_ids@.len() == i,
            decreases count - i,
        {
            record_ids.push(read32(data, ib_us + 4 * i));
            i = i + 1;
        }
    } else if ptr_id_map > 0 && record_count > 0 {
        let im = ptr_id_map;
        if im > data.len() as u128 || record_count as u128 * 4 > data.len() as u128 - im {
            return Err(CascError::InvalidConfig);
        }
        let im_us = im as usize;
        let mut i: usize = 0;
        while i < record_count
            invariant
                i <= record_count,
                im_us + 4 * record_count <= data@.len(),
                data@.len() <= usize::MAX,
                record_ids@.len() == i,
            decreases record_count - i,
        {
            record_ids.push(read32(data, im_us + 4 * i));
            i = i + 1;
        }
    } else {
        if id_field_index as usize >= column_meta.len() {
            return Err(CascError::InvalidConfig);
        }
        let fm = field_meta[id_field_index as usize];
        let cm = column_meta[id_field_index as usize];
        let width: usize = if fm.bits < 32 {
            (32 - fm.bits as i32) as usize
        } else {
            cm.val2 as usize
        };
        let mut i: usize = 0;
        while i < record_count
            invariant
                i <= record_count,
                record_count == record_offsets@.len(),
                record_ids@.len() == i,
            decreases record_count - i,
        {
            let base = record_offsets[i];
            if base >= records_data.len() {
                record_ids.push(0);
            } else {
                let mut reader = super::decoder::BitReader::new(records_data.as_slice(), base);
                reader.set_position(cm.record_offset as usize);
                let v = match reader.read_bits(width) {
                    Some(v) => v,
                    None => 0,
                };
                record_ids.push((v % 0x1_0000_0000) as u32);
            }
            i = i + 1;
        }
    }
    // Parent keys: a sparse list of (parent, record index) pairs.
    let mut parent_ids: Vec<u32> = Vec::new();
    let mut i3: usize = 0;
    while i3 < record_count
        invariant
            i3 <= record_count,
            parent_ids@.len() == i3,
        decreases record_count - i3,
    {
        parent_ids.push(0);
        i3 = i3 + 1;
    }
    if ptr_key_block > 0 && key_block_size > 0 {
        let kb = ptr_key_block;
        if kb > data.len() as u128 || 12 > data.len() as u128 - kb {
            return Err(CascError::InvalidConfig);
        }
        let kb_us = kb as usize;
        let nrec = read32(data, kb_us);
        if nrec >= 0x8000_0000 {
            return Err(CascError::InvalidConfig);
        }
        let nrec_us = nrec as usize;
        if nrec_us as u128 * 8 > data.len() as u128 - kb - 12 {
            return Err(CascError::InvalidConfig);
        }
        let mut off = kb_us + 12;
        let mut i: usize = 0;
        while i < nrec_us
            invariant
                i <= nrec_us,
                off == kb_us + 12 + 8 * i,
                kb_us + 12 + 8 * nrec_us <= data@.len(),
                data@.len() <= usize::MAX,
                parent_ids@.len() == record_count,
            decreases nrec_us - i,
        {
            let parent = read32(data, off);
            let record_index = read32(data, off + 4) as usize;
            if record_index < record_count {
                parent_ids.set(record_index, parent);
            }
            off = off + 8;
            i = i + 1;
        }
    }
    // Clone directives: (destination id, source id) pairs.
    let mut copy_data: HashMap<u32, u32> = HashMap::new();
    if ptr_clone_block > 0 && clone_block_entries > 0 {
        let cb2 = ptr_clone_block;
        let cnt = clone_block_entries as usize;
        if cb2 > data.len() as u128 || cnt as u128 * 8 > data.len() as u128 - cb2 {
            return Err(CascError::InvalidConfig);
        }
        let cb_us = cb2 as usize;
        let mut i: usize = 0;
        while i < cnt
            invariant
                i <= cnt,
                cb_us + 8 * cnt <= data@.len(),
                data@.len() <= usize::MAX,
            decreases cnt - i,
        {
            let dst = read32(data, cb_us + 8 * i);
            let src = read32(data, cb_us + 8 * i + 4);
            copy_data.insert(dst, src);
            i = i + 1;
        }
    }
    let num_records = record_count as u32;
    let sec = Wdc5Section {
        num_records,
        string_table_size,
        record_size: if record_size_u > u32::MAX as usize {
            u32::MAX
        } else {
            record_size_u as u32
        },
        is_sparse,
        ptr_records: records_offset,
        total_records,
        record_id_base,
        ptr_string_block: if ptr_string_block > usize::MAX as u128 {
            usize::MAX
        } else {
            ptr_string_block as usize
        },
        ptr_offset_map: if ptr_offset_map > usize::MAX as u128 {
            usize::MAX
        } else {
            ptr_offset_map as usize
        },
        records_data,
        record_offsets,
        record_sizes,
        string_table,
        record_ids,
        parent_ids,
        copy_data,
        sparse_entries: Vec::new(),
    };
    proof {
        assert(sec.records_data@ =~= data@.subrange(
            sec.ptr_records as int,
            sec.ptr_records + sec.records_data@.len(),
        ));
    }
    Ok((Some(sec), total_records as usize))
}

/// Clamps a declared signed count at zero.
fn clamp32(v: u32) -> (r: u32)
    ensures
        r == clamp0(v),
        r < 0x8000_0000,
{
    if v >= 0x8000_0000 {
        0
    } else {
        v
    }
}

} // verus!

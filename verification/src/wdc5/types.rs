//! Shared metadata of a WDC5 table: per-field bit layouts, per-column
//! compression descriptors, and the parsed sections.

use vstd::prelude::*;

use std::collections::HashMap;

verus! {

/// The column-level compression schemes.
#[derive(Clone, Copy, Debug, PartialEq, Eq, Structural)]
pub enum CompressionType {
    Uncompressed,
    Immediate,
    Common,
    Pallet,
    PalletArray,
    SignedImmediate,
}

impl CompressionType {
    /// The scheme a raw descriptor value selects. The kinds form a closed
    /// set: a descriptor above the last known kind names no scheme and is
    /// rejected explicitly.
    pub fn from_u32(v: u32) -> (r: Option<CompressionType>)
        ensures
            v <= 5 ==> r == Some(Self::spec_from_u32(v)),
            v > 5 ==> r is None,
    {
        if v == 0 {
            Some(CompressionType::Uncompressed)
        } else if v == 1 {
            Some(CompressionType::Immediate)
        } else if v == 2 {
            Some(CompressionType::Common)
        } else if v == 3 {
            Some(CompressionType::Pallet)
        } else if v == 4 {
            Some(CompressionType::PalletArray)
        } else if v == 5 {
            Some(CompressionType::SignedImmediate)
        } else {
            None
        }
    }

    /// The scheme a known descriptor value (at most 5) names.
    pub open spec fn spec_from_u32(v: u32) -> CompressionType {
        if v == 1 {
            CompressionType::Immediate
        } else if v == 2 {
            CompressionType::Common
        } else if v == 3 {
            CompressionType::Pallet
        } else if v == 4 {
            CompressionType::PalletArray
        } else if v == 5 {
            CompressionType::SignedImmediate
        } else {
            CompressionType::Uncompressed
        }
    }
}

/// A field's declared size and byte offset in the legacy bit scheme.
#[derive(Clone, Copy, Debug, PartialEq, Eq, Structural)]
pub struct FieldMetaData {
    pub bits: i16,
    pub offset: i16,
}

/// A column's bit placement, compression kind and auxiliary parameters.
#[derive(Clone, Copy, Debug, PartialEq, Eq, Structural)]
pub struct ColumnMetaData {
    pub record_offset: u16,
    pub size: u16,
    pub additional_data_size: u32,
    pub compression: CompressionType,
    pub val1: u32,
    pub val2: u32,
    pub val3: u32,
}

/// One row's span in a sparse table's offset map.
#[derive(Clone, Copy, Debug, PartialEq, Eq, Structural)]
pub struct SparseEntry {
    pub offset: u32,
    pub size: u16,
}

/// One parsed section: its record bytes, per-row spans, string table,
/// record ids, parent keys and clone directives.
pub struct Wdc5Section {
    pub num_records: u32,
    pub string_table_size: u32,
    pub record_size: u32,
    pub is_sparse: bool,
    pub ptr_records: usize,
    pub total_records: u32,
    pub record_id_base: usize,
    pub ptr_string_block: usize,
    pub ptr_offset_map: usize,
    pub records_data: Vec<u8>,
    pub record_offsets: Vec<usize>,
    pub record_sizes: Vec<usize>,
    pub string_table: HashMap<u32, Vec<u8>>,
    pub record_ids: Vec<u32>,
    pub parent_ids: Vec<u32>,
    pub copy_data: HashMap<u32, u32>,
    pub sparse_entries: Vec<SparseEntry>,
}

/// A whole parsed table: header counts, shared field and column metadata,
/// the pallet and common-value blocks, and the sections.
pub struct Wdc5Meta {
    pub records_count: u32,
    pub fields_count: u32,
    pub record_size: u32,
    pub total_record_data: usize,
    pub id_field_index: u16,
    pub field_meta: Vec<FieldMetaData>,
    pub column_meta: Vec<ColumnMetaData>,
    pub pallet_data: Vec<Vec<Value32>>,
    pub common_data: Vec<HashMap<u32, Value32>>,
    pub sections: Vec<Wdc5Section>,
    pub table_hash: u32,
    pub layout_hash: u32,
}

/// A raw 32-bit cell value, interpreted by the caller.
#[derive(Clone, Copy, Debug, PartialEq, Eq, Structural)]
pub struct Value32(pub u32);

impl Value32 {
    /// The unsigned reading of the cell.
    pub fn as_u32(self) -> (r: u32)
        ensures
            r == self.0,
    {
        self.0
    }

    /// The two's-complement signed reading of the cell.
    pub fn as_i32(self) -> (r: i32)
        ensures
            r == self.0 as i32,
    {
        self.0 as i32
    }
}

} // verus!

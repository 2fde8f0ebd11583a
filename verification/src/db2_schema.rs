//! Helpers shared by table-level decoders: reading fixed-layout records
//! out of a section, and null-terminated strings out of a string block.

pub mod dbd;
pub mod record_iter;
pub mod string_table;
pub mod tables;

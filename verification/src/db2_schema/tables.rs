//! Fixed-layout decoders for specific tables.

pub mod area_table;
pub mod map;

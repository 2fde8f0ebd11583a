//! The WDC5 tabular format: shared metadata types, the bit-level record
//! decoder, and the section reader.

pub mod decoder;
pub mod types;

pub mod reader;

//! A read-only client library for the CASC content-addressable archive format:
//! it resolves stable identifiers to archive locations, unwraps the BLTE
//! container (raw, deflate and encrypted chunks), manages decryption keys,
//! and decodes the DB2/WDC5 tabular record format.

pub mod blte;
pub mod bytes;
pub mod cdn_index;
pub mod config;
pub mod db2;
pub mod db2_schema;
pub mod encoding;
pub mod errors;
pub mod hexutil;
pub mod index;
pub mod keysvc;
pub mod listfile;
pub mod reader;
pub mod root;
pub mod storage;
pub mod tact_keys;
pub mod text;
pub mod types;
pub mod wdc5;

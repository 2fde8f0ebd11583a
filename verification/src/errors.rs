//! Error type shared by every layer of the storage client.

use vstd::prelude::*;

verus! {

/// Failure cases of the storage client.
///
/// `MissingDecryptionKey` carries the 64-bit name of the absent key; it is the
/// one recoverable error (the caller may refresh its key service and retry
/// once). All the other variants are fatal for the asset being resolved.
#[derive(Clone, Copy, Debug, PartialEq, Eq, Structural)]
pub enum CascError {
    /// A required file, index entry or asset id could not be located.
    FileNotFound,
    /// A structural or integrity violation inside a BLTE container.
    InvalidBlte,
    /// A content key absent from the encoding table.
    MissingEncoding,
    /// A feature of the format that this client does not support.
    Unimplemented,
    /// A malformed manifest, config, index or table.
    InvalidConfig,
    /// A malformed hexadecimal string.
    InvalidHex,
    /// A filesystem or network failure reported by the caller's I/O layer.
    Io,
    /// An encrypted chunk whose key name is not known to the key service.
    MissingDecryptionKey(u64),
}

impl CascError {
    /// A short, fixed description of the error kind.
    pub fn describe(&self) -> (r: &'static str)
        ensures
            r@ == self.spec_describe(),
    {
        match self {
            CascError::FileNotFound => "file not found",
            CascError::InvalidBlte => "invalid blte format",
            CascError::MissingEncoding => "missing encoding entry",
            CascError::Unimplemented => "not implemented",
            CascError::InvalidConfig => "invalid config file",
            CascError::InvalidHex => "invalid hex string",
            CascError::Io => "io error",
            CascError::MissingDecryptionKey(_) => "missing decryption key",
        }
    }

    pub open spec fn spec_describe(&self) -> Seq<char> {
        match self {
            CascError::FileNotFound => "file not found"@,
            CascError::InvalidBlte => "invalid blte format"@,
            CascError::MissingEncoding => "missing encoding entry"@,
            CascError::Unimplemented => "not implemented"@,
            CascError::InvalidConfig => "invalid config file"@,
            CascError::InvalidHex => "invalid hex string"@,
            CascError::Io => "io error"@,
            CascError::MissingDecryptionKey(_) => "missing decryption key"@,
        }
    }
}

} // verus!

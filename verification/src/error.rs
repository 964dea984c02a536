//! The error type shared by the format parsers.

use vstd::prelude::*;

verus! {

/// `std::io::Error`, carried by the I/O variant.
#[verifier::external_type_specification]
#[verifier::external_body]
pub struct ExIoError(std::io::Error);

/// What went wrong while detecting, parsing, decrypting, decompressing or
/// extracting a firmware image.
#[derive(Debug)]
pub enum UnixtractError {
    /// An I/O error (file not found, permission denied, ...).
    Io(std::io::Error),
    /// A format was detected but its header is invalid.
    InvalidFormat(String),
    /// No detector recognised the input.
    UnrecognizedFormat,
    /// A cryptographic operation failed.
    Crypto(String),
    /// A decompression failed.
    Decompression(String),
    /// A required key is not in the key store.
    KeyNotFound(String),
    /// A checksum or integrity check failed.
    ChecksumMismatch { expected: u32, actual: u32 },
    /// A path taken from a firmware image is unsafe.
    UnsafePath { path: String },
    /// The format is known but this variant is not supported.
    UnsupportedVariant(String),
    /// Anything else.
    Other(String),
}

impl From<String> for UnixtractError {
    fn from(s: String) -> (r: Self) {
        UnixtractError::Other(s)
    }
}

impl vstd::std_specs::convert::FromSpecImpl<String> for UnixtractError {
    open spec fn obeys_from_spec() -> bool {
        true
    }

    open spec fn from_spec(s: String) -> Self {
        UnixtractError::Other(s)
    }
}

} // verus!

//! Hex-string decoding of keys.

use vstd::prelude::*;
use vstd::string::StringSliceAdditionalSpecFns;

verus! {

/// Why a hex string could not be decoded (`hex::FromHexError`).
#[derive(Debug, Clone, Copy, PartialEq, Eq)]
pub enum HexError {
    /// A byte that is no hex digit, and its index.
    InvalidHexCharacter { c: char, index: usize },
    /// An odd number of digits.
    OddLength,
    /// A length that does not fit a fixed-size output.
    InvalidStringLength,
}

/// The value of a hex digit.
pub open spec fn hex_val(b: u8) -> Option<u8> {
    if 0x30 <= b <= 0x39 {
        Some((b - 0x30) as u8)
    } else if 0x41 <= b <= 0x46 {
        Some((b - 0x41 + 10) as u8)
    } else if 0x61 <= b <= 0x66 {
        Some((b - 0x61 + 10) as u8)
    } else {
        None
    }
}

/// The index of the first byte at or after `i` that is no hex digit.
pub open spec fn first_bad_hex(s: Seq<u8>, i: int) -> Option<int>
    decreases s.len() - i,
{
    if i < 0 || i >= s.len() {
        None
    } else if hex_val(s[i]) is None {
        Some(i)
    } else {
        first_bad_hex(s, i + 1)
    }
}

/// What `hex::decode` gives for the bytes `s`: an odd length fails first,
/// then the first byte that is no hex digit; otherwise each pair of digits
/// is one byte, high digit first.
pub open spec fn spec_hex_decode(s: Seq<u8>) -> Result<Seq<u8>, HexError> {
    if s.len() % 2 != 0 {
        Err(HexError::OddLength)
    } else {
        match first_bad_hex(s, 0) {
            Some(i) => Err(HexError::InvalidHexCharacter { c: s[i] as char, index: i as usize }),
            None => Ok(
                Seq::new(
                    s.len() / 2,
                    |i: int| (hex_val(s[2 * i])->0 * 16 + hex_val(s[2 * i + 1])->0) as u8,
                ),
            ),
        }
    }
}

/// Calls `hex::decode`. Its source (`FromHex for Vec<u8>` and `val`) is
/// what `spec_hex_decode` states: odd length first, then the first invalid
/// digit in order, else the decoded bytes.
#[verifier::external_body]
pub(crate) fn hex_decode(s: &str) -> (r: Result<Vec<u8>, HexError>)
    ensures
        match spec_hex_decode(s.spec_bytes()) {
            Ok(v) => r matches Ok(w) && w@ == v,
            Err(e) => r == Err::<Vec<u8>, HexError>(e),
        },
{
    match hex::decode(s) {
        Ok(v) => Ok(v),
        Err(hex::FromHexError::InvalidHexCharacter { c, index }) => Err(
            HexError::InvalidHexCharacter { c, index },
        ),
        Err(hex::FromHexError::OddLength) => Err(HexError::OddLength),
        Err(hex::FromHexError::InvalidStringLength) => Err(HexError::InvalidStringLength),
    }
}

} // verus!

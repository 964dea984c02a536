//! LG EPK firmware: version detection and key search.

use vstd::prelude::*;
use vstd::string::StringSliceAdditionalSpecFns;
use crate::aes::{decrypt_aes_ecb_auto, spec_ecb_auto};
use crate::hexcodec::{hex_decode, spec_hex_decode, HexError};
use crate::pfl_upg::{string_from_bytes, until_nul};
use crate::text::utf8_lossy;
use crate::bytes::copy_range;
use crate::error::UnixtractError;
use crate::text::{chars_of, string_from_chars};

verus! {

/// What a recognised EPK file records: its major version and the 36 bytes
/// of platform and SDK version strings.
pub struct EpkContext {
    pub epk_version: u8,
    pub versions: Vec<u8>,
}

/// `data` fits `pattern` over their common length: `_` wants a NUL, `X` an
/// ASCII digit and `.` a dot; other pattern bytes accept anything.
pub open spec fn spec_match_pattern(data: Seq<u8>, pattern: Seq<u8>) -> bool {
    forall|i: int|
        0 <= i < data.len() && i < pattern.len() ==> {
            &&& (pattern[i] == 0x5F ==> data[i] == 0)
            &&& (pattern[i] == 0x58 ==> 0x30 <= #[trigger] data[i] <= 0x39)
            &&& (pattern[i] == 0x2E ==> data[i] == 0x2E)
        }
}

/// Checks `data` against a version pattern.
pub fn match_with_pattern(data: &[u8], pattern: &str) -> (r: bool)
    ensures
        r == spec_match_pattern(data@, pattern.spec_bytes()),
{
    let p = pattern.as_bytes();
    let mut i: usize = 0;
    while i < data.len() && i < p.len()
        invariant
            p@ == pattern.spec_bytes(),
            i <= data@.len(),
            forall|j: int|
                0 <= j < i && j < p@.len() ==> {
                    &&& (p@[j] == 0x5F ==> data@[j] == 0)
                    &&& (p@[j] == 0x58 ==> 0x30 <= #[trigger] data@[j] <= 0x39)
                    &&& (p@[j] == 0x2E ==> data@[j] == 0x2E)
                },
        decreases data@.len() - i,
    {
        let b = data[i];
        let q = p[i];
        if q == 0x5F && b != 0 {
            return false;
        }
        if q == 0x58 && !(0x30 <= b && b <= 0x39) {
            return false;
        }
        if q == 0x2E && b != 0x2E {
            return false;
        }
        i += 1;
    }
    true
}

/// The EPK version that the version strings match: 2 for the EPK2 layout,
/// 3 for any of the three EPK3 layouts.
pub open spec fn spec_epk_version(v: Seq<u8>) -> Option<u8> {
    if spec_match_pattern(v, "____XXXX.XXXX.XXXX__XX.XX.XXX_______".spec_bytes()) {
        Some(2)
    } else if spec_match_pattern(v, "____X.X.X___________X.X.X___________".spec_bytes()) {
        Some(3)
    } else if spec_match_pattern(v, "____X.XX.X__________X.XX.X__________".spec_bytes()) {
        Some(3)
    } else if spec_match_pattern(v, "____XX.X.X__________XX.X.X__________".spec_bytes()) {
        Some(3)
    } else {
        None
    }
}

/// Tells EPK2 from EPK3 by the layout of the version strings.
pub fn check_epk_version(versions: &[u8]) -> (r: Option<u8>)
    ensures
        r == spec_epk_version(versions@),
{
    if match_with_pattern(versions, "____XXXX.XXXX.XXXX__XX.XX.XXX_______") {
        Some(2)
    } else if match_with_pattern(versions, "____X.X.X___________X.X.X___________") {
        Some(3)
    } else if match_with_pattern(versions, "____X.XX.X__________X.XX.X__________") {
        Some(3)
    } else if match_with_pattern(versions, "____XX.X.X__________XX.X.X__________") {
        Some(3)
    } else {
        None
    }
}

/// Recognises an EPK file from the 36 version bytes at offset 1712.
pub fn is_epk_file(versions: Vec<u8>) -> (r: Option<EpkContext>)
    ensures
        match spec_epk_version(versions@) {
            Some(v) => r matches Some(c) && c.epk_version == v && c.versions@ == versions@,
            None => r is None,
        },
{
    match check_epk_version(versions.as_slice()) {
        Some(epk_version) => Some(EpkContext { epk_version, versions }),
        None => None,
    }
}

/// `p` begins with `magic`.
pub open spec fn has_prefix(p: Seq<u8>, magic: Seq<u8>) -> bool {
    magic.len() <= p.len() && p.take(magic.len() as int) == magic
}

/// The search result from key `i` on: the index and bytes of the first key
/// whose decryption of `data` starts with `magic`, the error of the first
/// key that is not valid hex, or nothing.
pub open spec fn spec_find_key(keys: Seq<(&str, &str)>, data: Seq<u8>, magic: Seq<u8>, i: int) -> Result<
    Option<(int, Seq<u8>)>,
    HexError,
>
    decreases keys.len() - i,
{
    if i < 0 || i >= keys.len() {
        Ok(None)
    } else {
        match spec_hex_decode(keys[i].0.spec_bytes()) {
            Err(e) => Err(e),
            Ok(k) => match spec_ecb_auto(k, data) {
                Some(p) => if has_prefix(p, magic) {
                    Ok(Some((i, k)))
                } else {
                    spec_find_key(keys, data, magic, i + 1)
                },
                None => spec_find_key(keys, data, magic, i + 1),
            },
        }
    }
}

fn starts_with_bytes(p: &[u8], magic: &[u8]) -> (r: bool)
    ensures
        r == has_prefix(p@, magic@),
{
    if magic.len() > p.len() {
        return false;
    }
    let mut i: usize = 0;
    while i < magic.len()
        invariant
            magic@.len() <= p@.len(),
            i <= magic@.len(),
            forall|j: int| 0 <= j < i ==> p@[j] == magic@[j],
        decreases magic@.len() - i,
    {
        if p[i] != magic[i] {
            assert(p@.take(magic@.len() as int)[i as int] != magic@[i as int]);
            return false;
        }
        i += 1;
    }
    assert(p@.take(magic@.len() as int) =~= magic@);
    true
}

/// Tries each `(hex key, name)` pair in turn and returns the name and bytes
/// of the first key whose AES-ECB decryption of `data` starts with
/// `expected_magic`. A key that is not valid hex ends the search with its
/// error; a key of unusable length is skipped.
pub fn find_key<'a>(key_array: &'a [(&'a str, &'a str)], data: &[u8], expected_magic: &[u8]) -> (r:
    Result<Option<(&'a str, Vec<u8>)>, HexError>)
    ensures
        match spec_find_key(key_array@, data@, expected_magic@, 0) {
            Ok(Some((i, k))) => r matches Ok(Some((name, kb))) && name == key_array@[i].1 && kb@
                == k,
            Ok(None) => r matches Ok(None),
            Err(e) => r == Err::<Option<(&'a str, Vec<u8>)>, HexError>(e),
        },
{
    let mut i: usize = 0;
    while i < key_array.len()
        invariant
            i <= key_array@.len(),
            spec_find_key(key_array@, data@, expected_magic@, 0) == spec_find_key(
                key_array@,
                data@,
                expected_magic@,
                i as int,
            ),
        decreases key_array@.len() - i,
    {
        let (key_hex, name) = key_array[i];
        let key_bytes = match hex_decode(key_hex) {
            Ok(k) => k,
            Err(e) => return Err(e),
        };
        match decrypt_aes_ecb_auto(key_bytes.as_slice(), data) {
            Ok(decrypted) => {
                if starts_with_bytes(decrypted.as_slice(), expected_magic) {
                    return Ok(Some((name, key_bytes)));
                }
            },
            Err(_) => {},
        }
        i += 1;
    }
    Ok(None)
}

/// The platform and SDK version strings of a recognised EPK file (bytes
/// 4..20 and 20..36 of its version bytes, each up to its first NUL). The
/// version-2 and version-3 container formats themselves are handled
/// elsewhere. Version bytes that end early (a file cut short) are an error.
pub fn extract_epk(ctx: &EpkContext) -> (r: Result<(String, String), UnixtractError>)
    ensures
        ctx.versions@.len() >= 36 ==> (r matches Ok(v) && v.0@ == utf8_lossy(
            until_nul(ctx.versions@.subrange(4, 20)),
        ) && v.1@ == utf8_lossy(until_nul(ctx.versions@.subrange(20, 36)))),
        ctx.versions@.len() < 36 ==> (r matches Err(UnixtractError::InvalidFormat(m)) && m@
            == "EPK version block is cut short"@),
{
    if ctx.versions.len() < 36 {
        let m = chars_of("EPK version block is cut short");
        return Err(UnixtractError::InvalidFormat(string_from_chars(m.as_slice())));
    }
    let platform = copy_range(ctx.versions.as_slice(), 4, 20);
    let sdk = copy_range(ctx.versions.as_slice(), 20, 36);
    Ok((string_from_bytes(platform.as_slice()), string_from_bytes(sdk.as_slice())))
}

} // verus!

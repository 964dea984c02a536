//! The search for the AES key of a Philips UPG package: each RSA public
//! key recovers a candidate AES key from the signature, which is tried on
//! the first file header.

use vstd::prelude::*;
use vstd::arithmetic::power::pow;
use vstd::arithmetic::power2::pow2;
use vstd::string::StringSliceAdditionalSpecFns;
use crate::aes::{decrypt_aes256_ecb, spec_ecb256};
use crate::bytes::copy_range;
use crate::hexcodec::{HexError, hex_decode, spec_hex_decode};
use crate::text::{chars_of, string_from_chars};

verus! {

/// The value of big-endian bytes.
pub open spec fn be_value(s: Seq<u8>) -> nat
    decreases s.len(),
{
    if s.len() == 0 {
        0
    } else {
        (be_value(s.drop_last()) * 256 + s.last()) as nat
    }
}

/// The value of little-endian bytes.
pub open spec fn le_value(s: Seq<u8>) -> nat
    decreases s.len(),
{
    if s.len() == 0 {
        0
    } else {
        (s[0] + 256 * le_value(s.skip(1))) as nat
    }
}

/// The shortest little-endian bytes of `v` (`[0]` for zero).
pub open spec fn le_bytes(v: nat) -> Seq<u8>
    decreases v,
{
    if v < 256 {
        seq![v as u8]
    } else {
        seq![(v % 256) as u8] + le_bytes(v / 256)
    }
}

/// Why an RSA public key was refused.
#[derive(Debug, Clone, Copy, PartialEq, Eq, Structural)]
pub enum RsaKeyError {
    /// The modulus has more than 4096 bits.
    ModulusTooLarge,
    /// The modulus is even or not above the exponent.
    InvalidModulus,
    /// The exponent is even.
    InvalidExponent,
    /// The exponent is below 2.
    PublicExponentTooSmall,
    /// The exponent is above 2^33 - 1.
    PublicExponentTooLarge,
}

/// How `rsa::RsaPublicKey::new` judges the modulus `n` and exponent `e`.
pub open spec fn rsa_key_error(n: nat, e: nat) -> Option<RsaKeyError> {
    if n >= pow2(4096) {
        Some(RsaKeyError::ModulusTooLarge)
    } else if e >= pow2(64) {
        Some(RsaKeyError::PublicExponentTooLarge)
    } else if e >= n || n % 2 == 0 {
        Some(RsaKeyError::InvalidModulus)
    } else if e % 2 == 0 {
        Some(RsaKeyError::InvalidExponent)
    } else if e < 2 {
        Some(RsaKeyError::PublicExponentTooSmall)
    } else if e > 0x1_FFFF_FFFF {
        Some(RsaKeyError::PublicExponentTooLarge)
    } else {
        None
    }
}

/// Applies the RSA public key with big-endian modulus `n_be` and big-endian
/// exponent `e_be` to the little-endian integer `sig_le`: builds the key
/// with `rsa::RsaPublicKey::new`, raises with `rsa::hazmat::rsa_encrypt`,
/// and returns the result's `to_bytes_le`. As the `rsa` and
/// `num-bigint-dig` sources show, the key is refused as `rsa_key_error`
/// says (a modulus of more than 4096 bits, an exponent that does not fit
/// in 64 bits, a modulus that is even or not above the exponent, an even
/// exponent, an exponent below 2 or above 2^33 - 1); otherwise the result
/// is `sig^e mod n` in its shortest little-endian bytes.
#[verifier::external_body]
fn rsa_public_op(n_be: &[u8], e_be: &[u8], sig_le: &[u8]) -> (r: Result<Vec<u8>, RsaKeyError>)
    ensures
        match rsa_key_error(be_value(n_be@), be_value(e_be@)) {
            Some(e) => r == Err::<Vec<u8>, RsaKeyError>(e),
            None => r matches Ok(v) && v@ == le_bytes(
                (pow(le_value(sig_le@) as int, be_value(e_be@)) % (be_value(n_be@) as int)) as nat,
            ),
        },
{
    let n = rsa::BigUint::from_bytes_be(n_be);
    let e = rsa::BigUint::from_bytes_be(e_be);
    match rsa::RsaPublicKey::new(n, e) {
        Ok(key) => match rsa::hazmat::rsa_encrypt(&key, &rsa::BigUint::from_bytes_le(sig_le)) {
            Ok(m) => Ok(m.to_bytes_le()),
            Err(_) => Err(RsaKeyError::InvalidModulus),
        },
        Err(rsa::Error::ModulusTooLarge) => Err(RsaKeyError::ModulusTooLarge),
        Err(rsa::Error::InvalidExponent) => Err(RsaKeyError::InvalidExponent),
        Err(rsa::Error::PublicExponentTooSmall) => Err(RsaKeyError::PublicExponentTooSmall),
        Err(rsa::Error::PublicExponentTooLarge) => Err(RsaKeyError::PublicExponentTooLarge),
        Err(_) => Err(RsaKeyError::InvalidModulus),
    }
}

/// The public exponent of UPG signing keys, 65537, as big-endian bytes.
pub open spec fn upg_exponent() -> Seq<u8> {
    seq![0x01u8, 0x00u8, 0x01u8]
}

/// Why the key search stopped with an error.
#[derive(Debug, Clone, Copy, PartialEq, Eq)]
pub enum PflKeyError {
    /// A modulus is no valid hex string.
    Hex(HexError),
    /// A public key was refused.
    Rsa(RsaKeyError),
}

/// The signature recovered with the public key of modulus `n_hex`.
pub open spec fn recovered(n: Seq<u8>, sig: Seq<u8>) -> Seq<u8> {
    le_bytes((pow(le_value(sig) as int, be_value(upg_exponent())) % (be_value(n) as int)) as nat)
}

/// The position of the first NUL of `s` at or after `i`.
pub open spec fn first_nul(s: Seq<u8>, i: int) -> Option<int>
    decreases s.len() - i,
{
    if i < 0 || i >= s.len() {
        None
    } else if s[i] == 0 {
        Some(i)
    } else {
        first_nul(s, i + 1)
    }
}

/// The decrypted header starts with a NUL-terminated ASCII file name of
/// at least two bytes.
pub open spec fn names_a_file(dec: Seq<u8>) -> bool {
    match first_nul(dec, 0) {
        None => false,
        Some(end) => end > 1 && forall|k: int| 0 <= k < end ==> dec[k] < 128,
    }
}

/// The search from key `i` on: `None` where a recovered signature is too
/// short to hold a key (the search cannot go on); otherwise the name and
/// AES key of the first public key whose key decrypts `ciphertext` to a
/// header naming a file, the error of the first modulus that is not
/// valid, or nothing.
pub open spec fn spec_try_find_key(
    keys: Seq<(&str, &str)>,
    sig: Seq<u8>,
    ciphertext: Seq<u8>,
    i: int,
) -> Option<Result<Option<(Seq<char>, Seq<u8>)>, PflKeyError>>
    decreases keys.len() - i,
{
    if i < 0 || i >= keys.len() {
        Some(Ok(None))
    } else {
        match spec_hex_decode(keys[i].1.spec_bytes()) {
            Err(e) => Some(Err(PflKeyError::Hex(e))),
            Ok(n) => match rsa_key_error(be_value(n), be_value(upg_exponent())) {
                Some(e) => Some(Err(PflKeyError::Rsa(e))),
                None => {
                    let dec_sig = recovered(n, sig);
                    if dec_sig.len() < 52 {
                        None
                    } else {
                        let key = dec_sig.subrange(20, 52);
                        if names_a_file(spec_ecb256(key, ciphertext)) {
                            Some(Ok(Some((keys[i].0@, key))))
                        } else {
                            spec_try_find_key(keys, sig, ciphertext, i + 1)
                        }
                    }
                },
            },
        }
    }
}

fn array32(v: &Vec<u8>, start: usize) -> (r: [u8; 32])
    requires
        start + 32 <= v@.len(),
    ensures
        r@ == v@.subrange(start as int, start + 32),
{
    let mut a: [u8; 32] = [0; 32];
    let len = v.len();
    let mut i: usize = 0;
    while i < 32
        invariant
            i <= 32,
            len == v@.len(),
            start + 32 <= v@.len(),
            forall|j: int| 0 <= j < i ==> a@[j] == v@[start + j],
        decreases 32 - i,
    {
        a[i] = v[start + i];
        i += 1;
    }
    assert(a@ =~= v@.subrange(start as int, start + 32));
    a
}

fn file_named(dec: &Vec<u8>) -> (r: bool)
    ensures
        r == names_a_file(dec@),
{
    let mut i: usize = 0;
    while i < dec.len() && dec[i] != 0
        invariant
            i <= dec@.len(),
            forall|j: int| 0 <= j < i ==> dec@[j] != 0,
            first_nul(dec@, 0) == first_nul(dec@, i as int),
        decreases dec@.len() - i,
    {
        i += 1;
    }
    if i == dec.len() {
        return false;
    }
    let end = i;
    if end <= 1 {
        return false;
    }
    let mut k: usize = 0;
    while k < end
        invariant
            end < dec@.len(),
            first_nul(dec@, 0) == Some(end as int),
            k <= end,
            forall|j: int| 0 <= j < k ==> dec@[j] < 128,
        decreases end - k,
    {
        if dec[k] >= 128 {
            return false;
        }
        k += 1;
    }
    true
}

fn scan_keys(sig: &[u8], ciphertext: &[u8], keys: &[(&str, &str)]) -> (r: Option<
    Result<Option<(String, [u8; 32])>, PflKeyError>,
>)
    ensures
        match spec_try_find_key(keys@, sig@, ciphertext@, 0) {
            None => r is None,
            Some(Ok(Some((name, key)))) => r matches Some(Ok(Some((s, k)))) && s@ == name && k@
                == key,
            Some(Ok(None)) => r matches Some(Ok(None)),
            Some(Err(e)) => r == Some(Err::<Option<(String, [u8; 32])>, PflKeyError>(e)),
        },
{
    let mut i: usize = 0;
    while i < keys.len()
        invariant
            i <= keys@.len(),
            spec_try_find_key(keys@, sig@, ciphertext@, 0) == spec_try_find_key(
                keys@,
                sig@,
                ciphertext@,
                i as int,
            ),
        decreases keys@.len() - i,
    {
        let (name, n_hex) = keys[i];
        let n = match hex_decode(n_hex) {
            Ok(n) => n,
            Err(e) => {
                return Some(Err(PflKeyError::Hex(e)));
            },
        };
        let e: [u8; 3] = [0x01, 0x00, 0x01];
        assert(e@ =~= upg_exponent());
        let dec_sig = match rsa_public_op(n.as_slice(), e.as_slice(), sig) {
            Ok(d) => d,
            Err(e) => {
                return Some(Err(PflKeyError::Rsa(e)));
            },
        };
        if dec_sig.len() < 52 {
            return None;
        }
        let aes_key = array32(&dec_sig, 20);
        let dec = match decrypt_aes256_ecb(&aes_key, ciphertext) {
            Ok(d) => d,
            // Not taken: AES-ECB decryption cannot fail.
            Err(_) => Vec::new(),
        };
        if file_named(&dec) {
            return Some(Ok(Some((string_from_chars(chars_of(name).as_slice()), aes_key))));
        }
        i += 1;
    }
    Some(Ok(None))
}

/// Finds the AES key of a UPG package from its signature `sig` and the
/// encrypted first file header `ciphertext`, trying each `(name, modulus
/// hex)` public key in turn (exponent 65537).
pub fn try_find_key(sig: &[u8], ciphertext: &[u8], keys: &[(&str, &str)]) -> (r: Result<
    Option<(String, [u8; 32])>,
    PflKeyError,
>)
    requires
        spec_try_find_key(keys@, sig@, ciphertext@, 0) is Some,
    ensures
        match spec_try_find_key(keys@, sig@, ciphertext@, 0) {
            Some(Ok(Some((name, key)))) => r matches Ok(Some((s, k))) && s@ == name && k@ == key,
            Some(Ok(None)) => r matches Ok(None),
            Some(Err(e)) => r == Err::<Option<(String, [u8; 32])>, PflKeyError>(e),
            None => false,
        },
{
    match scan_keys(sig, ciphertext, keys) {
        Some(r) => r,
        // Not taken: the precondition rules it out.
        None => Ok(None),
    }
}

/// The key search, or `None` where a recovered signature is too short to
/// hold a key and `try_find_key` cannot be called.
pub fn try_find_key_checked(sig: &[u8], ciphertext: &[u8], keys: &[(&str, &str)]) -> (r: Option<
    Result<Option<(String, [u8; 32])>, PflKeyError>,
>)
    ensures
        match spec_try_find_key(keys@, sig@, ciphertext@, 0) {
            None => r is None,
            Some(Ok(Some((name, key)))) => r matches Some(Ok(Some((s, k)))) && s@ == name && k@
                == key,
            Some(Ok(None)) => r matches Some(Ok(None)),
            Some(Err(e)) => r == Some(Err::<Option<(String, [u8; 32])>, PflKeyError>(e)),
        },
{
    scan_keys(sig, ciphertext, keys)
}

} // verus!

//! Samsung MSD decryption of `Salted__` data.

use vstd::prelude::*;
use crate::aes::{aes128_cbc_decrypt, cbc_pkcs7_ok, decrypt_aes128_cbc_pcks7, pkcs7_unpad};
use crate::bytes::{copy_range, match_at, bytes_match_at};
use crate::error::UnixtractError;
use crate::text::{chars_of, string_from_chars};

verus! {

/// The MD5 digest of `data`.
pub uninterp spec fn md5_digest(data: Seq<u8>) -> Seq<u8>;

/// Computes `md5::compute(data)`; the 16-byte digest is named by
/// `md5_digest`, whose algorithm is not restated.
#[verifier::external_body]
fn md5(data: &[u8]) -> (r: [u8; 16])
    ensures
        r@ == md5_digest(data@),
{
    md5::compute(data).0
}

/// The `Salted__` signature.
pub open spec fn salted_magic() -> Seq<u8> {
    seq![0x53u8, 0x61u8, 0x6Cu8, 0x74u8, 0x65u8, 0x64u8, 0x5Fu8, 0x5Fu8]
}

/// The data starts with `Salted__` and holds a full 8-byte salt.
pub open spec fn salted(data: Seq<u8>) -> bool {
    data.len() >= 16 && bytes_match_at(data, 0, salted_magic())
}

/// What decrypting `data` under `key` and `iv` gives: the unpadded
/// plaintext, or the CBC error message.
pub open spec fn cbc_result(key: Seq<u8>, iv: Seq<u8>, data: Seq<u8>, r: Result<Vec<u8>, UnixtractError>) -> bool {
    if cbc_pkcs7_ok(key, iv, data) {
        r matches Ok(v) && v@ == pkcs7_unpad(aes128_cbc_decrypt(key, iv, data))
    } else {
        r matches Err(UnixtractError::Other(m)) && m@ == crate::aes::cbc_error("AES-128-CBC-PKCS7"@)
    }
}

fn invalid_data() -> (r: UnixtractError)
    ensures
        r matches UnixtractError::Other(m) && m@ == "Invalid encrypted data!"@,
{
    let c = chars_of("Invalid encrypted data!");
    UnixtractError::Other(string_from_chars(c.as_slice()))
}

fn bad_passphrase() -> (r: UnixtractError)
    ensures
        r matches UnixtractError::Other(m) && m@ == "Passphrase must be 16 bytes for AES-128"@,
{
    let c = chars_of("Passphrase must be 16 bytes for AES-128");
    UnixtractError::Other(string_from_chars(c.as_slice()))
}

fn key_array(b: &[u8]) -> (r: [u8; 16])
    requires
        b@.len() == 16,
    ensures
        r@ == b@,
{
    let mut a = [0u8; 16];
    let mut i: usize = 0;
    while i < 16
        invariant
            b@.len() == 16,
            i <= 16,
            a@.len() == 16,
            forall|j: int| 0 <= j < i ==> a@[j] == b@[j],
        decreases 16 - i,
    {
        a[i] = b[i];
        i += 1;
    }
    assert(a@ =~= b@);
    a
}

/// Decrypts `Salted__` data with the OpenSSL key derivation: the key is
/// MD5(passphrase + salt) and the IV is MD5(key + passphrase + salt).
pub fn decrypt_aes_salted_old(encrypted_data: &[u8], passphrase_bytes: &Vec<u8>) -> (r: Result<
    Vec<u8>,
    UnixtractError,
>)
    ensures
        !salted(encrypted_data@) ==> (r matches Err(UnixtractError::Other(m)) && m@
            == "Invalid encrypted data!"@),
        salted(encrypted_data@) ==> ({
            let salt = encrypted_data@.subrange(8, 16);
            let key = md5_digest(passphrase_bytes@ + salt);
            let iv = md5_digest(key + passphrase_bytes@ + salt);
            cbc_result(key, iv, encrypted_data@.skip(16), r)
        }),
{
    let magic: [u8; 8] = [0x53, 0x61, 0x6C, 0x74, 0x65, 0x64, 0x5F, 0x5F];
    assert(magic@ =~= salted_magic());
    if encrypted_data.len() < 16 || !match_at(encrypted_data, 0, magic.as_slice()) {
        return Err(invalid_data());
    }
    let salt = copy_range(encrypted_data, 8, 16);
    let mut key_input: Vec<u8> = Vec::new();
    crate::bytes::push_range(&mut key_input, passphrase_bytes.as_slice(), 0, passphrase_bytes.len());
    crate::bytes::push_range(&mut key_input, salt.as_slice(), 0, 8);
    assert(key_input@ =~= passphrase_bytes@ + encrypted_data@.subrange(8, 16));
    let key = md5(key_input.as_slice());
    let mut iv_input: Vec<u8> = Vec::new();
    crate::bytes::push_range(&mut iv_input, key.as_slice(), 0, 16);
    crate::bytes::push_range(&mut iv_input, passphrase_bytes.as_slice(), 0, passphrase_bytes.len());
    crate::bytes::push_range(&mut iv_input, salt.as_slice(), 0, 8);
    assert(iv_input@ =~= key@ + passphrase_bytes@ + encrypted_data@.subrange(8, 16));
    let iv = md5(iv_input.as_slice());
    let body = copy_range(encrypted_data, 16, encrypted_data.len());
    assert(body@ =~= encrypted_data@.skip(16));
    decrypt_aes128_cbc_pcks7(body.as_slice(), &key, &iv)
}

/// Decrypts `Salted__` data the Tizen way: the 16-byte passphrase is the
/// key and the IV is MD5(salt).
pub fn decrypt_aes_salted_tizen(encrypted_data: &[u8], passphrase_bytes: &Vec<u8>) -> (r: Result<
    Vec<u8>,
    UnixtractError,
>)
    ensures
        !salted(encrypted_data@) ==> (r matches Err(UnixtractError::Other(m)) && m@
            == "Invalid encrypted data!"@),
        salted(encrypted_data@) && passphrase_bytes@.len() != 16 ==> (r matches Err(
            UnixtractError::Other(m)) && m@ == "Passphrase must be 16 bytes for AES-128"@),
        salted(encrypted_data@) && passphrase_bytes@.len() == 16 ==> cbc_result(
            passphrase_bytes@, md5_digest(encrypted_data@.subrange(8, 16)), encrypted_data@.skip(16), r),
{
    let magic: [u8; 8] = [0x53, 0x61, 0x6C, 0x74, 0x65, 0x64, 0x5F, 0x5F];
    assert(magic@ =~= salted_magic());
    if encrypted_data.len() < 16 || !match_at(encrypted_data, 0, magic.as_slice()) {
        return Err(invalid_data());
    }
    let salt = copy_range(encrypted_data, 8, 16);
    let iv = md5(salt.as_slice());
    if passphrase_bytes.len() != 16 {
        return Err(bad_passphrase());
    }
    let key = key_array(passphrase_bytes.as_slice());
    let body = copy_range(encrypted_data, 16, encrypted_data.len());
    assert(body@ =~= encrypted_data@.skip(16));
    decrypt_aes128_cbc_pcks7(body.as_slice(), &key, &iv)
}

/// Decrypts Tizen data with the 16-byte passphrase as key and MD5(salt) as
/// IV.
pub fn decrypt_aes_tizen(encrypted_data: &[u8], passphrase_bytes: &Vec<u8>, salt: &[u8]) -> (r:
    Result<Vec<u8>, UnixtractError>)
    ensures
        passphrase_bytes@.len() != 16 ==> (r matches Err(UnixtractError::Other(m)) && m@
            == "Passphrase must be 16 bytes for AES-128"@),
        passphrase_bytes@.len() == 16 ==> cbc_result(passphrase_bytes@, md5_digest(salt@), encrypted_data@, r),
{
    let iv = md5(salt);
    if passphrase_bytes.len() != 16 {
        return Err(bad_passphrase());
    }
    let key = key_array(passphrase_bytes.as_slice());
    decrypt_aes128_cbc_pcks7(encrypted_data, &key, &iv)
}

} // verus!

//! AES decryption in the modes the firmware formats use, and the key and
//! salt derivations built on it.

use vstd::prelude::*;
use crate::bytes::{copy_range, push_range};
use crate::error::UnixtractError;
use crate::fmt::{dec, spec_dec};
use crate::text::{chars_of, push_all, string_from_chars};
use aes::{Aes128, Aes256};
use cbc::cipher::block_padding::{NoPadding, Pkcs7};
use cbc::cipher::{BlockDecryptMut, KeyInit, KeyIvInit};

verus! {

/// The AES-128 decryption of one 16-byte block under `key`.
pub uninterp spec fn aes128_decrypt_block(key: Seq<u8>, block: Seq<u8>) -> Seq<u8>;

/// The AES-256 decryption of one 16-byte block under `key`.
pub uninterp spec fn aes256_decrypt_block(key: Seq<u8>, block: Seq<u8>) -> Seq<u8>;

/// The AES-128-CBC decryption of `data` (a whole number of blocks) under
/// `key` and `iv`, before any padding is removed.
pub uninterp spec fn aes128_cbc_decrypt(key: Seq<u8>, iv: Seq<u8>, data: Seq<u8>) -> Seq<u8>;

/// Decrypts one block with `ecb::Decryptor<Aes128>::decrypt_block_mut`. The
/// result is named by `aes128_decrypt_block`; it is a block of 16 bytes.
#[verifier::external_body]
fn aes128_block(key: &[u8; 16], block: &[u8]) -> (r: Vec<u8>)
    requires
        block@.len() == 16,
    ensures
        r@ == aes128_decrypt_block(key@, block@),
        r@.len() == 16,
{
    let mut d = ecb::Decryptor::<Aes128>::new(key.into());
    let mut b = cbc::cipher::generic_array::GenericArray::clone_from_slice(block);
    d.decrypt_block_mut(&mut b);
    b.to_vec()
}

/// Decrypts one block with `ecb::Decryptor<Aes256>::decrypt_block_mut`. The
/// result is named by `aes256_decrypt_block`; it is a block of 16 bytes.
#[verifier::external_body]
fn aes256_block(key: &[u8; 32], block: &[u8]) -> (r: Vec<u8>)
    requires
        block@.len() == 16,
    ensures
        r@ == aes256_decrypt_block(key@, block@),
        r@.len() == 16,
{
    let mut d = ecb::Decryptor::<Aes256>::new(key.into());
    let mut b = cbc::cipher::generic_array::GenericArray::clone_from_slice(block);
    d.decrypt_block_mut(&mut b);
    b.to_vec()
}

/// Decrypts with `cbc::Decryptor<Aes128>::decrypt_padded_mut::<NoPadding>`.
/// As the `cipher` source shows, it fails exactly when the length is not a
/// multiple of 16, and otherwise yields the whole CBC decryption (named by
/// `aes128_cbc_decrypt`, of the same length).
#[verifier::external_body]
fn cbc_nopad(key: &[u8; 16], iv: &[u8; 16], data: &[u8]) -> (r: Option<Vec<u8>>)
    ensures
        match r {
            Some(v) => data@.len() % 16 == 0 && v@ == aes128_cbc_decrypt(key@, iv@, data@)
                && v@.len() == data@.len(),
            None => data@.len() % 16 != 0,
        },
{
    let mut buf = data.to_vec();
    let d = cbc::Decryptor::<Aes128>::new(key.into(), iv.into());
    match d.decrypt_padded_mut::<NoPadding>(&mut buf) {
        Ok(out) => Some(out.to_vec()),
        Err(_) => None,
    }
}

/// The decrypted data `raw` ends in valid PKCS#7 padding: its last byte `n`
/// is 1 to 16 and its last `n` bytes all equal `n`.
pub open spec fn pkcs7_valid(raw: Seq<u8>) -> bool {
    raw.len() > 0 && 1 <= raw.last() <= 16 && raw.last() <= raw.len() && forall|i: int|
        raw.len() - raw.last() <= i < raw.len() ==> raw[i] == raw.last()
}

/// The CBC decryption of `data` can be unpadded: `data` is a nonempty whole
/// number of blocks and its decryption ends in valid PKCS#7 padding.
pub open spec fn cbc_pkcs7_ok(key: Seq<u8>, iv: Seq<u8>, data: Seq<u8>) -> bool {
    data.len() % 16 == 0 && data.len() > 0 && pkcs7_valid(aes128_cbc_decrypt(key, iv, data))
}

/// `raw` without its PKCS#7 padding.
pub open spec fn pkcs7_unpad(raw: Seq<u8>) -> Seq<u8> {
    raw.take(raw.len() - raw.last())
}

/// Decrypts with `cbc::Decryptor<Aes128>::decrypt_padded_mut::<Pkcs7>`. As
/// the `cipher` and `block-padding` sources show, it succeeds exactly when
/// the data is a nonempty whole number of blocks whose decryption ends in
/// valid PKCS#7 padding, and then yields that decryption without the
/// padding.
#[verifier::external_body]
fn cbc_pkcs7(key: &[u8; 16], iv: &[u8; 16], data: &[u8]) -> (r: Option<Vec<u8>>)
    ensures
        match r {
            Some(v) => cbc_pkcs7_ok(key@, iv@, data@) && v@ == pkcs7_unpad(
                aes128_cbc_decrypt(key@, iv@, data@)),
            None => !cbc_pkcs7_ok(key@, iv@, data@),
        },
{
    let mut buf = data.to_vec();
    let d = cbc::Decryptor::<Aes128>::new(key.into(), iv.into());
    match d.decrypt_padded_mut::<Pkcs7>(&mut buf) {
        Ok(out) => Some(out.to_vec()),
        Err(_) => None,
    }
}

/// The message of a failed CBC decryption.
pub open spec fn cbc_error(mode: Seq<char>) -> Seq<char> {
    mode + " decryption error: UnpadError"@
}

fn error_text(mode: &str, rest: &str) -> (r: String)
    ensures
        r@ == mode@ + rest@,
{
    let mut v = chars_of(mode);
    let w = chars_of(rest);
    push_all(&mut v, w.as_slice());
    string_from_chars(v.as_slice())
}

/// Decrypts AES-128-CBC data and removes its PKCS#7 padding.
pub fn decrypt_aes128_cbc_pcks7(encrypted_data: &[u8], key: &[u8; 16], iv: &[u8; 16]) -> (r:
    Result<Vec<u8>, UnixtractError>)
    ensures
        cbc_pkcs7_ok(key@, iv@, encrypted_data@) ==> (r matches Ok(v) && v@ == pkcs7_unpad(
            aes128_cbc_decrypt(key@, iv@, encrypted_data@))),
        !cbc_pkcs7_ok(key@, iv@, encrypted_data@) ==> (r matches Err(UnixtractError::Other(m))
            && m@ == cbc_error("AES-128-CBC-PKCS7"@)),
{
    match cbc_pkcs7(key, iv, encrypted_data) {
        Some(v) => Ok(v),
        None => Err(UnixtractError::Other(error_text("AES-128-CBC-PKCS7", " decryption error: UnpadError"))),
    }
}

/// Decrypts AES-128-CBC data whose length is a whole number of blocks.
pub fn decrypt_aes128_cbc_nopad(encrypted_data: &[u8], key: &[u8; 16], iv: &[u8; 16]) -> (r:
    Result<Vec<u8>, UnixtractError>)
    ensures
        encrypted_data@.len() % 16 == 0 ==> (r matches Ok(v) && v@ == aes128_cbc_decrypt(
            key@, iv@, encrypted_data@)),
        encrypted_data@.len() % 16 != 0 ==> (r matches Err(UnixtractError::Other(m)) && m@
            == cbc_error("AES-128-CBC-NoPad"@)),
{
    match cbc_nopad(key, iv, encrypted_data) {
        Some(v) => Ok(v),
        None => Err(UnixtractError::Other(error_text("AES-128-CBC-NoPad", " decryption error: UnpadError"))),
    }
}

/// The first `k` blocks of `data` decrypted one by one with AES-128.
pub open spec fn ecb128_blocks(key: Seq<u8>, data: Seq<u8>, k: nat) -> Seq<u8>
    decreases k,
{
    if k == 0 {
        Seq::empty()
    } else {
        ecb128_blocks(key, data, (k - 1) as nat) + aes128_decrypt_block(
            key,
            data.subrange(16 * (k - 1), 16 * (k as int)),
        )
    }
}

/// The first `k` blocks of `data` decrypted one by one with AES-256.
pub open spec fn ecb256_blocks(key: Seq<u8>, data: Seq<u8>, k: nat) -> Seq<u8>
    decreases k,
{
    if k == 0 {
        Seq::empty()
    } else {
        ecb256_blocks(key, data, (k - 1) as nat) + aes256_decrypt_block(
            key,
            data.subrange(16 * (k - 1), 16 * (k as int)),
        )
    }
}

/// AES-128-ECB decryption of every whole block of `data`; a trailing
/// partial block is left as it is.
pub open spec fn spec_ecb128(key: Seq<u8>, data: Seq<u8>) -> Seq<u8> {
    let n = data.len() / 16;
    ecb128_blocks(key, data, n) + data.skip(16 * (n as int))
}

/// AES-256-ECB decryption of every whole block of `data`; a trailing
/// partial block is left as it is.
pub open spec fn spec_ecb256(key: Seq<u8>, data: Seq<u8>) -> Seq<u8> {
    let n = data.len() / 16;
    ecb256_blocks(key, data, n) + data.skip(16 * (n as int))
}

/// Decrypts with AES-128-ECB, block by block, leaving a trailing partial
/// block as it is.
pub fn decrypt_aes128_ecb(key: &[u8; 16], ciphertext: &[u8]) -> (r: Result<Vec<u8>, UnixtractError>)
    ensures
        r matches Ok(v) && v@ == spec_ecb128(key@, ciphertext@),
        r matches Ok(v) ==> v@.len() == ciphertext@.len(),
{
    let len = ciphertext.len();
    let n = len / 16;
    let mut out: Vec<u8> = Vec::new();
    let mut k: usize = 0;
    while k < n
        invariant
            len == ciphertext@.len(),
            n == len / 16,
            k <= n,
            out@ == ecb128_blocks(key@, ciphertext@, k as nat),
            out@.len() == 16 * k,
        decreases n - k,
    {
        assert(16 * k + 16 <= len) by (nonlinear_arith)
            requires
                k < n,
                n == len / 16,
        ;
        let block = copy_range(ciphertext, 16 * k, 16 * k + 16);
        let d = aes128_block(key, block.as_slice());
        push_range(&mut out, d.as_slice(), 0, 16);
        assert(d@.subrange(0, 16) =~= d@);
        k += 1;
    }
    assert(16 * n <= len) by (nonlinear_arith)
        requires
            n == len / 16,
    ;
    push_range(&mut out, ciphertext, 16 * n, len);
    assert(ciphertext@.subrange(16 * n, len as int) =~= ciphertext@.skip(16 * n));
    Ok(out)
}

/// Decrypts with AES-256-ECB, block by block, leaving a trailing partial
/// block as it is.
pub fn decrypt_aes256_ecb(key: &[u8; 32], ciphertext: &[u8]) -> (r: Result<Vec<u8>, UnixtractError>)
    ensures
        r matches Ok(v) && v@ == spec_ecb256(key@, ciphertext@),
        r matches Ok(v) ==> v@.len() == ciphertext@.len(),
{
    let len = ciphertext.len();
    let n = len / 16;
    let mut out: Vec<u8> = Vec::new();
    let mut k: usize = 0;
    while k < n
        invariant
            len == ciphertext@.len(),
            n == len / 16,
            k <= n,
            out@ == ecb256_blocks(key@, ciphertext@, k as nat),
            out@.len() == 16 * k,
        decreases n - k,
    {
        assert(16 * k + 16 <= len) by (nonlinear_arith)
            requires
                k < n,
                n == len / 16,
        ;
        let block = copy_range(ciphertext, 16 * k, 16 * k + 16);
        let d = aes256_block(key, block.as_slice());
        push_range(&mut out, d.as_slice(), 0, 16);
        assert(d@.subrange(0, 16) =~= d@);
        k += 1;
    }
    assert(16 * n <= len) by (nonlinear_arith)
        requires
            n == len / 16,
    ;
    push_range(&mut out, ciphertext, 16 * n, len);
    assert(ciphertext@.subrange(16 * n, len as int) =~= ciphertext@.skip(16 * n));
    Ok(out)
}

fn array16(b: &[u8]) -> (r: [u8; 16])
    requires
        b@.len() == 16,
    ensures
        r@ == b@,
{
    let mut a = [0u8; 16];
    let mut i: usize = 0;
    while i < 16
        invariant
            b@.len() == 16,
            i <= 16,
            a@.len() == 16,
            forall|j: int| 0 <= j < i ==> a@[j] == b@[j],
        decreases 16 - i,
    {
        a[i] = b[i];
        i += 1;
    }
    assert(a@ =~= b@);
    a
}

fn array32(b: &[u8]) -> (r: [u8; 32])
    requires
        b@.len() == 32,
    ensures
        r@ == b@,
{
    let mut a = [0u8; 32];
    let mut i: usize = 0;
    while i < 32
        invariant
            b@.len() == 32,
            i <= 32,
            a@.len() == 32,
            forall|j: int| 0 <= j < i ==> a@[j] == b@[j],
        decreases 32 - i,
    {
        a[i] = b[i];
        i += 1;
    }
    assert(a@ =~= b@);
    a
}

/// What AES-ECB decryption with a key of either size gives: AES-128 for a
/// 16-byte key, AES-256 for a 32-byte key, `None` for any other length.
pub open spec fn spec_ecb_auto(key: Seq<u8>, data: Seq<u8>) -> Option<Seq<u8>> {
    if key.len() == 16 {
        Some(spec_ecb128(key, data))
    } else if key.len() == 32 {
        Some(spec_ecb256(key, data))
    } else {
        None
    }
}

/// The message for an unusable key length.
pub open spec fn key_length_error(len: nat) -> Seq<char> {
    "Invalid AES key length: "@ + spec_dec(len) + " (expected 16 or 32)"@
}

/// Decrypts with AES-ECB, choosing AES-128 or AES-256 by the key length.
pub fn decrypt_aes_ecb_auto(key: &[u8], ciphertext: &[u8]) -> (r: Result<Vec<u8>, UnixtractError>)
    ensures
        match spec_ecb_auto(key@, ciphertext@) {
            Some(p) => r matches Ok(v) && v@ == p,
            None => r matches Err(UnixtractError::Other(m)) && m@ == key_length_error(
                key@.len(),
            ),
        },
        r matches Ok(v) ==> v@.len() == ciphertext@.len(),
{
    if key.len() == 16 {
        let k = array16(key);
        decrypt_aes128_ecb(&k, ciphertext)
    } else if key.len() == 32 {
        let k = array32(key);
        decrypt_aes256_ecb(&k, ciphertext)
    } else {
        let mut m = chars_of("Invalid AES key length: ");
        let d = dec(key.len() as u64);
        push_all(&mut m, d.as_slice());
        let t = chars_of(" (expected 16 or 32)");
        push_all(&mut m, t.as_slice());
        Err(UnixtractError::Other(string_from_chars(m.as_slice())))
    }
}

} // verus!

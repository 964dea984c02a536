use cbc::cipher::block_padding::Pkcs7;
use cbc::cipher::{BlockEncryptMut, KeyIvInit};
use unixtract::aes::{
    decrypt_aes128_cbc_nopad, decrypt_aes128_cbc_pcks7, decrypt_aes128_ecb, decrypt_aes256_ecb,
    decrypt_aes_ecb_auto,
};
use unixtract::error::UnixtractError;
use unixtract::hexcodec::HexError;
use unixtract::novatek::{novatek_key, NovatekKeyError};
use unixtract::msd::{decrypt_aes_salted_old, decrypt_aes_salted_tizen, decrypt_aes_tizen};

fn h(s: &str) -> Vec<u8> {
    hex::decode(s).unwrap()
}

fn other(r: Result<Vec<u8>, UnixtractError>) -> String {
    match r {
        Err(UnixtractError::Other(m)) => m,
        _ => panic!("expected an error message"),
    }
}

fn cbc_encrypt(key: &[u8; 16], iv: &[u8; 16], msg: &[u8]) -> Vec<u8> {
    let mut buf = vec![0u8; msg.len() + 16];
    buf[..msg.len()].copy_from_slice(msg);
    let enc = cbc::Encryptor::<aes::Aes128>::new(key.into(), iv.into());
    enc.encrypt_padded_mut::<Pkcs7>(&mut buf, msg.len()).unwrap().to_vec()
}

#[test]
fn aes128_ecb_known_vector_and_trailing_bytes() {
    let key: [u8; 16] = h("000102030405060708090a0b0c0d0e0f").try_into().unwrap();
    let mut ct = h("69c4e0d86a7b0430d8cdb78070b4c55a");
    ct.extend_from_slice(&[1, 2, 3]);
    let pt = decrypt_aes128_ecb(&key, &ct).unwrap();
    let mut expected = h("00112233445566778899aabbccddeeff");
    expected.extend_from_slice(&[1, 2, 3]);
    assert_eq!(pt, expected);
}

#[test]
fn aes256_ecb_known_vector() {
    let key: [u8; 32] =
        h("000102030405060708090a0b0c0d0e0f101112131415161718191a1b1c1d1e1f").try_into().unwrap();
    let ct = h("8ea2b7ca516745bfeafc49904b496089");
    assert_eq!(decrypt_aes256_ecb(&key, &ct).unwrap(), h("00112233445566778899aabbccddeeff"));
}

#[test]
fn ecb_auto_picks_by_key_length() {
    let k16 = h("000102030405060708090a0b0c0d0e0f");
    let k32 = h("000102030405060708090a0b0c0d0e0f101112131415161718191a1b1c1d1e1f");
    assert_eq!(
        decrypt_aes_ecb_auto(&k16, &h("69c4e0d86a7b0430d8cdb78070b4c55a")).unwrap(),
        h("00112233445566778899aabbccddeeff")
    );
    assert_eq!(
        decrypt_aes_ecb_auto(&k32, &h("8ea2b7ca516745bfeafc49904b496089")).unwrap(),
        h("00112233445566778899aabbccddeeff")
    );
    assert_eq!(
        other(decrypt_aes_ecb_auto(&[1, 2, 3, 4, 5], &[0u8; 16])),
        "Invalid AES key length: 5 (expected 16 or 32)"
    );
}

#[test]
fn cbc_nopad_known_vector_and_errors() {
    let key: [u8; 16] = h("2b7e151628aed2a6abf7158809cf4f3c").try_into().unwrap();
    let iv: [u8; 16] = h("000102030405060708090a0b0c0d0e0f").try_into().unwrap();
    let ct = h("7649abac8119b246cee98e9b12e9197d");
    assert_eq!(
        decrypt_aes128_cbc_nopad(&ct, &key, &iv).unwrap(),
        h("6bc1bee22e409f96e93d7e117393172a")
    );
    assert_eq!(
        other(decrypt_aes128_cbc_nopad(&ct[..15], &key, &iv)),
        "AES-128-CBC-NoPad decryption error: UnpadError"
    );
    // The plaintext ends in 0x2a, which is no valid PKCS#7 padding.
    assert_eq!(
        other(decrypt_aes128_cbc_pcks7(&ct, &key, &iv)),
        "AES-128-CBC-PKCS7 decryption error: UnpadError"
    );
}

#[test]
fn cbc_pkcs7_round_trip() {
    let key = [7u8; 16];
    let iv = [9u8; 16];
    let msg = b"firmware payload of some length";
    let ct = cbc_encrypt(&key, &iv, msg);
    assert_eq!(decrypt_aes128_cbc_pcks7(&ct, &key, &iv).unwrap(), msg.to_vec());
    assert!(decrypt_aes128_cbc_pcks7(&[], &key, &iv).is_err());
}

#[test]
fn salted_old_openssl_derivation() {
    let pass = b"secret passphrase".to_vec();
    let salt = [1u8, 2, 3, 4, 5, 6, 7, 8];
    let mut ki = pass.clone();
    ki.extend_from_slice(&salt);
    let key = md5::compute(&ki).0;
    let mut ii = key.to_vec();
    ii.extend_from_slice(&pass);
    ii.extend_from_slice(&salt);
    let iv = md5::compute(&ii).0;
    let mut data = b"Salted__".to_vec();
    data.extend_from_slice(&salt);
    data.extend_from_slice(&cbc_encrypt(&key, &iv, b"MSD header"));
    assert_eq!(decrypt_aes_salted_old(&data, &pass).unwrap(), b"MSD header".to_vec());
    assert_eq!(other(decrypt_aes_salted_old(b"NotSalted_______", &pass)), "Invalid encrypted data!");
    assert_eq!(other(decrypt_aes_salted_old(b"Salted__", &pass)), "Invalid encrypted data!");
}

#[test]
fn salted_tizen_and_plain_tizen() {
    let pass = b"0123456789abcdef".to_vec();
    let key: [u8; 16] = pass.clone().try_into().unwrap();
    let salt = [8u8, 7, 6, 5, 4, 3, 2, 1];
    let iv = md5::compute(salt).0;
    let body = cbc_encrypt(&key, &iv, b"tizen data");
    let mut data = b"Salted__".to_vec();
    data.extend_from_slice(&salt);
    data.extend_from_slice(&body);
    assert_eq!(decrypt_aes_salted_tizen(&data, &pass).unwrap(), b"tizen data".to_vec());
    assert_eq!(
        other(decrypt_aes_salted_tizen(&data, &b"short".to_vec())),
        "Passphrase must be 16 bytes for AES-128"
    );
    assert_eq!(decrypt_aes_tizen(&body, &pass, &salt).unwrap(), b"tizen data".to_vec());
    assert_eq!(
        other(decrypt_aes_tizen(&body, &b"short".to_vec(), &salt)),
        "Passphrase must be 16 bytes for AES-128"
    );
}

#[test]
fn hex_decoding_and_its_errors() {
    let key = |h: &str| novatek_key(&[format!("nvt_raw:key={}", h)], None);
    let err = |h: &str| match key(h) {
        Err(NovatekKeyError::InvalidHexKey(e)) => Some(e),
        _ => None,
    };
    assert_eq!(key("00ff10Ab").unwrap(), vec![0x00, 0xff, 0x10, 0xab]);
    assert_eq!(key("").unwrap(), Vec::<u8>::new());
    assert_eq!(err("abc"), Some(HexError::OddLength));
    assert_eq!(err("0g"), Some(HexError::InvalidHexCharacter { c: 'g', index: 1 }));
    assert_eq!(err("zz1"), Some(HexError::OddLength));
}

use aes::cipher::{BlockEncrypt, KeyInit};
use unixtract::epk::{check_epk_version, extract_epk, find_key, is_epk_file, match_with_pattern};
use unixtract::hexcodec::HexError;
use unixtract::novatek::{
    extract_novatek_raw, is_novatek_raw_file, novatek_key, xor_decrypt, NovatekKeyError,
};
use unixtract::pfl_key::{try_find_key, try_find_key_checked, PflKeyError, RsaKeyError};
use unixtract::pfl_upg::{FileHeader, Header};
use unixtract::vestel::{
    extract_vestel, is_vestel_file, VestelCtx, VestelError, VestelVariant,
};

fn aes128_ecb(key: &[u8; 16], data: &[u8]) -> Vec<u8> {
    let c = aes::Aes128::new(key.into());
    let mut out = data.to_vec();
    for chunk in out.chunks_mut(16) {
        if chunk.len() == 16 {
            c.encrypt_block(chunk.into());
        }
    }
    out
}

fn aes256_ecb(key: &[u8; 32], data: &[u8]) -> Vec<u8> {
    let c = aes::Aes256::new(key.into());
    let mut out = data.to_vec();
    for chunk in out.chunks_mut(16) {
        if chunk.len() == 16 {
            c.encrypt_block(chunk.into());
        }
    }
    out
}

#[test]
fn novatek_detection_and_keys() {
    let none: Vec<String> = Vec::new();
    let forced = vec!["nvt_raw:key".to_string()];
    assert!(is_novatek_raw_file(b"bsl", 100, &none));
    assert!(!is_novatek_raw_file(b"bsx", 100, &none));
    assert!(is_novatek_raw_file(b"bsx", 100, &forced));
    assert!(!is_novatek_raw_file(b"bs", 2, &forced));
    let opt = vec!["nvt_raw:key=00112233445566778899aabbccddeeff".to_string()];
    assert_eq!(novatek_key(&opt, None).unwrap(), hex::decode("00112233445566778899aabbccddeeff").unwrap());
    assert_eq!(novatek_key(&none, Some("0102")).unwrap(), vec![1, 2]);
    assert!(matches!(novatek_key(&none, None), Err(NovatekKeyError::KeyRequired)));
    let bad = vec!["nvt_raw:key=zz".to_string()];
    assert!(matches!(
        novatek_key(&bad, None),
        Err(NovatekKeyError::InvalidHexKey(HexError::InvalidHexCharacter { c: 'z', index: 0 }))
    ));
}

#[test]
fn novatek_decryption_and_layout() {
    assert_eq!(xor_decrypt(&[1, 2], &[1, 1, 1]), vec![0, 3, 0]);
    assert_eq!(xor_decrypt(&[], &[]), Vec::<u8>::new());
    let data: Vec<u8> = (0..0x40000u32).map(|i| (i % 251) as u8).collect();
    let key = [0xAAu8, 0x55, 0xFF];
    let out = extract_novatek_raw(&key, &data).unwrap();
    assert_eq!(out.decrypted, xor_decrypt(&key, &data));
    assert_eq!(xor_decrypt(&key, &out.decrypted), data);
    let parts: Vec<(&str, u32, u32)> = out.partitions.iter().map(|p| (p.name.as_str(), p.offset, p.size)).collect();
    assert_eq!(parts, vec![("spi_boot", 0x20, 0x20000)]);
    let k16 = [3u8; 16];
    let enc = aes128_ecb(&k16, &[9u8; 32]);
    let out = extract_novatek_raw(&k16, &enc).unwrap();
    assert!(matches!(
        extract_novatek_raw(&[], &enc),
        Err(unixtract::error::UnixtractError::Crypto(m)) if m == "Novatek key is empty"
    ));
    assert_eq!(out.decrypted, vec![9u8; 32]);
    assert!(out.partitions.is_empty());
}

#[test]
fn vestel_detection() {
    assert_eq!(is_vestel_file(b"\xaa\xaa\x55\x55\x55\x55\xaa\xaaspi", None), Ok(None));
    let mut plain = vec![0u8; 64];
    plain[10..15].copy_from_slice(b"OPTEE");
    assert_eq!(is_vestel_file(&plain, None), Ok(Some(VestelCtx { is_encrypted: false, variant: VestelVariant::Standard })));
    let mut mb = vec![0u8; 64];
    mb[0..8].copy_from_slice(&[0xaa, 0xaa, 0x55, 0x55, 0x55, 0x55, 0xaa, 0xaa]);
    mb[0x10..0x14].copy_from_slice(b"spi\0");
    assert_eq!(is_vestel_file(&mb, None), Ok(Some(VestelCtx { is_encrypted: false, variant: VestelVariant::Mb230 })));
    let key = [0x11u8; 16];
    let mut clear = vec![0u8; 48];
    clear[0..5].copy_from_slice(b"OPTEE");
    let enc = aes128_ecb(&key, &clear);
    let key_hex = hex::encode(key);
    assert_eq!(
        is_vestel_file(&enc, Some(&key_hex)),
        Ok(Some(VestelCtx { is_encrypted: true, variant: VestelVariant::Standard }))
    );
    assert_eq!(is_vestel_file(&enc, None), Ok(None));
    assert_eq!(is_vestel_file(&enc, Some("abc")), Err(HexError::OddLength));
    assert_eq!(is_vestel_file(&enc, Some("0011")), Ok(None));
    assert_eq!(is_vestel_file(&enc[..20], Some(&key_hex)), Ok(None));
}

#[test]
fn vestel_extraction() {
    let mb = VestelCtx { is_encrypted: false, variant: VestelVariant::Mb230 };
    let out = extract_vestel(&mb, &vec![0u8; 0x300000], None).unwrap();
    assert!(out.decrypted.is_none());
    let segs: Vec<(&str, usize, usize)> = out.segments.iter().map(|s| (s.name.as_str(), s.start, s.end)).collect();
    assert_eq!(segs, vec![("xboot", 0, 0xC0000), ("xboot_code", 0xC0000, 0x2C0000)]);
    let std_plain = VestelCtx { is_encrypted: false, variant: VestelVariant::Standard };
    assert!(matches!(extract_vestel(&std_plain, &[0u8; 32], None), Err(VestelError::KeyNotFound)));
    assert!(matches!(extract_vestel(&std_plain, &[0u8; 32], Some("0011")), Err(VestelError::InvalidKeyLength)));
    assert!(matches!(extract_vestel(&std_plain, &[0u8; 32], Some("x")), Err(VestelError::InvalidHexKey(HexError::OddLength))));
    let key = [0x22u8; 16];
    let enc = aes128_ecb(&key, &vec![5u8; 48]);
    let std_enc = VestelCtx { is_encrypted: true, variant: VestelVariant::Standard };
    let out = extract_vestel(&std_enc, &enc, Some(&hex::encode(key))).unwrap();
    assert_eq!(out.decrypted.unwrap(), vec![5u8; 48]);
    let segs: Vec<(&str, usize, usize)> = out.segments.iter().map(|s| (s.name.as_str(), s.start, s.end)).collect();
    assert_eq!(segs, vec![("kernel", 0, 48)]);
    let out = extract_vestel(&std_plain, &vec![0u8; 0x700010], Some(&hex::encode(key))).unwrap();
    assert!(out.decrypted.is_none());
    let segs: Vec<(&str, usize, usize)> = out.segments.iter().map(|s| (s.name.as_str(), s.start, s.end)).collect();
    assert_eq!(segs, vec![("kernel", 0, 0x700000), ("rootfs", 0x700000, 0x700010)]);
}

fn epk2_versions() -> Vec<u8> {
    let mut v = vec![0u8; 36];
    v[4..18].copy_from_slice(b"0001.0002.0003");
    v[20..29].copy_from_slice(b"01.02.003");
    v
}

#[test]
fn epk_versions() {
    assert_eq!(check_epk_version(&epk2_versions()), Some(2));
    let mut v3 = vec![0u8; 36];
    v3[4..9].copy_from_slice(b"1.2.3");
    v3[20..25].copy_from_slice(b"4.5.6");
    assert_eq!(check_epk_version(&v3), Some(3));
    assert_eq!(check_epk_version(&[1u8; 36]), None);
    assert!(match_with_pattern(b"\0\01", "__X"));
    assert!(!match_with_pattern(b"\0a1", "__X"));
    let ctx = is_epk_file(epk2_versions()).unwrap();
    assert_eq!(ctx.epk_version, 2);
    assert_eq!(extract_epk(&ctx).unwrap(), ("0001.0002.0003".to_string(), "01.02.003".to_string()));
    assert!(is_epk_file(vec![7u8; 36]).is_none());
    let short = is_epk_file(vec![0u8; 4]).unwrap();
    assert!(matches!(
        extract_epk(&short),
        Err(unixtract::error::UnixtractError::InvalidFormat(m)) if m == "EPK version block is cut short"
    ));
}

#[test]
fn epk_key_search() {
    let key = [0x42u8; 16];
    let mut block = b"EPK2".to_vec();
    block.extend_from_slice(&[0u8; 12]);
    let data = aes128_ecb(&key, &block);
    let wrong = hex::encode([0x41u8; 16]);
    let right = hex::encode(key);
    let keys = [(wrong.as_str(), "wrong"), ("0102", "short"), (right.as_str(), "right")];
    let found = find_key(&keys, &data, b"EPK2").ok().unwrap().unwrap();
    assert_eq!(found.0, "right");
    assert_eq!(found.1, key.to_vec());
    assert!(find_key(&keys[..2], &data, b"EPK2").ok().unwrap().is_none());
    assert_eq!(find_key(&[("zz", "bad")], &data, b"EPK2").err(), Some(HexError::InvalidHexCharacter { c: 'z', index: 0 }));
}

fn pfl_header() -> Vec<u8> {
    let mut h = vec![0u8; 544];
    h[0..8].copy_from_slice(b"2SWU3TXV");
    h[8..12].copy_from_slice(&1024u32.to_le_bytes());
    h[12..16].copy_from_slice(&4096u32.to_le_bytes());
    h[20..24].copy_from_slice(&0x2000_0000u32.to_le_bytes());
    h[32..45].copy_from_slice(b"line1\rline2\0x");
    h
}

#[test]
fn upg_headers() {
    let h = Header::from_bytes(&pfl_header()).unwrap();
    assert_eq!((h.header_size, h.data_size), (1024, 4096));
    assert!(h.is_encrypted());
    assert_eq!(h.description(), "line1\nline2");
    assert!(Header::from_bytes(&[0u8; 100]).is_none());
    let mut f = vec![0u8; 76];
    f[0..8].copy_from_slice(b"file.bin");
    f[60..64].copy_from_slice(&10u32.to_le_bytes());
    f[72..76].copy_from_slice(&[0, 0, 0x80, 0x06]);
    let fh = FileHeader::from_bytes(&f).unwrap();
    assert_eq!(fh.file_name(), "file.bin");
    assert_eq!(fh.real_size, 10);
    assert!(fh.is_folder());
    assert!(fh.is_package());
    assert!(fh.has_extended_name());
    f[72..76].copy_from_slice(&[0, 0, 0, 0]);
    let fh = FileHeader::from_bytes(&f).unwrap();
    assert!(!fh.is_folder() && !fh.is_package() && !fh.has_extended_name());
}

const N: &str = "9353930466774385905609975137998169297361893554149986716853295022578535724979677252958524466350471210367835187480748268864277464700638583474144061408845077";
const D: &str = "7266398431328116344057699379749222532279343923819063639497049039389899328538543087657733766554155839834519529439851673014800261285757759040931985506583861";

#[test]
fn upg_key_search() {
    let n = rsa::BigUint::parse_bytes(N.as_bytes(), 10).unwrap();
    let d = rsa::BigUint::parse_bytes(D.as_bytes(), 10).unwrap();
    let aes_key = [0x5Au8; 32];
    let mut recovered = vec![0x11u8; 20];
    recovered.extend_from_slice(&aes_key);
    recovered.extend_from_slice(&[0x33u8; 8]);
    let target = rsa::BigUint::from_bytes_le(&recovered);
    let sig = target.modpow(&d, &n).to_bytes_le();
    let mut header = b"file.bin\0".to_vec();
    header.resize(32, 0);
    let ciphertext = aes256_ecb(&aes_key, &header);
    let n_hex = hex::encode(n.to_bytes_be());
    let keys = [("bad-key", "0bad"), ("philips", n_hex.as_str())];
    let found = try_find_key(&sig, &ciphertext, &keys[1..]).unwrap().unwrap();
    assert_eq!(found, ("philips".to_string(), aes_key));
    assert_eq!(try_find_key(&sig, &ciphertext, &keys), Err(PflKeyError::Rsa(RsaKeyError::InvalidModulus)));
    assert_eq!(try_find_key(&sig, &ciphertext, &[("odd", "abc")]), Err(PflKeyError::Hex(HexError::OddLength)));
    let wrong_name = aes256_ecb(&aes_key, &[0x80u8; 32]);
    assert_eq!(try_find_key(&sig, &wrong_name, &keys[1..]), Ok(None));
    assert!(try_find_key_checked(&[1], &ciphertext, &keys[1..]).is_none());
    let huge = "ff".repeat(600);
    assert_eq!(
        try_find_key_checked(&sig, &ciphertext, &[("big", huge.as_str())]),
        Some(Err(PflKeyError::Rsa(RsaKeyError::ModulusTooLarge)))
    );
}

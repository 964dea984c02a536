use unixtract::ubi::{detect_oob, extract_ubi, guess_single_peb, is_ubi_file, sanitize_name, strip_oob, UbiCtx};

const PEB: usize = 32768;

fn peb(vol: u32, lnum: u32, sq: u64, data: &[u8]) -> Vec<u8> {
    let mut b = vec![0xFFu8; PEB];
    b[0..4].copy_from_slice(b"UBI#");
    b[0x10..0x14].copy_from_slice(&2048u32.to_be_bytes());
    b[0x14..0x18].copy_from_slice(&4096u32.to_be_bytes());
    let v = 2048;
    b[v..v + 4].copy_from_slice(b"UBI!");
    b[v + 8..v + 12].copy_from_slice(&vol.to_be_bytes());
    b[v + 12..v + 16].copy_from_slice(&lnum.to_be_bytes());
    b[v + 0x28..v + 0x30].copy_from_slice(&sq.to_be_bytes());
    b[4096..4096 + data.len()].copy_from_slice(data);
    b
}

fn image() -> Vec<u8> {
    let leb = PEB - 4096;
    let mut vtbl = vec![0u8; leb];
    vtbl[0..4].copy_from_slice(&2u32.to_be_bytes());
    vtbl[0x0E..0x10].copy_from_slice(&6u16.to_be_bytes());
    vtbl[0x10..0x16].copy_from_slice(b"rootfs");
    let mut img = Vec::new();
    img.extend(peb(0, 0, 1, &vec![0xA0; leb]));
    img.extend(peb(0, 1, 2, &vec![0xA1; leb]));
    img.extend(peb(0, 0, 5, &vec![0xB0; leb]));
    img.extend(peb(0x7FFF_EFFF, 0, 3, &vtbl));
    img.extend(peb(0, 1, 1, &vec![0xC1; leb]));
    img
}

#[test]
fn geometry_from_the_second_header() {
    let img = image();
    let ctx = is_ubi_file(&img, img.len()).unwrap();
    assert_eq!(ctx, UbiCtx { phys_peb_size: PEB, oob_size: 0, clean_peb_size: PEB, peb_count: 5 });
    assert!(is_ubi_file(b"UBX#", 4).is_none());
}

#[test]
fn oob_and_peb_guesses() {
    assert_eq!(detect_oob(32768), 0);
    assert_eq!(detect_oob(64 * (2048 + 64)), 64);
    assert_eq!(detect_oob(12345), 0);
    assert_eq!(guess_single_peb(262144 * 3), 131072);
    assert_eq!(guess_single_peb(126976 * 3), 126976);
    assert_eq!(guess_single_peb(131072 * 2), 131072);
    assert_eq!(guess_single_peb(65536 * 3), 65536);
    assert_eq!(guess_single_peb(1000), 131072);
}

#[test]
fn oob_is_stripped_page_by_page() {
    let mut raw = Vec::new();
    raw.extend(vec![1u8; 2048]);
    raw.extend(vec![0xEEu8; 64]);
    raw.extend(vec![2u8; 2048]);
    raw.extend(vec![0xEEu8; 64]);
    let clean = strip_oob(&raw, 64, 4096);
    let mut expected = vec![1u8; 2048];
    expected.extend(vec![2u8; 2048]);
    assert_eq!(clean, expected);
    assert_eq!(strip_oob(&[1, 2, 3, 4], 0, 2), vec![1, 2]);
}

#[test]
fn volumes_keep_the_newest_copy_of_each_leb() {
    let img = image();
    let ctx = is_ubi_file(&img, img.len()).unwrap();
    let vols = extract_ubi(&img, &ctx);
    assert_eq!(vols.len(), 1);
    assert_eq!(vols[0].vol_id, 0);
    assert_eq!(vols[0].name, "rootfs");
    assert_eq!(vols[0].leb_count, 2);
    let leb = PEB - 4096;
    let mut expected = vec![0xB0u8; leb];
    expected.extend(vec![0xA1u8; leb]);
    assert_eq!(vols[0].image, expected);
}

fn vol_name(s: &str) -> String {
    sanitize_name(&s.chars().collect::<Vec<char>>()).into_iter().collect()
}

#[test]
fn volume_names_are_safe_directory_names() {
    assert_eq!(vol_name(".."), "_");
    assert_eq!(vol_name(" . "), "_");
    assert_eq!(vol_name("   "), "_");
    assert_eq!(vol_name(" root/fs:a\\b "), "root_fs_a_b");
    assert_eq!(vol_name("...") , "...");
    assert_eq!(vol_name("data\u{1}"), "data_");
}

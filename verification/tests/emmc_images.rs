use unixtract::emmc::{
    check_protective_mbr, decode_name, parse_gpt_entries, parse_gpt_header, sanitize_name, GptPartition,
};
use unixtract::emmc_gpt::{extract_emmc_gpt, gpt_entries_range, is_emmc_gpt_file};
use unixtract::emmc_userarea::{extract_emmc_userarea, is_emmc_userarea_file};

fn utf16(name: &str) -> Vec<u8> {
    let mut v = Vec::new();
    for u in name.encode_utf16() {
        v.extend_from_slice(&u.to_le_bytes());
    }
    v
}

fn gpt_disk() -> Vec<u8> {
    let mut d = vec![0u8; 512 * 64];
    d[510] = 0x55;
    d[511] = 0xAA;
    d[0x1BE + 4] = 0xEE;
    d[512..520].copy_from_slice(b"EFI PART");
    d[512 + 40..512 + 48].copy_from_slice(&34u64.to_le_bytes());
    d[512 + 48..512 + 56].copy_from_slice(&60u64.to_le_bytes());
    d[512 + 72..512 + 80].copy_from_slice(&2u64.to_le_bytes());
    d[512 + 80..512 + 84].copy_from_slice(&4u32.to_le_bytes());
    d[512 + 84..512 + 88].copy_from_slice(&128u32.to_le_bytes());
    let e0 = 1024;
    d[e0] = 1;
    d[e0 + 32..e0 + 40].copy_from_slice(&10u64.to_le_bytes());
    d[e0 + 40..e0 + 48].copy_from_slice(&19u64.to_le_bytes());
    let n = utf16(" boot-a.1 ");
    d[e0 + 56..e0 + 56 + n.len()].copy_from_slice(&n);
    let e1 = 1024 + 128;
    d[e1] = 1;
    d[e1 + 32..e1 + 40].copy_from_slice(&20u64.to_le_bytes());
    d[e1 + 40..e1 + 48].copy_from_slice(&100u64.to_le_bytes());
    let n = utf16("huge");
    d[e1 + 56..e1 + 56 + n.len()].copy_from_slice(&n);
    d
}

#[test]
fn gpt_detection_and_extraction() {
    let d = gpt_disk();
    assert!(check_protective_mbr(&d[..512]));
    assert_eq!(parse_gpt_header(&d[512..604]), Some((2, 34, 60, 4, 128)));
    let (off, len) = gpt_entries_range(&d[512..604]).unwrap();
    assert_eq!((off, len), (1024, 512));
    let entries = &d[off as usize..off as usize + len];
    let parts = is_emmc_gpt_file(d.len() as u64, &d[..512], &d[512..604], entries).unwrap();
    assert_eq!(parts.len(), 1);
    assert_eq!(parts[0].name, "boot-a.1");
    assert_eq!((parts[0].start_lba, parts[0].end_lba), (10, 19));
    let (copies, map) = extract_emmc_gpt(&parts).unwrap();
    let c: Vec<(&str, u64, u64)> = copies.iter().map(|c| (c.file_name.as_str(), c.offset, c.size)).collect();
    assert_eq!(c, vec![("boot-a_1.bin", 5120, 5120)]);
    assert_eq!(map, "name\tstart_lba\tend_lba\toffset\tsize\nboot-a.1\t10\t19\t0x1400\t5120\n");
}

#[test]
fn gpt_rejections() {
    let d = gpt_disk();
    assert!(is_emmc_gpt_file(1000, &d[..512], &d[512..604], &d[1024..1536]).is_none());
    let mut no_sig = d.clone();
    no_sig[511] = 0;
    assert!(!check_protective_mbr(&no_sig[..512]));
    assert!(is_emmc_gpt_file(d.len() as u64, &no_sig[..512], &d[512..604], &d[1024..1536]).is_none());
    assert_eq!(gpt_entries_range(b"EFI PAR"), None);
    // Only the too-large partition is listed: nothing is detected.
    let mut only_huge = d.clone();
    for b in &mut only_huge[1024..1152] {
        *b = 0;
    }
    only_huge[1024] = 1;
    assert!(is_emmc_gpt_file(d.len() as u64, &d[..512], &d[512..604], &only_huge[1152..1152 + 128]).is_none());
}

#[test]
fn gpt_names() {
    assert_eq!(sanitize_name(&utf16("  ")), "");
    assert_eq!(sanitize_name(&utf16("sys tem!")), "system");
    let mut raw = utf16("ab");
    raw.extend_from_slice(&[0, 0]);
    raw.extend(utf16("cd"));
    assert_eq!(sanitize_name(&raw), "ab");
    assert_eq!(sanitize_name(&[0x00, 0xD8, 0x41, 0x00]), "A");
}

#[test]
fn manual_partition_sizes() {
    let p = GptPartition { name: "x".to_string(), start_lba: 2, end_lba: 3 };
    assert_eq!((p.offset(), p.size()), (1024, 1024));
}

fn userarea_table() -> Vec<u8> {
    let mut t = vec![0u8; 0x10000];
    let put = |t: &mut Vec<u8>, off: usize, start: u32, len: u32, name: &[u8]| {
        t[off..off + 2].copy_from_slice(&[0x40, 0x58]);
        t[off + 8..off + 12].copy_from_slice(&start.to_le_bytes());
        t[off + 12..off + 16].copy_from_slice(&len.to_le_bytes());
        t[off + 16..off + 16 + name.len()].copy_from_slice(name);
    };
    put(&mut t, 0x200, 0x100, 0x80, b"cache\0");
    put(&mut t, 0x400, 0x1000, 0x1000, b"big");
    put(&mut t, 0x600, 0x10, 0x10, b"a/b*c");
    t
}

#[test]
fn userarea_detection_and_extraction() {
    let t = userarea_table();
    let parts = is_emmc_userarea_file(0x100000, &t).unwrap();
    let p: Vec<(&str, u32, u32, usize)> =
        parts.iter().map(|p| (p.name.as_str(), p.start_sector, p.length_sector, p.table_offset)).collect();
    assert_eq!(p, vec![("cache", 0x100, 0x80, 0x200), ("abc", 0x10, 0x10, 0x600)]);
    let (copies, map) = extract_emmc_userarea(&parts);
    let c: Vec<(&str, u64, u64)> = copies.iter().map(|c| (c.file_name.as_str(), c.offset, c.size)).collect();
    assert_eq!(c, vec![("cache.bin", 0x20000, 0x10000), ("abc.bin", 0x2000, 0x2000)]);
    assert_eq!(
        map,
        "name\ttable_offset\tstart_sector\tlength_sector\toffset\tsize\n\
cache\t0x200\t0x100\t0x80\t0x20000\t65536\n\
abc\t0x600\t0x10\t0x10\t0x2000\t8192\n"
    );
    assert!(is_emmc_userarea_file(0xFFFF, &t).is_none());
    assert!(is_emmc_userarea_file(0x100001, &t).is_none());
    assert!(is_emmc_userarea_file(0x100000, &vec![0u8; 0x10000]).is_none());
    assert_eq!(decode_name(b"ok-name.1\0zz"), "ok-name.1");
}

#[test]
fn gpt_entry_cut_short_ends_the_list() {
    assert!(parse_gpt_entries(&[1u8; 64], 1, 64, 1 << 20).is_empty());
    let mut data = vec![0u8; 128 + 64];
    data[0] = 1;
    data[32..40].copy_from_slice(&2u64.to_le_bytes());
    data[40..48].copy_from_slice(&3u64.to_le_bytes());
    data[56] = b'a';
    data[128] = 1;
    let parts = parse_gpt_entries(&data, 2, 128, 1 << 20);
    assert_eq!(parts.len(), 1);
    assert_eq!(parts[0].name, "a");
    let mut huge = vec![0u8; 128];
    huge[0] = 1;
    huge[32..40].copy_from_slice(&2u64.to_le_bytes());
    huge[40..48].copy_from_slice(&u64::MAX.to_le_bytes());
    huge[56] = b'a';
    assert!(parse_gpt_entries(&huge, 1, 128, u64::MAX).is_empty());
}

#[test]
fn gpt_partition_ending_before_its_start_is_refused() {
    let bad = vec![GptPartition { name: "x".to_string(), start_lba: 9, end_lba: 3 }];
    match extract_emmc_gpt(&bad) {
        Err(unixtract::error::UnixtractError::InvalidFormat(m)) => {
            assert_eq!(m, "GPT partition has an invalid LBA range")
        }
        _ => panic!("a reversed LBA range must be refused"),
    }
}

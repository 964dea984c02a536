use unixtract::mstar_unfd::{
    cstr, derive_geometry, extract_mstar_unfd, find_sub, is_mstar_unfd_file, scan_offsets,
    write_cis_info,
};

const TOTAL: usize = 0x40000;

fn bank_marker() -> Vec<u8> {
    let mut m = vec![0x02u8; 17];
    m.extend_from_slice(&[0x10; 4]);
    m
}

fn dump() -> Vec<u8> {
    let mut d = vec![0xFFu8; TOTAL];
    d[0..16].copy_from_slice(b"MSTARSEMIUNFDCIS");
    d[0x10..0x14].copy_from_slice(&0x91dc9805u32.to_le_bytes());
    for b in &mut d[0x40..0x64] {
        *b = 0;
    }
    d[0x40..0x47].copy_from_slice(b"TOSHIBA");
    d[0x50..0x5F].copy_from_slice(b"TH58NVG2S3HTA00");
    let m = bank_marker();
    d[0x1000..0x1000 + m.len()].copy_from_slice(&m);
    d[0x3000..0x3000 + m.len()].copy_from_slice(&m);
    d[0x8000..0x8004].copy_from_slice(b"UBI#");
    d[0x20000..0x20010].copy_from_slice(b"MSTARSEMIUNFDCIS");
    d
}

#[test]
fn geometry_from_the_image_size() {
    assert_eq!(derive_geometry(0x40000), (2048, 0, 64, 131072, 2));
    assert_eq!(derive_geometry(65536 * 3), (2048, 0, 32, 65536, 3));
    assert_eq!(derive_geometry(2049), (2048, 64, 64, 131072, 0));
    assert_eq!(derive_geometry(0), (2048, 0, 64, 131072, 0));
}

#[test]
fn header_detection() {
    let d = dump();
    let ctx = is_mstar_unfd_file(&d[..512], TOTAL as u64).unwrap().unwrap();
    assert_eq!(ctx.cis_signature, 0x91dc9805);
    assert_eq!(ctx.vendor, "TOSHIBA");
    assert_eq!(ctx.part_number, "TH58NVG2S3HTA00");
    assert_eq!((ctx.page_size, ctx.spare_size, ctx.pages_per_block), (2048, 0, 64));
    assert_eq!((ctx.block_size, ctx.block_count, ctx.total_size), (131072, 2, TOTAL as u64));
    assert!(is_mstar_unfd_file(b"MSTARSEMIUNFDCIX", 16).unwrap().is_none());
    assert!(is_mstar_unfd_file(b"short", 5).unwrap().is_none());
    match is_mstar_unfd_file(b"MSTARSEMIUNFDCIS\x01\x02", 18) {
        Err(unixtract::error::UnixtractError::InvalidFormat(m)) => {
            assert_eq!(m, "MStar UNFD CIS header is cut short")
        }
        _ => panic!("a cut-short CIS header must be an error"),
    }
    assert_eq!(cstr(b"  padded name \0junk"), "padded name");
}

#[test]
fn marker_scans() {
    let d = dump();
    assert_eq!(scan_offsets(&d, b"MSTARSEMIUNFDCIS"), vec![0, 0x20000]);
    assert_eq!(scan_offsets(&d, &bank_marker()), vec![0x1000, 0x3000]);
    assert_eq!(scan_offsets(&d, b"UBI#"), vec![0x8000]);
    assert_eq!(scan_offsets(&d, b""), Vec::<usize>::new());
    assert_eq!(scan_offsets(b"aaaa", b"aa"), vec![0, 1, 2]);
    assert_eq!(scan_offsets(b"aaa", b"aa"), vec![0, 1]);
    assert_eq!(find_sub(b"xxabxab", b"ab"), Some(2));
    assert_eq!(find_sub(b"xx", b"abc"), None);
}

#[test]
fn carving_plan_and_info_file() {
    let d = dump();
    let mut ctx = is_mstar_unfd_file(&d[..512], TOTAL as u64).unwrap().unwrap();
    let plan = extract_mstar_unfd(&mut ctx, &d);
    assert_eq!(ctx.cis_copies, vec![0, 0x20000]);
    assert_eq!(ctx.bank_markers, vec![0x1000, 0x3000]);
    assert_eq!(ctx.data_start, 0x1000);
    assert_eq!(plan.ubi_start, 0x8000);
    assert_eq!(plan.boot_markers, vec![0x1000, 0x3000]);
    let regions: Vec<(&str, usize, usize)> =
        plan.regions.iter().map(|r| (r.name.as_str(), r.start, r.len)).collect();
    assert_eq!(
        regions,
        vec![("boot_bank0", 0x1000, 0x2000), ("boot_bank1", 0x3000, 0x5000), ("rootfs_ubi", 0x8000, 0x38000)]
    );
    assert_eq!((plan.payload_start, plan.payload_len), (0x1000, TOTAL - 0x1000));
    let expected = "MStar UNFD NAND dump - CIS information\n\
=========================================\n\
magic:          MSTARSEMIUNFDCIS\n\
cis_signature:  0x91DC9805\n\
vendor:         TOSHIBA\n\
part_number:    TH58NVG2S3HTA00\n\
\n\
Derived NAND geometry:\n\
\x20 page_size:       2048 bytes\n\
\x20 spare_size:       0 bytes\n\
\x20 pages_per_block:  64\n\
\x20 block_size:       131072 bytes\n\
\x20 block_count:      2\n\
\x20 total_size:       262144 bytes\n\
\n\
cis_copies:    [\"0x0\", \"0x20000\"]\n\
bank_markers:   [\"0x1000\", \"0x3000\"]\n\
ubi_start:      0x8000\n\
data_start:     0x1000\n\
\n\
Carved partitions:\n\
\x20 boot_bank0: 0x1000..0x3000 (8192 bytes)\n\
\x20 boot_bank1: 0x3000..0x8000 (20480 bytes)\n\
\x20 rootfs_ubi: 0x8000..0x40000 (229376 bytes)\n\
\n\
The raw NAND payload (after the CIS header) was carved to nand_data.bin\n\
and any inner firmware formats were extracted to nand_data_extracted/.\n";
    assert_eq!(plan.cis_info, expected);
    assert_eq!(write_cis_info(&ctx, &plan.boot_markers, plan.ubi_start), expected);
}

#[test]
fn dump_without_ubi_or_markers() {
    let mut d = vec![0u8; 0x20000];
    d[0..16].copy_from_slice(b"MSTARSEMIUNFDCIS");
    let mut ctx = is_mstar_unfd_file(&d[..512], d.len() as u64).unwrap().unwrap();
    let plan = extract_mstar_unfd(&mut ctx, &d);
    assert_eq!(plan.ubi_start, 0x20000);
    assert!(plan.regions.is_empty());
    assert_eq!((plan.payload_start, plan.payload_len), (0, 0x20000));
    assert!(plan.cis_info.contains("bank_markers:   []\n"));
}

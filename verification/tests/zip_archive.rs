use std::io::Write;
use unixtract::android_ota::{compression_label, extract_android_ota_zip, is_directory_entry};
use unixtract::zip::{
    extract_entry_data, is_android_ota_zip_file, read_zip_entries, AndroidOtaZipContext, ZipError,
};

struct Entry<'a> {
    name: &'a str,
    method: u16,
    data: Vec<u8>,
    size: u32,
}

fn deflate(data: &[u8]) -> Vec<u8> {
    let mut e = flate2::write::DeflateEncoder::new(Vec::new(), flate2::Compression::default());
    e.write_all(data).unwrap();
    e.finish().unwrap()
}

fn build_zip(entries: &[Entry]) -> Vec<u8> {
    let mut out = Vec::new();
    let mut central = Vec::new();
    for e in entries {
        let off = out.len() as u32;
        out.extend_from_slice(&0x0403_4b50u32.to_le_bytes());
        out.extend_from_slice(&20u16.to_le_bytes());
        out.extend_from_slice(&0u16.to_le_bytes());
        out.extend_from_slice(&e.method.to_le_bytes());
        out.extend_from_slice(&[0; 4]);
        out.extend_from_slice(&0u32.to_le_bytes());
        out.extend_from_slice(&(e.data.len() as u32).to_le_bytes());
        out.extend_from_slice(&e.size.to_le_bytes());
        out.extend_from_slice(&(e.name.len() as u16).to_le_bytes());
        out.extend_from_slice(&0u16.to_le_bytes());
        out.extend_from_slice(e.name.as_bytes());
        out.extend_from_slice(&e.data);

        central.extend_from_slice(&0x0201_4b50u32.to_le_bytes());
        central.extend_from_slice(&20u16.to_le_bytes());
        central.extend_from_slice(&20u16.to_le_bytes());
        central.extend_from_slice(&0u16.to_le_bytes());
        central.extend_from_slice(&e.method.to_le_bytes());
        central.extend_from_slice(&[0; 4]);
        central.extend_from_slice(&0u32.to_le_bytes());
        central.extend_from_slice(&(e.data.len() as u32).to_le_bytes());
        central.extend_from_slice(&e.size.to_le_bytes());
        central.extend_from_slice(&(e.name.len() as u16).to_le_bytes());
        central.extend_from_slice(&[0; 12]);
        central.extend_from_slice(&off.to_le_bytes());
        central.extend_from_slice(e.name.as_bytes());
    }
    let cd_off = out.len() as u32;
    out.extend_from_slice(&central);
    out.extend_from_slice(&0x0605_4b50u32.to_le_bytes());
    out.extend_from_slice(&[0; 4]);
    out.extend_from_slice(&(entries.len() as u16).to_le_bytes());
    out.extend_from_slice(&(entries.len() as u16).to_le_bytes());
    out.extend_from_slice(&(central.len() as u32).to_le_bytes());
    out.extend_from_slice(&cd_off.to_le_bytes());
    out.extend_from_slice(&0u16.to_le_bytes());
    out
}

const SCRIPT: &str = "whole_image_update(\"\\\"/dev/block/boot\\\"\", \"\\\"boot.img\\\"\");\n";

fn sample() -> Vec<u8> {
    let boot = vec![0x42u8; 3000];
    build_zip(&[
        Entry { name: "META-INF/com/tcl/updater-script", method: 0, data: SCRIPT.as_bytes().to_vec(), size: SCRIPT.len() as u32 },
        Entry { name: "boot.img", method: 8, data: deflate(&boot), size: 3000 },
        Entry { name: "dir/", method: 0, data: Vec::new(), size: 0 },
        Entry { name: "../evil.txt", method: 0, data: b"evil".to_vec(), size: 4 },
        Entry { name: "odd.bin", method: 12, data: vec![1, 2, 3], size: 3 },
    ])
}

#[test]
fn central_directory_entries() {
    let zip = sample();
    let entries = read_zip_entries(&zip).ok().unwrap();
    let names: Vec<&str> = entries.iter().map(|e| e.name.as_str()).collect();
    assert_eq!(names, vec!["META-INF/com/tcl/updater-script", "boot.img", "dir/", "../evil.txt", "odd.bin"]);
    assert_eq!(entries[1].compression_method, 8);
    assert_eq!(entries[1].uncompressed_size, 3000);
    assert_eq!(extract_entry_data(&zip, &entries[1]).ok().unwrap(), vec![0x42u8; 3000]);
    assert_eq!(extract_entry_data(&zip, &entries[3]).ok().unwrap(), b"evil".to_vec());
    assert_eq!(extract_entry_data(&zip, &entries[4]).err(), Some(ZipError::UnsupportedCompression(12)));
}

#[test]
fn zip_errors() {
    assert_eq!(read_zip_entries(&[0u8; 10]).err(), Some(ZipError::TooSmall));
    assert_eq!(read_zip_entries(&[0u8; 100]).err(), Some(ZipError::EndOfCentralDirectoryNotFound));
    let mut zip = sample();
    let len = zip.len();
    // Point the central directory at the start of the archive, where a local header is.
    zip[len - 6..len - 2].copy_from_slice(&0u32.to_le_bytes());
    assert_eq!(read_zip_entries(&zip).err(), Some(ZipError::InvalidCentralDirectoryEntry));
}

#[test]
fn corrupt_deflate_stream() {
    let zip = build_zip(&[Entry { name: "bad.bin", method: 8, data: vec![0xff; 8], size: 10 }]);
    let entries = read_zip_entries(&zip).ok().unwrap();
    assert_eq!(extract_entry_data(&zip, &entries[0]).err(), Some(ZipError::CorruptDeflateStream));
}

#[test]
fn ota_package_detection_and_plan() {
    let zip = sample();
    let ctx = is_android_ota_zip_file(&zip).unwrap();
    match &ctx {
        AndroidOtaZipContext::AndroidOta { updater_script } => assert_eq!(updater_script, SCRIPT),
        AndroidOtaZipContext::GenericZip => panic!("expected an OTA package"),
    }
    let plan = extract_android_ota_zip(&zip, &ctx, "out").ok().unwrap();
    let files: Vec<(usize, &str, &str, bool)> = plan
        .files
        .iter()
        .map(|f| (f.index, f.path.as_str(), f.label.as_str(), f.ota))
        .collect();
    assert_eq!(
        files,
        vec![
            (0, "out/META-INF/com/tcl/updater-script", "", false),
            (1, "out/boot.img", " [DEFLATED]", true),
            (3, "out/evil.txt", "", false),
            (4, "out/odd.bin", " [COMPRESSED]", false),
        ]
    );
    assert_eq!(plan.dirs, vec!["out/dir".to_string()]);
    let (dumper, map) = plan.scripts.unwrap();
    assert!(dumper.contains("dd if='/dev/block/boot' of=\"$OUT/'boot.img'\" bs=1M conv=fsync\n"));
    assert_eq!(map, "operation\tdevice\timage\toffset\tblocks\nwhole_image\t/dev/block/boot\tboot.img\t\t\n");
}

#[test]
fn generic_zip_and_non_zip() {
    let zip = build_zip(&[Entry { name: "a.txt", method: 0, data: b"x".to_vec(), size: 1 }]);
    let ctx = is_android_ota_zip_file(&zip).unwrap();
    assert!(matches!(ctx, AndroidOtaZipContext::GenericZip));
    let plan = extract_android_ota_zip(&zip, &ctx, "o").ok().unwrap();
    assert!(plan.scripts.is_none());
    assert_eq!(plan.files.len(), 1);
    assert!(is_android_ota_zip_file(b"not a zip").is_none());
}

#[test]
fn entry_labels() {
    assert!(is_directory_entry("a/"));
    assert!(is_directory_entry("a\\"));
    assert!(!is_directory_entry("a"));
    assert!(!is_directory_entry(""));
    assert_eq!(compression_label(8), " [DEFLATED]");
    assert_eq!(compression_label(0), "");
    assert_eq!(compression_label(14), " [COMPRESSED]");
}

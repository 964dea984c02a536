use unixtract::error::UnixtractError;
use unixtract::mstar::{
    extract_mstar, is_mstar_file, mstar_output_name, mstar_script, script_text,
    CompressionType,
};

const SCRIPT: &str = "setenv bootargs x\n\
filepartload 0x20200000 upgrade.bin 0x1000 0x2000\n\
mscompress7 d 0 0x2000 0x20200000 0x20400000\n\
mmc write.p 0x20400000 boot 0x400000\n\
filepartload 0x20200000 upgrade.bin 0x3000 0x100\r\n\
mmc unlzo 0x20200000 0x100 system 1\n\
filepartload 0x20200000 upgrade.bin 4096 512\n\
filepartload 0x20200000 upgrade.bin 0x10 0x20\n\
mscompress7 d 0\n\
mscompress7 d 0\n\
nand write.e 0x20400000 kernel 0x300000\n\
filepartload 0x20200000 upgrade.bin 0x40 0x50\n\
lz4 a b c d 0x800\n\
mmc write.boot 1 0x20200000 0 0x100\n\
filepartload 0x20200000 upgrade.bin 0x60 0x70\n\
sparse_write mmc 0x20200000 userdata 0x1000\n";

#[test]
fn parts_of_a_script() {
    assert!(extract_mstar(SCRIPT).is_ok());
    let parts = extract_mstar(SCRIPT).unwrap();
    let got: Vec<(u64, u64, &str, CompressionType, u64)> = parts
        .iter()
        .map(|p| (p.offset, p.size, p.name.as_str(), p.compression, p.lz4_size))
        .collect();
    assert_eq!(
        got,
        vec![
            (0x1000, 0x2000, "boot", CompressionType::Lzma, 0),
            (0x3000, 0x100, "system", CompressionType::Lzo, 0),
            (4096, 512, "unknown", CompressionType::Stored, 0),
            (0x10, 0x20, "kernel", CompressionType::DoubleLzma, 0),
            (0x40, 0x50, "_mmc_boot", CompressionType::Lz4, 0x800),
            (0x60, 0x70, "userdata", CompressionType::Sparse, 0),
        ]
    );
    assert_eq!(mstar_output_name(&parts[0], false), Some("boot.bin".to_string()));
    assert_eq!(mstar_output_name(&parts[2], false), None);
    assert_eq!(mstar_output_name(&parts[2], true), Some("_unknown_4096.bin".to_string()));
}

#[test]
fn scripts_missing_words() {
    assert!(extract_mstar("filepartload 1 2 3\n").is_err());
    assert!(extract_mstar("filepartload a b 1 2\nlz4 x\n").is_err());
    assert!(extract_mstar("filepartload a b 1 2\nmmc write\n").is_err());
    assert!(extract_mstar("filepartload a b 1 2\nmmc write.boot 1\nmmc write\n").is_ok());
    assert!(extract_mstar("no parts here\nlz4 x\n").is_ok());
    assert!(extract_mstar("").unwrap().is_empty());
    match extract_mstar("filepartload 0x20200000\n") {
        Err(UnixtractError::InvalidFormat(m)) => assert_eq!(m, "MStar script command lacks an argument"),
        _ => panic!("a short filepartload line must be refused"),
    }
}

#[test]
fn detection_and_script_text() {
    let mut header = b"#!\nsetenv\nfilepartload 0 a 0 1\n".to_vec();
    header.extend_from_slice(&[0u8; 64]);
    assert!(is_mstar_file(&header));
    assert!(!is_mstar_file(b"filepartlod"));
    assert_eq!(script_text(b"abc\0def"), "abc");
    assert_eq!(script_text(b"\xffxyz"), "");
    assert_eq!(script_text(b"plain"), "plain");
    assert_eq!(mstar_script(b"first\0", b"second").unwrap(), "first");
    assert_eq!(mstar_script(b"\0first", b"second\xff").unwrap(), "second");
    match mstar_script(b"\xff", b"") {
        Err(UnixtractError::Other(m)) => assert_eq!(m, "Failed to get script"),
        _ => panic!("no script must be an error"),
    }
}

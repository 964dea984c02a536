use unixtract::fmt::{dec, hex_lower, hex_upper, zero_pad};
use unixtract::bytes::{be16, be32, be64, le16, le32, le64, match_at};

fn s(v: Vec<char>) -> String {
    v.into_iter().collect()
}

#[test]
fn decimal_and_hex_rendering() {
    assert_eq!(s(dec(0)), "0");
    assert_eq!(s(dec(1234567890)), "1234567890");
    assert_eq!(s(dec(u64::MAX)), "18446744073709551615");
    assert_eq!(s(hex_lower(0xdeadbeef)), "deadbeef");
    assert_eq!(s(hex_upper(0xdeadbeef)), "DEADBEEF");
    assert_eq!(s(hex_upper(0)), "0");
    assert_eq!(s(zero_pad(hex_upper(0x91dc), 8)), "000091DC");
    assert_eq!(s(zero_pad(hex_upper(0x1234_5678_9), 8)), "123456789");
}

#[test]
fn little_and_big_endian_reads() {
    let b = [0x01u8, 0x02, 0x03, 0x04, 0x05, 0x06, 0x07, 0x08];
    assert_eq!(le16(&b, 0), 0x0201);
    assert_eq!(be16(&b, 0), 0x0102);
    assert_eq!(le32(&b, 1), 0x05040302);
    assert_eq!(be32(&b, 1), 0x02030405);
    assert_eq!(le64(&b, 0), 0x0807060504030201);
    assert_eq!(be64(&b, 0), 0x0102030405060708);
    assert!(match_at(&b, 2, &[3, 4]));
    assert!(!match_at(&b, 7, &[8, 9]));
}

use unixtract::mstar::{parse_number, split_whitespace};
use unixtract::options::{has_option, option_value};
use unixtract::path_sanitize::{safe_output_path, sanitize_path};
use unixtract::text::{split_char, trim};

fn cs(x: &str) -> Vec<char> {
    x.chars().collect()
}

#[test]
fn trimming_and_splitting() {
    assert_eq!(s(trim(&cs(" \t a b \n"))), "a b");
    assert_eq!(s(trim(&cs("   "))), "");
    let parts: Vec<String> = split_char(&cs("a,,b"), ',').into_iter().map(s).collect();
    assert_eq!(parts, vec!["a", "", "b"]);
    let words: Vec<String> = split_whitespace(&cs("  filepartload  0x10\tx  ")).into_iter().map(s).collect();
    assert_eq!(words, vec!["filepartload", "0x10", "x"]);
    assert_eq!(s(trim(&cs(" héllo "))), "héllo");
}

#[test]
fn script_numbers() {
    assert_eq!(parse_number(&cs("0x10")), Some(16));
    assert_eq!(parse_number(&cs("0X1f")), Some(31));
    assert_eq!(parse_number(&cs("123")), Some(123));
    assert_eq!(parse_number(&cs("18446744073709551615")), Some(u64::MAX));
    assert_eq!(parse_number(&cs("18446744073709551616")), None);
    assert_eq!(parse_number(&cs("0x")), None);
    assert_eq!(parse_number(&cs("")), None);
    assert_eq!(parse_number(&cs("12a")), None);
    assert_eq!(parse_number(&cs("0xfffffffffffffffff")), None);
}

#[test]
fn option_lookup() {
    let opts = vec!["mstar:keep_unknown".to_string(), "nvt_raw:key=0011".to_string()];
    assert!(has_option(&opts, "mstar:keep_unknown"));
    assert!(!has_option(&opts, "mstar:keep"));
    assert_eq!(option_value(&opts, "nvt_raw:key="), Some("0011".to_string()));
    assert_eq!(option_value(&opts, "vestel:"), None);
}

#[test]
fn path_sanitizing_examples() {
    assert_eq!(sanitize_path("../../etc/passwd").unwrap(), "etc/passwd");
    assert_eq!(sanitize_path("/a/./b//c").unwrap(), "a/b/c");
    assert_eq!(sanitize_path("a/b/../../../c").unwrap(), "c");
    assert_eq!(sanitize_path("a/b/..").unwrap(), "a");
    assert_eq!(sanitize_path("").unwrap(), "");
    assert_eq!(sanitize_path("..").unwrap(), "");
    assert_eq!(safe_output_path("out", "../x").unwrap(), "out/x");
    assert_eq!(safe_output_path("out/", "dir/./file.bin").unwrap(), "out/dir/file.bin");
}

#[test]
fn sanitized_paths_are_safe_and_stable() {
    for p in ["../../etc/passwd", "/abs/../x/./y", "a//b/../c/..", "....//..//x"] {
        let once = sanitize_path(p).unwrap();
        assert!(!once.starts_with('/'));
        if !once.is_empty() {
            for comp in once.split('/') {
                assert!(!comp.is_empty() && comp != "." && comp != "..");
            }
        }
        assert_eq!(sanitize_path(&once).unwrap(), once);
    }
}

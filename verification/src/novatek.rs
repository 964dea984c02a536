//! Novatek raw ("shredder") images: detection, key choice, AES-ECB or XOR
//! decryption, and the fixed partition layout.

use vstd::prelude::*;
use crate::aes::{decrypt_aes_ecb_auto, spec_ecb_auto};
use crate::hexcodec::{HexError, hex_decode, spec_hex_decode};
use crate::options::{has_option, option_value, spec_has_option, spec_option_value};
use crate::text::{chars_of, string_from_chars};
use crate::error::UnixtractError;
use vstd::string::StringSliceAdditionalSpecFns;

verus! {

/// The magic of a shredder image, `bsl`.
pub open spec fn bsl_magic() -> Seq<u8> {
    seq![0x62u8, 0x73u8, 0x6Cu8]
}

/// A Novatek raw image: the first three bytes of a file of at least three
/// bytes are `bsl`, or the `nvt_raw:key` option forces it.
pub open spec fn spec_is_novatek_raw(head: Seq<u8>, file_size: u64, options: Seq<String>) -> bool {
    file_size >= 3 && (head == bsl_magic() || spec_has_option(options, "nvt_raw:key"@))
}

/// Detects a Novatek raw image from its first three bytes `head`.
pub fn is_novatek_raw_file(head: &[u8], file_size: u64, options: &[String]) -> (r: bool)
    ensures
        r == spec_is_novatek_raw(head@, file_size, options@),
{
    if file_size < 3 {
        return false;
    }
    if head.len() == 3 && head[0] == 0x62 && head[1] == 0x73 && head[2] == 0x6C {
        assert(head@ =~= bsl_magic());
        return true;
    }
    assert(head@ != bsl_magic()) by {
        if head@ == bsl_magic() {
            assert(head@[0] == 0x62 && head@[1] == 0x73 && head@[2] == 0x6C);
        }
    }
    has_option(options, "nvt_raw:key")
}

/// Why no decryption key could be had.
#[derive(Debug)]
pub enum NovatekKeyError {
    /// Neither an `nvt_raw:key=` option nor a built-in key.
    KeyRequired,
    /// The key is no valid hex string.
    InvalidHexKey(HexError),
}

/// The hex text of the key: the `nvt_raw:key=` option, else the first
/// built-in key.
pub open spec fn spec_key_hex(options: Seq<String>, builtin: Option<Seq<char>>) -> Option<Seq<char>> {
    match spec_option_value(options, "nvt_raw:key="@) {
        Some(v) => Some(v),
        None => builtin,
    }
}

/// Chooses and decodes the decryption key.
pub fn novatek_key(options: &[String], builtin: Option<&str>) -> (r: Result<Vec<u8>, NovatekKeyError>)
    ensures
        match spec_key_hex(options@, match builtin { Some(b) => Some(b@), None => None }) {
            None => r matches Err(NovatekKeyError::KeyRequired),
            Some(h) => match spec_hex_decode(
                vstd::utf8::encode_utf8(h),
            ) {
                Ok(k) => r matches Ok(v) && v@ == k,
                Err(e) => r matches Err(NovatekKeyError::InvalidHexKey(x)) && x == e,
            },
        },
{
    let hex_text: String = match option_value(options, "nvt_raw:key=") {
        Some(v) => v,
        None => match builtin {
            Some(b) => string_from_chars(chars_of(b).as_slice()),
            None => {
                return Err(NovatekKeyError::KeyRequired);
            },
        },
    };
    match hex_decode(hex_text.as_str()) {
        Ok(k) => Ok(k),
        Err(e) => Err(NovatekKeyError::InvalidHexKey(e)),
    }
}

/// `data` XORed with `key` repeated.
pub open spec fn spec_xor(key: Seq<u8>, data: Seq<u8>) -> Seq<u8> {
    Seq::new(data.len(), |i: int| data[i] ^ key[i % (key.len() as int)])
}

/// XORs `data` with `key` repeated.
pub fn xor_decrypt(key: &[u8], data: &[u8]) -> (r: Vec<u8>)
    requires
        key@.len() > 0 || data@.len() == 0,
    ensures
        r@ == spec_xor(key@, data@),
{
    let mut out: Vec<u8> = Vec::new();
    let mut i: usize = 0;
    while i < data.len()
        invariant
            i <= data@.len(),
            key@.len() > 0 || data@.len() == 0,
            out@ == spec_xor(key@, data@).take(i as int),
        decreases data@.len() - i,
    {
        out.push(data[i] ^ key[i % key.len()]);
        i += 1;
        assert(out@ =~= spec_xor(key@, data@).take(i as int));
    }
    assert(spec_xor(key@, data@).take(data@.len() as int) =~= spec_xor(key@, data@));
    out
}

/// One partition of the fixed layout.
pub struct NvtPartition {
    pub name: String,
    pub offset: u32,
    pub size: u32,
}

/// Name, offset and size of a partition.
pub open spec fn nvt_view(p: NvtPartition) -> (Seq<char>, u32, u32) {
    (p.name@, p.offset, p.size)
}

/// The fixed partition layout of the decrypted image.
pub open spec fn nvt_table() -> Seq<(Seq<char>, u32, u32)> {
    seq![
        ("spi_boot"@, 0x0000020u32, 0x00020000u32),
        ("nand_xbootdat"@, 0x000a0020u32, 0x0001800u32),
        ("nand_secos"@, 0x000c0020u32, 0x000f5800u32),
        ("nand_uboot"@, 0x001c0020u32, 0x00082800u32),
        ("nand_fdt0"@, 0x00260020u32, 0x0004000u32),
        ("nand_fdt1"@, 0x00280020u32, 0x0004000u32),
        ("nand_ker0"@, 0x002a0020u32, 0x00353000u32),
        ("nand_ker1"@, 0x00600020u32, 0x00db9000u32),
        ("nand_fs0"@, 0x013c0020u32, 0x00f40000u32),
        ("nand_ap0"@, 0x02320020u32, 0x09400000u32),
        ("nand_apdat0"@, 0x0b740020u32, 0x00440000u32),
        ("nand_buffer"@, 0x11be0020u32, 0x003c0000u32),
        ("nand_logo"@, 0x05f80020u32, 0x0060000u32),
        ("spi_env"@, 0x0000000u32, 0x0000000u32),
        ("nand_ddrcfg"@, 0x0000000u32, 0x0000000u32),
        ("nand_xboot"@, 0x0000000u32, 0x0000000u32),
    ]
}

fn nvt_entry(name: &str, offset: u32, size: u32) -> (r: NvtPartition)
    ensures
        nvt_view(r) == (name@, offset, size),
{
    NvtPartition { name: string_from_chars(chars_of(name).as_slice()), offset, size }
}

fn nvt_table_exec() -> (r: Vec<NvtPartition>)
    ensures
        r@.len() == nvt_table().len(),
        forall|i: int| 0 <= i < r@.len() ==> nvt_view(#[trigger] r@[i]) == nvt_table()[i],
{
    let v: Vec<NvtPartition> = vec![
        nvt_entry("spi_boot", 0x0000020, 0x00020000),
        nvt_entry("nand_xbootdat", 0x000a0020, 0x0001800),
        nvt_entry("nand_secos", 0x000c0020, 0x000f5800),
        nvt_entry("nand_uboot", 0x001c0020, 0x00082800),
        nvt_entry("nand_fdt0", 0x00260020, 0x0004000),
        nvt_entry("nand_fdt1", 0x00280020, 0x0004000),
        nvt_entry("nand_ker0", 0x002a0020, 0x00353000),
        nvt_entry("nand_ker1", 0x00600020, 0x00db9000),
        nvt_entry("nand_fs0", 0x013c0020, 0x00f40000),
        nvt_entry("nand_ap0", 0x02320020, 0x09400000),
        nvt_entry("nand_apdat0", 0x0b740020, 0x00440000),
        nvt_entry("nand_buffer", 0x11be0020, 0x003c0000),
        nvt_entry("nand_logo", 0x05f80020, 0x0060000),
        nvt_entry("spi_env", 0x0000000, 0x0000000),
        nvt_entry("nand_ddrcfg", 0x0000000, 0x0000000),
        nvt_entry("nand_xboot", 0x0000000, 0x0000000),
    ];
    v
}

/// The partitions of the layout that a decrypted image of `len` bytes
/// holds whole, among the first `n` of the layout; empty ones are left out.
pub open spec fn nvt_present(len: nat, n: nat) -> Seq<(Seq<char>, u32, u32)>
    decreases n,
{
    if n == 0 {
        Seq::empty()
    } else {
        let prev = nvt_present(len, (n - 1) as nat);
        let e = nvt_table()[n - 1];
        if e.1 + e.2 <= len && e.2 > 0 {
            prev.push(e)
        } else {
            prev
        }
    }
}

/// What extracting a Novatek raw image writes: the decrypted image and the
/// partitions of the layout that it holds.
pub struct NovatekOutput {
    /// Written to `_decrypted.bin`.
    pub decrypted: Vec<u8>,
    /// Each written to `<name>.bin` from the decrypted image.
    pub partitions: Vec<NvtPartition>,
}

/// The decryption of `data` under `key`: AES-ECB when the key has an AES
/// length, else XOR with the key.
pub open spec fn spec_novatek_decrypt(key: Seq<u8>, data: Seq<u8>) -> Seq<u8> {
    match spec_ecb_auto(key, data) {
        Some(d) => d,
        None => spec_xor(key, data),
    }
}

/// Decrypts a Novatek raw image and lists the partitions it holds.
pub fn extract_novatek_raw(key: &[u8], data: &[u8]) -> (r: Result<NovatekOutput, UnixtractError>)
    ensures
        key@.len() > 0 || data@.len() == 0 ==> (r matches Ok(o) && o.decrypted@ == spec_novatek_decrypt(
            key@,
            data@,
        ) && Seq::new(o.partitions@.len(), |i: int| nvt_view(o.partitions@[i])) == nvt_present(
            o.decrypted@.len(),
            16,
        )),
        !(key@.len() > 0 || data@.len() == 0) ==> (r matches Err(UnixtractError::Crypto(m)) && m@
            == "Novatek key is empty"@),
{
    if key.len() == 0 && data.len() != 0 {
        let m = chars_of("Novatek key is empty");
        return Err(UnixtractError::Crypto(string_from_chars(m.as_slice())));
    }
    let dec = match decrypt_aes_ecb_auto(key, data) {
        Ok(d) => d,
        Err(_) => xor_decrypt(key, data),
    };
    let table = nvt_table_exec();
    let mut parts: Vec<NvtPartition> = Vec::new();
    let mut i: usize = 0;
    let mut rest = table;
    while i < 16
        invariant
            i <= 16,
            rest@.len() == 16 - i,
            forall|j: int| 0 <= j < rest@.len() ==> nvt_view(#[trigger] rest@[j]) == nvt_table()[j + i],
            Seq::new(parts@.len(), |j: int| nvt_view(parts@[j])) == nvt_present(dec@.len(), i as nat),
        decreases 16 - i,
    {
        let e = rest.remove(0);
        assert(nvt_view(e) == nvt_table()[i as int]);
        let ghost p0 = parts@;
        if (e.offset as u64) + (e.size as u64) <= dec.len() as u64 && e.size > 0 {
            parts.push(e);
            assert(Seq::new(parts@.len(), |j: int| nvt_view(parts@[j])) =~= Seq::new(
                p0.len(),
                |j: int| nvt_view(p0[j]),
            ).push(nvt_table()[i as int]));
        }
        i += 1;
    }
    Ok(NovatekOutput { decrypted: dec, partitions: parts })
}

/// Every partition written lies inside the decrypted image and is not
/// empty.
pub proof fn lemma_partitions_inside(len: nat, n: nat)
    requires
        n <= 16,
    ensures
        forall|k: int|
            0 <= k < nvt_present(len, n).len() ==> {
                let p = #[trigger] nvt_present(len, n)[k];
                p.1 + p.2 <= len && p.2 > 0
            },
    decreases n,
{
    if n > 0 {
        lemma_partitions_inside(len, (n - 1) as nat);
        let prev = nvt_present(len, (n - 1) as nat);
        let cur = nvt_present(len, n);
        assert forall|k: int| 0 <= k < cur.len() implies {
            let p = #[trigger] cur[k];
            p.1 + p.2 <= len && p.2 > 0
        } by {
            if k < prev.len() {
                assert(cur[k] == prev[k]);
            }
        }
    }
}

} // verus!

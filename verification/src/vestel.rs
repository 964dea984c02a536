//! Vestel firmware images: detection of the plain, MB230 and encrypted
//! kinds, and the fixed partition layouts that an extraction cuts out.

use vstd::prelude::*;
use crate::aes::{decrypt_aes128_ecb, spec_ecb128};
use crate::bytes::{bytes_match_at, match_at, copy_range};
use crate::hexcodec::{HexError, hex_decode, spec_hex_decode};
use crate::mstar_unfd::{first_match_from, find_sub};
use crate::text::{chars_of, string_from_chars};

verus! {

/// Which layout a Vestel image has.
#[derive(Debug, Clone, Copy, PartialEq, Eq, Structural)]
pub enum VestelVariant {
    Standard,
    Mb230,
}

/// What detection found.
#[derive(Debug, Clone, Copy, PartialEq, Eq, Structural)]
pub struct VestelCtx {
    pub is_encrypted: bool,
    pub variant: VestelVariant,
}

/// The marker `OPTEE`.
pub open spec fn optee() -> Seq<u8> {
    seq![0x4Fu8, 0x50u8, 0x54u8, 0x45u8, 0x45u8]
}

/// The MB230 header magic `aa aa 55 55 55 55 aa aa`.
pub open spec fn mb230_magic() -> Seq<u8> {
    seq![0xAAu8, 0xAAu8, 0x55u8, 0x55u8, 0x55u8, 0x55u8, 0xAAu8, 0xAAu8]
}

/// The MB230 flash tag `spi\0`.
pub open spec fn spi_tag() -> Seq<u8> {
    seq![0x73u8, 0x70u8, 0x69u8, 0x00u8]
}

/// The first 64 bytes of `data` (all of it when shorter).
pub open spec fn vestel_header(data: Seq<u8>) -> Seq<u8> {
    data.take(if data.len() < 64 { data.len() as int } else { 64 })
}

/// `OPTEE` occurs in `s`.
pub open spec fn has_optee(s: Seq<u8>) -> bool {
    first_match_from(s, optee(), 0) is Some
}

/// The bytes decrypted to look for `OPTEE`: all whole blocks but the last
/// 16 bytes.
pub open spec fn cut_len(len: nat) -> nat {
    if len < 16 {
        0
    } else {
        ((len - 16) as nat / 16 * 16) as nat
    }
}

/// Detection on the whole file `data`, with the hex text of the Vestel key
/// when one is known: `OPTEE` in the first 64 bytes is a plain image; the
/// MB230 magic with the `spi` tag at 0x10 (a header too short to hold the
/// tag has none) is an MB230 image; otherwise, with
/// a 16-byte key and at least 32 bytes, an image whose AES-128-ECB
/// decryption (but for its last bytes) holds `OPTEE` is an encrypted one.
pub open spec fn spec_is_vestel(data: Seq<u8>, key_hex: Option<Seq<char>>) -> Result<
    Option<VestelCtx>,
    HexError,
> {
    let header = vestel_header(data);
    if has_optee(header) {
        Ok(Some(VestelCtx { is_encrypted: false, variant: VestelVariant::Standard }))
    } else if bytes_match_at(header, 0, mb230_magic()) && header.len() >= 0x14 && header.subrange(
        0x10,
        0x14,
    ) == spi_tag() {
        Ok(Some(VestelCtx { is_encrypted: false, variant: VestelVariant::Mb230 }))
    } else {
        match key_hex {
            None => Ok(None),
            Some(k) => match spec_hex_decode(vstd::utf8::encode_utf8(k)) {
                Err(e) => Err(e),
                Ok(key) => if key.len() != 16 || data.len() < 32 || cut_len(data.len()) == 0 {
                    Ok(None)
                } else if has_optee(spec_ecb128(key, data.take(cut_len(data.len()) as int))) {
                    Ok(Some(VestelCtx { is_encrypted: true, variant: VestelVariant::Standard }))
                } else {
                    Ok(None)
                },
            },
        }
    }
}

fn optee_bytes() -> (r: Vec<u8>)
    ensures
        r@ == optee(),
{
    let r: Vec<u8> = vec![0x4F, 0x50, 0x54, 0x45, 0x45];
    assert(r@ =~= optee());
    r
}

fn key16(v: &Vec<u8>) -> (r: [u8; 16])
    requires
        v@.len() == 16,
    ensures
        r@ == v@,
{
    let mut a: [u8; 16] = [0; 16];
    let mut i: usize = 0;
    while i < 16
        invariant
            i <= 16,
            v@.len() == 16,
            forall|j: int| 0 <= j < i ==> a@[j] == v@[j],
        decreases 16 - i,
    {
        a[i] = v[i];
        i += 1;
    }
    assert(a@ =~= v@);
    a
}

/// Detects a Vestel image from the whole file `data`.
pub fn is_vestel_file(data: &[u8], key_hex: Option<&str>) -> (r: Result<Option<VestelCtx>, HexError>)
    ensures
        r == spec_is_vestel(data@, match key_hex { Some(k) => Some(k@), None => None }),
{
    let hlen = if data.len() < 64 {
        data.len()
    } else {
        64
    };
    let header = copy_range(data, 0, hlen);
    assert(header@ =~= vestel_header(data@));
    let marker = optee_bytes();
    if find_sub(header.as_slice(), marker.as_slice()).is_some() {
        return Ok(Some(VestelCtx { is_encrypted: false, variant: VestelVariant::Standard }));
    }
    let magic: [u8; 8] = [0xAA, 0xAA, 0x55, 0x55, 0x55, 0x55, 0xAA, 0xAA];
    assert(magic@ =~= mb230_magic());
    if match_at(header.as_slice(), 0, magic.as_slice()) && header.len() >= 0x14 {
        let tag: [u8; 4] = [0x73, 0x70, 0x69, 0x00];
        assert(tag@ =~= spi_tag());
        let t = copy_range(header.as_slice(), 0x10, 0x14);
        if match_at(t.as_slice(), 0, tag.as_slice()) {
            assert(t@.subrange(0, 4) =~= t@);
            return Ok(Some(VestelCtx { is_encrypted: false, variant: VestelVariant::Mb230 }));
        }
        assert(t@ != spi_tag()) by {
            if t@ == spi_tag() {
                assert(t@.subrange(0, 4) =~= t@);
            }
        }
    }
    let k = match key_hex {
        None => {
            return Ok(None);
        },
        Some(k) => k,
    };
    let key_vec = match hex_decode(k) {
        Err(e) => {
            return Err(e);
        },
        Ok(v) => v,
    };
    if key_vec.len() != 16 {
        return Ok(None);
    }
    let key = key16(&key_vec);
    if data.len() < 32 {
        return Ok(None);
    }
    let cut = (data.len() - 16) / 16 * 16;
    if cut == 0 {
        return Ok(None);
    }
    let head = copy_range(data, 0, cut);
    assert(head@ =~= data@.take(cut_len(data@.len()) as int));
    let dec = match decrypt_aes128_ecb(&key, head.as_slice()) {
        Ok(d) => d,
        // Not taken: AES-ECB decryption cannot fail.
        Err(_) => {
            return Ok(None);
        },
    };
    if find_sub(dec.as_slice(), marker.as_slice()).is_some() {
        Ok(Some(VestelCtx { is_encrypted: true, variant: VestelVariant::Standard }))
    } else {
        Ok(None)
    }
}

/// One range of the image to save as `<name>.bin`.
pub struct Segment {
    pub name: String,
    pub start: usize,
    pub end: usize,
}

/// Name, start and end of a segment.
pub open spec fn segment_view(s: Segment) -> (Seq<char>, int, int) {
    (s.name@, s.start as int, s.end as int)
}

/// The layout of standard images: name, offset, size.
pub open spec fn vestel_table() -> Seq<(Seq<char>, usize, usize)> {
    seq![
        ("kernel"@, 0x000000usize, 0x700000usize),
        ("rootfs"@, 0x700000usize, 0x1A00000usize),
        ("vendor"@, 0x2100000usize, 0x9A00000usize),
        ("conf"@, 0xBB00000usize, 0x1E00000usize),
        ("apd"@, 0xD900000usize, 0x1100000usize),
        ("tee"@, 0xEA00000usize, 0x504800usize),
        ("buf"@, 0xEF04800usize, 0x400000usize),
    ]
}

/// The layout of MB230 images: name, offset, size.
pub open spec fn mb230_table() -> Seq<(Seq<char>, usize, usize)> {
    seq![
        ("xboot"@, 0x000000usize, 0x0C0000usize),
        ("xboot_code"@, 0x0C0000usize, 0x200000usize),
        ("uboot"@, 0x380000usize, 0x140000usize),
        ("kernel_dtb"@, 0x4C0000usize, 0xD20000usize),
        ("ubi_volume"@, 0x1280000usize, 0x9B40000usize),
        ("ubifs"@, 0xADC0000usize, 0x1BC0000usize),
        ("squashfs_area"@, 0xC980000usize, 0x680000usize),
        ("app_modules"@, 0xD000000usize, 0x1600000usize),
    ]
}

/// The segments of the first `n` entries of `table` in an image of `len`
/// bytes: entries that start inside it, cut at its end.
pub open spec fn spec_segments(table: Seq<(Seq<char>, usize, usize)>, len: nat, n: nat) -> Seq<
    (Seq<char>, int, int),
>
    decreases n,
{
    if n == 0 {
        Seq::empty()
    } else {
        let prev = spec_segments(table, len, (n - 1) as nat);
        let e = table[n - 1];
        if e.1 >= len {
            prev
        } else {
            let end = if e.1 + e.2 < len { e.1 + e.2 } else { len as int };
            prev.push((e.0, e.1 as int, end))
        }
    }
}

fn table_entry(name: &str, offset: usize, size: usize) -> (r: (String, usize, usize))
    ensures
        r.0@ == name@,
        r.1 == offset,
        r.2 == size,
{
    (string_from_chars(chars_of(name).as_slice()), offset, size)
}

fn layout(mb230: bool) -> (r: Vec<(String, usize, usize)>)
    ensures
        r@.len() == (if mb230 { mb230_table() } else { vestel_table() }).len(),
        forall|i: int|
            0 <= i < r@.len() ==> (#[trigger] r@[i].0@, r@[i].1, r@[i].2) == (if mb230 {
                mb230_table()
            } else {
                vestel_table()
            })[i],
{
    if mb230 {
        vec![
            table_entry("xboot", 0x000000, 0x0C0000),
            table_entry("xboot_code", 0x0C0000, 0x200000),
            table_entry("uboot", 0x380000, 0x140000),
            table_entry("kernel_dtb", 0x4C0000, 0xD20000),
            table_entry("ubi_volume", 0x1280000, 0x9B40000),
            table_entry("ubifs", 0xADC0000, 0x1BC0000),
            table_entry("squashfs_area", 0xC980000, 0x680000),
            table_entry("app_modules", 0xD000000, 0x1600000),
        ]
    } else {
        vec![
            table_entry("kernel", 0x000000, 0x700000),
            table_entry("rootfs", 0x700000, 0x1A00000),
            table_entry("vendor", 0x2100000, 0x9A00000),
            table_entry("conf", 0xBB00000, 0x1E00000),
            table_entry("apd", 0xD900000, 0x1100000),
            table_entry("tee", 0xEA00000, 0x504800),
            table_entry("buf", 0xEF04800, 0x400000),
        ]
    }
}

/// The segments of a layout in an image of `len` bytes.
fn segments(mb230: bool, len: usize) -> (r: Vec<Segment>)
    ensures
        Seq::new(r@.len(), |i: int| segment_view(r@[i])) == spec_segments(
            if mb230 { mb230_table() } else { vestel_table() },
            len as nat,
            (if mb230 { mb230_table() } else { vestel_table() }).len(),
        ),
{
    let ghost table = if mb230 {
        mb230_table()
    } else {
        vestel_table()
    };
    let entries = layout(mb230);
    let mut out: Vec<Segment> = Vec::new();
    let mut i: usize = 0;
    while i < entries.len()
        invariant
            i <= entries@.len(),
            entries@.len() == table.len(),
            forall|j: int|
                0 <= j < entries@.len() ==> (#[trigger] entries@[j].0@, entries@[j].1, entries@[j].2)
                    == table[j],
            Seq::new(out@.len(), |j: int| segment_view(out@[j])) == spec_segments(table, len as nat, i as nat),
        decreases entries@.len() - i,
    {
        let e = &entries[i];
        assert((e.0@, e.1, e.2) == table[i as int]);
        let start = e.1;
        let ghost o0 = out@;
        if start < len {
            let end = if e.2 < len - start {
                start + e.2
            } else {
                len
            };
            out.push(Segment { name: string_from_chars(chars_of(e.0.as_str()).as_slice()), start, end });
            assert(Seq::new(out@.len(), |j: int| segment_view(out@[j])) =~= Seq::new(
                o0.len(),
                |j: int| segment_view(o0[j]),
            ).push((table[i as int].0, start as int, end as int)));
        }
        i += 1;
    }
    out
}

/// Why a Vestel image could not be extracted.
#[derive(Debug)]
pub enum VestelError {
    /// No Vestel key is known.
    KeyNotFound,
    /// The key is no valid hex string.
    InvalidHexKey(HexError),
    /// The key is not 16 bytes long.
    InvalidKeyLength,
}

/// What extracting a Vestel image writes.
pub struct VestelOutput {
    /// The decryption of an encrypted image, saved as `_decrypted.bin`
    /// (removed afterwards unless `vestel:keep_decrypted` is given).
    pub decrypted: Option<Vec<u8>>,
    /// The segments to save, as ranges of the decrypted image when there is
    /// one, else of the input.
    pub segments: Vec<Segment>,
}

/// Extraction of a Vestel image `data` detected as `ctx`: an MB230 image is
/// cut by its layout; a standard one needs the 16-byte Vestel key, is
/// decrypted when encrypted, and is cut by the standard layout.
pub open spec fn spec_extract_vestel(ctx: VestelCtx, data: Seq<u8>, key_hex: Option<Seq<char>>) -> Result<
    (Option<Seq<u8>>, Seq<(Seq<char>, int, int)>),
    VestelError,
> {
    if ctx.variant == VestelVariant::Mb230 {
        Ok((None, spec_segments(mb230_table(), data.len(), mb230_table().len())))
    } else {
        match key_hex {
            None => Err(VestelError::KeyNotFound),
            Some(k) => match spec_hex_decode(vstd::utf8::encode_utf8(k)) {
                Err(e) => Err(VestelError::InvalidHexKey(e)),
                Ok(key) => if key.len() != 16 {
                    Err(VestelError::InvalidKeyLength)
                } else if ctx.is_encrypted {
                    let dec = spec_ecb128(key, data);
                    Ok((Some(dec), spec_segments(vestel_table(), dec.len(), vestel_table().len())))
                } else {
                    Ok((None, spec_segments(vestel_table(), data.len(), vestel_table().len())))
                },
            },
        }
    }
}

/// Plans the extraction of a Vestel image.
pub fn extract_vestel(ctx: &VestelCtx, data: &[u8], key_hex: Option<&str>) -> (r: Result<
    VestelOutput,
    VestelError,
>)
    ensures
        match spec_extract_vestel(*ctx, data@, match key_hex { Some(k) => Some(k@), None => None }) {
            Ok((dec, segs)) => r matches Ok(o) && Seq::new(
                o.segments@.len(),
                |i: int| segment_view(o.segments@[i]),
            ) == segs && match dec {
                Some(d) => o.decrypted matches Some(v) && v@ == d,
                None => o.decrypted is None,
            },
            Err(e) => r matches Err(x) && x == e,
        },
{
    if ctx.variant == VestelVariant::Mb230 {
        return Ok(VestelOutput { decrypted: None, segments: segments(true, data.len()) });
    }
    let k = match key_hex {
        None => {
            return Err(VestelError::KeyNotFound);
        },
        Some(k) => k,
    };
    let key_vec = match hex_decode(k) {
        Err(e) => {
            return Err(VestelError::InvalidHexKey(e));
        },
        Ok(v) => v,
    };
    if key_vec.len() != 16 {
        return Err(VestelError::InvalidKeyLength);
    }
    let key = key16(&key_vec);
    if ctx.is_encrypted {
        let dec = match decrypt_aes128_ecb(&key, data) {
            Ok(d) => d,
            // Not taken: AES-ECB decryption cannot fail.
            Err(_) => Vec::new(),
        };
        let segs = segments(false, dec.len());
        Ok(VestelOutput { decrypted: Some(dec), segments: segs })
    } else {
        Ok(VestelOutput { decrypted: None, segments: segments(false, data.len()) })
    }
}

/// Every segment cut out of an image of `len` bytes is a nonempty range
/// inside it, whichever layout is used.
pub proof fn lemma_segments_inside(table: Seq<(Seq<char>, usize, usize)>, len: nat, n: nat)
    requires
        n <= table.len(),
        forall|i: int| 0 <= i < table.len() ==> (#[trigger] table[i]).2 > 0,
    ensures
        forall|k: int|
            0 <= k < spec_segments(table, len, n).len() ==> {
                let s = #[trigger] spec_segments(table, len, n)[k];
                0 <= s.1 < s.2 <= len
            },
    decreases n,
{
    if n > 0 {
        lemma_segments_inside(table, len, (n - 1) as nat);
        let prev = spec_segments(table, len, (n - 1) as nat);
        let cur = spec_segments(table, len, n);
        assert(table[n - 1].2 > 0);
        assert forall|k: int| 0 <= k < cur.len() implies {
            let s = #[trigger] cur[k];
            0 <= s.1 < s.2 <= len
        } by {
            if k < prev.len() {
                assert(cur[k] == prev[k]);
            }
        }
    }
}

/// The two layouts have only nonempty entries.
pub proof fn lemma_layouts_nonempty()
    ensures
        forall|i: int| 0 <= i < vestel_table().len() ==> (#[trigger] vestel_table()[i]).2 > 0,
        forall|i: int| 0 <= i < mb230_table().len() ==> (#[trigger] mb230_table()[i]).2 > 0,
{
}

} // verus!

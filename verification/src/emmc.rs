//! Raw eMMC images: GPT-partitioned images and user areas with `0x5840`
//! partition descriptors.

use vstd::prelude::*;
use crate::bytes::{le32, le64, match_at, spec_le16, spec_le32, spec_le64, bytes_match_at};
use crate::text::{
    char_from_u32, is_alphanumeric, spec_is_whitespace, spec_trim, string_from_chars, trim,
    unicode_alphanumeric,
};

verus! {

pub const SECTOR_SIZE: u64 = 512;
pub const GPT_HEADER_LBA: u64 = 1;
pub const GPT_HEADER_SIZE: usize = 92;
pub const MAX_GPT_ENTRIES: usize = 128;

/// One GPT partition.
#[derive(Debug)]
pub struct GptPartition {
    pub name: String,
    pub start_lba: u64,
    pub end_lba: u64,
}

impl GptPartition {
    /// Byte offset of the partition.
    pub fn offset(&self) -> (r: u64)
        requires
            self.start_lba * SECTOR_SIZE <= u64::MAX,
        ensures
            r == self.start_lba * SECTOR_SIZE,
    {
        self.start_lba * SECTOR_SIZE
    }

    /// Byte size of the partition (its last LBA included).
    pub fn size(&self) -> (r: u64)
        requires
            self.start_lba <= self.end_lba,
            (self.end_lba - self.start_lba + 1) * SECTOR_SIZE <= u64::MAX,
        ensures
            r == (self.end_lba - self.start_lba + 1) * SECTOR_SIZE,
    {
        (self.end_lba - self.start_lba + 1) * SECTOR_SIZE
    }
}

/// The character of a UTF-16 code unit: `?` for a surrogate.
pub open spec fn unit_char(u: u16) -> char {
    if is_scalar_value_u16(u) {
        (u as u32) as char
    } else {
        '?'
    }
}

/// A UTF-16 code unit that is not a surrogate.
pub open spec fn is_scalar_value_u16(u: u16) -> bool {
    u < 0xD800 || 0xE000 <= u
}

/// The characters of a UTF-16LE name: one per code unit, up to the first
/// zero unit.
pub open spec fn utf16_name(raw: Seq<u8>, k: nat) -> Seq<char>
    decreases k,
{
    if k == 0 {
        Seq::empty()
    } else {
        let prev = utf16_name(raw, (k - 1) as nat);
        if prev.len() < k - 1 {
            prev
        } else {
            let u = spec_le16(raw, 2 * (k - 1));
            if u == 0 {
                prev
            } else {
                prev.push(unit_char(u as u16))
            }
        }
    }
}

/// Keeps the characters that are alphanumeric, `_`, `-` or `.`.
pub open spec fn keep_name_chars(s: Seq<char>) -> Seq<char>
    decreases s.len(),
{
    if s.len() == 0 {
        s
    } else {
        let prev = keep_name_chars(s.drop_last());
        let c = s.last();
        if unicode_alphanumeric(c) || c == '_' || c == '-' || c == '.' {
            prev.push(c)
        } else {
            prev
        }
    }
}

/// The cleaned GPT partition name of a raw UTF-16LE name field.
pub open spec fn spec_gpt_name(raw: Seq<u8>) -> Seq<char> {
    let name = utf16_name(raw, raw.len() / 2);
    if spec_trim(name).len() == 0 {
        Seq::empty()
    } else {
        keep_name_chars(spec_trim(name))
    }
}

fn keep_chars(s: &[char]) -> (r: Vec<char>)
    ensures
        r@ == keep_name_chars(s@),
{
    let mut out: Vec<char> = Vec::new();
    let mut i: usize = 0;
    while i < s.len()
        invariant
            i <= s@.len(),
            out@ == keep_name_chars(s@.take(i as int)),
        decreases s@.len() - i,
    {
        assert(s@.take(i + 1).drop_last() =~= s@.take(i as int));
        let c = s[i];
        if is_alphanumeric(c) || c == '_' || c == '-' || c == '.' {
            out.push(c);
        }
        i += 1;
    }
    assert(s@.take(i as int) =~= s@);
    out
}

/// Decodes and cleans a UTF-16LE GPT partition name: code units up to the
/// first zero (surrogates become `?`); a name that is only white space is
/// empty; otherwise it is trimmed and keeps only alphanumerics, `_`, `-`
/// and `.`.
pub fn sanitize_name(raw: &[u8]) -> (r: String)
    requires
        raw@.len() % 2 == 0,
    ensures
        r@ == spec_gpt_name(raw@),
{
    let rlen = raw.len();
    let n = rlen / 2;
    let mut name: Vec<char> = Vec::new();
    let mut k: usize = 0;
    let mut stopped = false;
    while k < n
        invariant
            rlen == raw@.len(),
            n == raw@.len() / 2,
            k <= n,
            name@ == utf16_name(raw@, k as nat),
            stopped == (name@.len() < k),
            !stopped ==> name@.len() == k,
        decreases n - k,
    {
        if !stopped {
            let u = (raw[2 * k] as u16) + (raw[2 * k + 1] as u16) * 256;
            assert(u as int == spec_le16(raw@, 2 * k));
            if u == 0 {
                stopped = true;
            } else {
                let c = match char_from_u32(u as u32) {
                    Some(c) => c,
                    None => '?',
                };
                name.push(c);
            }
        }
        k += 1;
    }
    let t = trim(name.as_slice());
    if t.len() == 0 {
        let e: Vec<char> = Vec::new();
        return string_from_chars(e.as_slice());
    }
    let kept = keep_chars(t.as_slice());
    string_from_chars(kept.as_slice())
}

/// The GPT header signature `EFI PART`.
pub open spec fn efi_part() -> Seq<u8> {
    seq![0x45u8, 0x46u8, 0x49u8, 0x20u8, 0x50u8, 0x41u8, 0x52u8, 0x54u8]
}

/// Fields of a GPT header: entries LBA, first and last usable LBA, number of
/// entries and entry size.
pub open spec fn spec_gpt_header(data: Seq<u8>) -> Option<(u64, u64, u64, u32, u32)> {
    if data.len() < GPT_HEADER_SIZE || !bytes_match_at(data, 0, efi_part()) {
        None
    } else {
        Some(
            (
                spec_le64(data, 72) as u64,
                spec_le64(data, 40) as u64,
                spec_le64(data, 48) as u64,
                spec_le32(data, 80) as u32,
                spec_le32(data, 84) as u32,
            ),
        )
    }
}

/// Reads a GPT header: entries LBA, first usable LBA, last usable LBA,
/// number of entries and entry size.
pub fn parse_gpt_header(data: &[u8]) -> (r: Option<(u64, u64, u64, u32, u32)>)
    ensures
        r == spec_gpt_header(data@),
{
    let sig: [u8; 8] = [0x45, 0x46, 0x49, 0x20, 0x50, 0x41, 0x52, 0x54];
    assert(sig@ =~= efi_part());
    if data.len() < GPT_HEADER_SIZE || !match_at(data, 0, sig.as_slice()) {
        return None;
    }
    let entries_lba = le64(data, 72);
    let num_entries = le32(data, 80);
    let entry_size = le32(data, 84);
    let first_usable = le64(data, 40);
    let last_usable = le64(data, 48);
    Some((entries_lba, first_usable, last_usable, num_entries, entry_size))
}

/// A GPT partition as name, first LBA and last LBA.
pub open spec fn gpt_model(p: GptPartition) -> (Seq<char>, u64, u64) {
    (p.name@, p.start_lba, p.end_lba)
}

/// The bytes `s[off..off + 16]` are all zero.
pub open spec fn zero_guid(s: Seq<u8>, off: int) -> bool {
    forall|j: int| off <= j < off + 16 ==> s[j] == 0
}

/// The partitions listed from entry `i` on. The list ends at entry 128, at
/// the entry count, at the first unused entry, and at an entry that the
/// data holds only in part; entries with a zero LBA, an empty name or an
/// end beyond the image are skipped.
pub open spec fn gpt_scan(data: Seq<u8>, count: nat, esize: nat, fsize: nat, i: nat) -> Seq<
    (Seq<char>, u64, u64),
>
    decreases count - i,
{
    let off = (i * esize) as int;
    if i >= count || i >= MAX_GPT_ENTRIES || off + 32 > data.len() {
        Seq::empty()
    } else if zero_guid(data, off) {
        Seq::empty()
    } else if off + 128 > data.len() {
        Seq::empty()
    } else {
        let start = spec_le64(data, off + 32);
        let end = spec_le64(data, off + 40);
        let rest = gpt_scan(data, count, esize, fsize, i + 1);
        if start == 0 || end == 0 {
            rest
        } else {
            let name = spec_gpt_name(data.subrange(off + 56, off + 128));
            if name.len() == 0 {
                rest
            } else if (end + 1) * SECTOR_SIZE > fsize {
                rest
            } else {
                seq![(name, start as u64, end as u64)] + rest
            }
        }
    }
}

/// The models of GPT partitions.
pub open spec fn gpt_models(v: Seq<GptPartition>) -> Seq<(Seq<char>, u64, u64)> {
    Seq::new(v.len(), |i: int| gpt_model(v[i]))
}

proof fn lemma_zero_guid(data: Seq<u8>, off: int, k: int)
    requires
        0 <= off,
        off + 16 <= data.len(),
        0 <= k <= 16,
        forall|j: int| off <= j < off + k ==> data[j] == 0,
        k < 16 ==> data[off + k] != 0,
    ensures
        zero_guid(data, off) == (k == 16),
{
}

/// Reads up to 128 GPT entries: stops at the first unused entry (all-zero
/// type GUID), at the end of the data or at an entry cut short by it, and
/// skips entries with a zero LBA, an empty name, or an end beyond the image.
pub fn parse_gpt_entries(data: &[u8], entry_count: u32, entry_size: u32, file_size: u64) -> (r:
    Vec<GptPartition>)
    ensures
        gpt_scan(data@, entry_count as nat, entry_size as nat, file_size as nat, 0) == gpt_models(
            r@,
        ),
{
    let ghost cnt = entry_count as nat;
    let ghost es = entry_size as nat;
    let ghost fs = file_size as nat;
    let dlen = data.len();
    let len = dlen as u64;
    let mut out: Vec<GptPartition> = Vec::new();
    let mut i: u32 = 0;
    let mut stop = false;
    while i < entry_count && !stop
        invariant
            dlen == data@.len(),
            len == dlen,
            cnt == entry_count,
            es == entry_size,
            fs == file_size,
            i <= entry_count,
            gpt_scan(data@, cnt, es, fs, 0) == gpt_models(out@) + gpt_scan(data@, cnt, es, fs, i as nat),
            stop ==> gpt_scan(data@, cnt, es, fs, i as nat) == Seq::<(Seq<char>, u64, u64)>::empty(),
        decreases entry_count - i, if stop { 0int } else { 1int },
    {
        if i as usize >= MAX_GPT_ENTRIES {
            stop = true;
            continue;
        }
        assert((i as u64) * (entry_size as u64) <= 128 * 0xFFFF_FFFFu64) by (nonlinear_arith)
            requires
                i < 128,
        ;
        let off: u64 = (i as u64) * (entry_size as u64);
        assert(off == (i as nat) * es) by (nonlinear_arith)
            requires
                off == (i as u64) * (entry_size as u64),
                es == entry_size,
        ;
        if off + 32 > len {
            stop = true;
            continue;
        }
        let o = off as usize;
        let mut k: usize = 0;
        while k < 16 && data[o + k] == 0
            invariant
                dlen == data@.len(),
                o + 32 <= data@.len(),
                k <= 16,
                forall|j: int| o <= j < o + k ==> data@[j] == 0,
            decreases 16 - k,
        {
            k += 1;
        }
        proof {
            lemma_zero_guid(data@, o as int, k as int);
        }
        if k == 16 {
            stop = true;
            continue;
        }
        if off + 128 > len {
            stop = true;
            continue;
        }
        let ghost rest_i = gpt_scan(data@, cnt, es, fs, (i + 1) as nat);
        let ghost o0 = gpt_models(out@);
        let start_lba = le64(data, o + 32);
        let end_lba = le64(data, o + 40);
        if start_lba != 0 && end_lba != 0 {
            let raw = crate::bytes::copy_range(data, o + 56, o + 128);
            let name = sanitize_name(raw.as_slice());
            let name_chars = crate::text::chars_of(name.as_str());
            if name_chars.len() != 0 {
                if end_lba < 0x7F_FFFF_FFFF_FFFF {
                    let part_end = (end_lba + 1) * 512;
                    if part_end <= file_size {
                        let ghost m = (name@, start_lba, end_lba);
                        out.push(GptPartition { name, start_lba, end_lba });
                        assert(gpt_models(out@) =~= o0.push(m));
                        assert(o0 + (seq![m] + rest_i) =~= o0.push(m) + rest_i);
                    }
                } else {
                    assert((end_lba + 1) * SECTOR_SIZE > file_size) by (nonlinear_arith)
                        requires
                            end_lba >= 0x7F_FFFF_FFFF_FFFFu64,
                    ;
                }
            }
        }
        i += 1;
    }
    proof {
        assert(gpt_scan(data@, cnt, es, fs, i as nat) == Seq::<(Seq<char>, u64, u64)>::empty());
        assert(gpt_models(out@) + Seq::<(Seq<char>, u64, u64)>::empty() =~= gpt_models(out@));
    }
    out
}

/// The first sector is a protective MBR: boot signature `55 AA` and a
/// partition entry of type `0xEE`.
pub open spec fn spec_protective_mbr(mbr: Seq<u8>) -> bool {
    &&& mbr[0x1FE] == 0x55
    &&& mbr[0x1FF] == 0xAA
    &&& exists|k: int| 0 <= k < 4 && #[trigger] mbr[0x1BE + 16 * k + 4] == 0xEE
}

/// Checks the boot signature and the protective partition entry of an MBR.
pub fn check_protective_mbr(mbr: &[u8]) -> (r: bool)
    requires
        mbr@.len() >= 512,
    ensures
        r == spec_protective_mbr(mbr@),
{
    if mbr[0x1FE] != 0x55 || mbr[0x1FF] != 0xAA {
        return false;
    }
    let mut k: usize = 0;
    while k < 4
        invariant
            mbr@.len() >= 512,
            mbr@[0x1FE] == 0x55,
            mbr@[0x1FF] == 0xAA,
            k <= 4,
            forall|j: int| 0 <= j < k ==> #[trigger] mbr@[0x1BE + 16 * j + 4] != 0xEE,
        decreases 4 - k,
    {
        if mbr[0x1BE + 16 * k + 4] == 0xEE {
            assert(mbr@[0x1BE + 16 * (k as int) + 4] == 0xEE);
            return true;
        }
        k += 1;
    }
    false
}

/// Bytes scanned for user-area partition descriptors.
pub const TABLE_SCAN_BYTES: usize = 0x10000;
/// Size of one descriptor slot.
pub const ENTRY_SIZE: usize = 0x200;
/// Offset of the first descriptor slot.
pub const ENTRY_START: usize = 0x200;

/// The descriptor magic `40 58 00 00 00 00 00 00`.
pub open spec fn descriptor_magic() -> Seq<u8> {
    seq![0x40u8, 0x58u8, 0u8, 0u8, 0u8, 0u8, 0u8, 0u8]
}

/// One partition of a raw eMMC user area.
#[derive(Debug)]
pub struct Partition {
    pub name: String,
    pub start_sector: u32,
    pub length_sector: u32,
    pub table_offset: usize,
}

impl Partition {
    /// Byte offset of the partition.
    pub fn offset(&self) -> (r: u64)
        ensures
            r == self.start_sector * SECTOR_SIZE,
    {
        self.start_sector as u64 * SECTOR_SIZE
    }

    /// Byte size of the partition.
    pub fn size(&self) -> (r: u64)
        ensures
            r == self.length_sector * SECTOR_SIZE,
    {
        self.length_sector as u64 * SECTOR_SIZE
    }
}

/// A byte kept in a partition name: ASCII alphanumeric, `_`, `-` or `.`.
pub open spec fn name_byte(b: u8) -> bool {
    crate::text::spec_is_ascii_alphanumeric(b) || b == 0x5F || b == 0x2D || b == 0x2E
}

/// The name bytes of `raw`: those before its first NUL that are kept.
pub open spec fn kept_name_bytes(raw: Seq<u8>) -> Seq<u8>
    decreases raw.len(),
{
    if raw.len() == 0 {
        raw
    } else {
        let prev = kept_name_bytes(raw.drop_last());
        if name_byte(raw.last()) {
            prev.push(raw.last())
        } else {
            prev
        }
    }
}

/// The name of a descriptor: the kept bytes before the first NUL, as
/// characters.
pub open spec fn spec_decode_name(raw: Seq<u8>) -> Seq<char> {
    let k = kept_name_bytes(crate::pfl_upg::until_nul(raw));
    Seq::new(k.len(), |i: int| k[i] as char)
}

/// Decodes a NUL-terminated descriptor name, keeping ASCII alphanumerics,
/// `_`, `-` and `.`.
pub fn decode_name(raw: &[u8]) -> (r: String)
    ensures
        r@ == spec_decode_name(raw@),
{
    let end = crate::pfl_upg::nul_position(raw);
    let ghost u = raw@.take(end as int);
    let mut kept: Vec<u8> = Vec::new();
    let mut i: usize = 0;
    while i < end
        invariant
            end <= raw@.len(),
            u == raw@.take(end as int),
            i <= end,
            kept@ == kept_name_bytes(u.take(i as int)),
        decreases end - i,
    {
        assert(u.take(i + 1).drop_last() =~= u.take(i as int));
        assert(u.take(i + 1).last() == raw@[i as int]);
        let b = raw[i];
        if (0x30 <= b && b <= 0x39) || (0x41 <= b && b <= 0x5A) || (0x61 <= b && b <= 0x7A) || b
            == 0x5F || b == 0x2D || b == 0x2E {
            kept.push(b);
        }
        i += 1;
    }
    assert(u.take(i as int) =~= u);
    let mut chars: Vec<char> = Vec::new();
    let mut j: usize = 0;
    while j < kept.len()
        invariant
            j <= kept@.len(),
            chars@ == Seq::new(j as nat, |x: int| kept@[x] as char),
        decreases kept@.len() - j,
    {
        chars.push(kept[j] as char);
        j += 1;
        assert(chars@ =~= Seq::new(j as nat, |x: int| kept@[x] as char));
    }
    string_from_chars(chars.as_slice())
}

/// The descriptor slot offsets scanned in a table of `len` bytes:
/// `0x200, 0x400, ...` up to `len - 0x200`.
pub open spec fn slot_count(len: nat) -> nat {
    if len < 2 * ENTRY_SIZE {
        0
    } else {
        ((len - ENTRY_SIZE) as nat) / (ENTRY_SIZE as nat)
    }
}

/// A user-area partition as name, start sector, length and table offset.
pub open spec fn partition_model(p: Partition) -> (Seq<char>, u32, u32, usize) {
    (p.name@, p.start_sector, p.length_sector, p.table_offset)
}

/// The partitions described in the first `n` slots of `table`: slots with
/// the magic, nonzero start and length, a nonempty name, and an end within
/// `file_size`.
pub open spec fn spec_partitions(table: Seq<u8>, file_size: nat, n: nat) -> Seq<
    (Seq<char>, u32, u32, usize),
>
    decreases n,
{
    if n == 0 {
        Seq::empty()
    } else {
        let prev = spec_partitions(table, file_size, (n - 1) as nat);
        let off = ENTRY_START + (n - 1) * ENTRY_SIZE;
        if !bytes_match_at(table, off, descriptor_magic()) {
            prev
        } else {
            let start = spec_le32(table, off + 8);
            let length = spec_le32(table, off + 12);
            let name = spec_decode_name(table.subrange(off + 16, off + 32));
            if start == 0 || length == 0 || name.len() == 0 {
                prev
            } else if start * SECTOR_SIZE + length * SECTOR_SIZE > file_size {
                prev
            } else {
                prev.push((name, start as u32, length as u32, off as usize))
            }
        }
    }
}

/// The models of user-area partitions.
pub open spec fn partition_models(v: Seq<Partition>) -> Seq<(Seq<char>, u32, u32, usize)> {
    Seq::new(v.len(), |i: int| partition_model(v[i]))
}

/// Scans the descriptor slots of a user-area table (every 0x200 bytes from
/// 0x200) for partitions that fit in the image.
pub fn parse_partitions(table: &[u8], file_size: u64) -> (r: Vec<Partition>)
    ensures
        partition_models(r@) == spec_partitions(
            table@,
            file_size as nat,
            slot_count(table@.len()),
        ),
{
    let len = table.len();
    let magic: [u8; 8] = [0x40, 0x58, 0, 0, 0, 0, 0, 0];
    assert(magic@ =~= descriptor_magic());
    let n: usize = if len < 2 * ENTRY_SIZE {
        0
    } else {
        (len - ENTRY_SIZE) / ENTRY_SIZE
    };
    let mut out: Vec<Partition> = Vec::new();
    let mut k: usize = 0;
    while k < n
        invariant
            len == table@.len(),
            magic@ == descriptor_magic(),
            n == slot_count(len as nat),
            k <= n,
            partition_models(out@) == spec_partitions(table@, file_size as nat, k as nat),
        decreases n - k,
    {
        assert(ENTRY_START + k * ENTRY_SIZE + ENTRY_SIZE <= len) by (nonlinear_arith)
            requires
                k < n,
                n == (len - 512) / 512,
                len >= 1024,
        ;
        let off = ENTRY_START + k * ENTRY_SIZE;
        let ghost o0 = partition_models(out@);
        if match_at(table, off, magic.as_slice()) {
            let start_sector = le32(table, off + 8);
            let length_sector = le32(table, off + 12);
            let raw = crate::bytes::copy_range(table, off + 16, off + 32);
            let name = decode_name(raw.as_slice());
            let name_chars = crate::text::chars_of(name.as_str());
            if start_sector != 0 && length_sector != 0 && name_chars.len() != 0 {
                let pend = start_sector as u64 * 512 + length_sector as u64 * 512;
                if pend <= file_size {
                    let ghost m = (name@, start_sector, length_sector, off);
                    out.push(Partition { name, start_sector, length_sector, table_offset: off });
                    assert(partition_models(out@) =~= o0.push(m));
                }
            }
        }
        k += 1;
    }
    out
}

/// Every GPT partition listed lies inside the image: its first and last
/// LBA are nonzero, its name is not empty, and it ends within `fsize`
/// bytes.
pub proof fn lemma_gpt_partitions_fit(data: Seq<u8>, count: nat, esize: nat, fsize: nat, i: nat)
    ensures
        forall|k: int|
            0 <= k < gpt_scan(data, count, esize, fsize, i).len() ==> {
                let p = #[trigger] gpt_scan(data, count, esize, fsize, i)[k];
                p.0.len() > 0 && p.1 != 0 && p.2 != 0 && (p.2 + 1) * SECTOR_SIZE <= fsize
            },
    decreases count - i,
{
    let off = (i * esize) as int;
    if i >= count || i >= MAX_GPT_ENTRIES || off + 32 > data.len() {
    } else if zero_guid(data, off) {
    } else if off + 128 > data.len() {
    } else {
        lemma_gpt_partitions_fit(data, count, esize, fsize, i + 1);
        let rest = gpt_scan(data, count, esize, fsize, i + 1);
        let start = spec_le64(data, off + 32);
        let end = spec_le64(data, off + 40);
        if start != 0 && end != 0 {
            let name = spec_gpt_name(data.subrange(off + 56, off + 128));
            if name.len() != 0 && (end + 1) * SECTOR_SIZE <= fsize {
                let ps = seq![(name, start as u64, end as u64)] + rest;
                assert forall|k: int| 0 <= k < ps.len() implies {
                    let p = #[trigger] ps[k];
                    p.0.len() > 0 && p.1 != 0 && p.2 != 0 && (p.2 + 1) * SECTOR_SIZE <= fsize
                } by {
                    if k > 0 {
                        assert(ps[k] == rest[k - 1]);
                    }
                }
            }
        }
    }
}

/// Entry `j` of a GPT entry array is read and in use: it lies within the
/// entry count, the first 128 entries and the data, and its type GUID is
/// not all zero.
pub open spec fn gpt_entry_live(data: Seq<u8>, count: nat, esize: nat, j: nat) -> bool {
    &&& j < count
    &&& j < MAX_GPT_ENTRIES
    &&& j * esize + 128 <= data.len()
    &&& !zero_guid(data, (j * esize) as int)
}

/// Entry `j` describes a partition to extract: nonzero first and last LBA,
/// a name that is not empty once cleaned, and an end within `fsize` bytes.
pub open spec fn gpt_entry_qualifies(data: Seq<u8>, esize: nat, fsize: nat, j: nat) -> bool {
    let off = (j * esize) as int;
    &&& spec_le64(data, off + 32) != 0
    &&& spec_le64(data, off + 40) != 0
    &&& spec_gpt_name(data.subrange(off + 56, off + 128)).len() > 0
    &&& (spec_le64(data, off + 40) + 1) * SECTOR_SIZE <= fsize
}

/// Name, first LBA and last LBA of entry `j`.
pub open spec fn gpt_entry(data: Seq<u8>, esize: nat, j: nat) -> (Seq<char>, u64, u64) {
    let off = (j * esize) as int;
    (
        spec_gpt_name(data.subrange(off + 56, off + 128)),
        spec_le64(data, off + 32) as u64,
        spec_le64(data, off + 40) as u64,
    )
}

proof fn lemma_gpt_scan_contains(data: Seq<u8>, count: nat, esize: nat, fsize: nat, i: nat, k: nat)
    requires
        i <= k,
        forall|j: nat| i <= j <= k ==> #[trigger] gpt_entry_live(data, count, esize, j),
        gpt_entry_qualifies(data, esize, fsize, k),
    ensures
        gpt_scan(data, count, esize, fsize, i).contains(gpt_entry(data, esize, k)),
    decreases k - i,
{
    assert(gpt_entry_live(data, count, esize, i));
    let cur = gpt_scan(data, count, esize, fsize, i);
    let rest = gpt_scan(data, count, esize, fsize, i + 1);
    if i == k {
        assert(cur == seq![gpt_entry(data, esize, k)] + rest);
        assert(cur[0] == gpt_entry(data, esize, k));
    } else {
        lemma_gpt_scan_contains(data, count, esize, fsize, i + 1, k);
        let w = choose|w: int| 0 <= w < rest.len() && rest[w] == gpt_entry(data, esize, k);
        if cur != rest {
            let off = (i * esize) as int;
            let x = (spec_gpt_name(data.subrange(off + 56, off + 128)), spec_le64(data, off + 32) as u64, spec_le64(data, off + 40) as u64);
            assert(cur == seq![x] + rest);
            assert(cur[w + 1] == rest[w]);
        }
    }
}

/// The GPT entry scan misses no partition: every entry that qualifies, with
/// every entry up to it read and in use, is listed (so a table of several
/// partitions lists them all, not just the first).
pub proof fn lemma_gpt_lists_every_partition(data: Seq<u8>, count: nat, esize: nat, fsize: nat, k: nat)
    requires
        forall|j: nat| j <= k ==> #[trigger] gpt_entry_live(data, count, esize, j),
        gpt_entry_qualifies(data, esize, fsize, k),
    ensures
        gpt_scan(data, count, esize, fsize, 0).contains(gpt_entry(data, esize, k)),
{
    lemma_gpt_scan_contains(data, count, esize, fsize, 0, k);
}

/// Every user-area partition listed lies inside the image: nonzero start
/// and length, a name, and an end within `file_size` bytes.
pub proof fn lemma_userarea_partitions_fit(table: Seq<u8>, file_size: nat, n: nat)
    ensures
        forall|k: int|
            0 <= k < spec_partitions(table, file_size, n).len() ==> {
                let p = #[trigger] spec_partitions(table, file_size, n)[k];
                p.0.len() > 0 && p.1 != 0 && p.2 != 0 && p.1 * SECTOR_SIZE + p.2 * SECTOR_SIZE
                    <= file_size
            },
    decreases n,
{
    if n > 0 {
        lemma_userarea_partitions_fit(table, file_size, (n - 1) as nat);
        let prev = spec_partitions(table, file_size, (n - 1) as nat);
        let cur = spec_partitions(table, file_size, n);
        assert forall|k: int| 0 <= k < cur.len() implies {
            let p = #[trigger] cur[k];
            p.0.len() > 0 && p.1 != 0 && p.2 != 0 && p.1 * SECTOR_SIZE + p.2 * SECTOR_SIZE
                <= file_size
        } by {
            if k < prev.len() {
                assert(cur[k] == prev[k]);
            }
        }
    }
}

} // verus!

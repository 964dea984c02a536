//! GPT-partitioned eMMC images: detection from the first sectors, and what
//! an extraction writes.

use vstd::prelude::*;
use crate::emmc::{
    GptPartition, SECTOR_SIZE, spec_gpt_header, parse_gpt_header, gpt_scan, gpt_models,
    parse_gpt_entries, spec_protective_mbr, check_protective_mbr,
};
use crate::fmt::{spec_dec, spec_hex_lower, dec, hex_lower};
use crate::script::{lines_text, emit};
use crate::error::UnixtractError;
use crate::text::{chars_of, push_all, push_str, string_from_chars, unicode_alphanumeric, is_alphanumeric};

verus! {

/// A region of the input to copy into a file of the output directory.
pub struct CopyOut {
    pub file_name: String,
    pub offset: u64,
    pub size: u64,
}

/// Name, offset and size of a copy.
pub open spec fn copy_view(c: CopyOut) -> (Seq<char>, u64, u64) {
    (c.file_name@, c.offset, c.size)
}

/// The views of a list of copies.
pub open spec fn copy_views(v: Seq<CopyOut>) -> Seq<(Seq<char>, u64, u64)> {
    Seq::new(v.len(), |i: int| copy_view(v[i]))
}

/// An image size that can hold a GPT: at least two sectors, whole sectors.
pub open spec fn gpt_disk_size_ok(file_size: u64) -> bool {
    file_size >= 2 * SECTOR_SIZE && file_size % SECTOR_SIZE == 0
}

/// `a * b`, or `usize::MAX` when that does not fit.
pub open spec fn saturating_mul(a: int, b: int) -> usize {
    if a * b > usize::MAX {
        usize::MAX
    } else {
        (a * b) as usize
    }
}

/// Where the entry array of the GPT header `gpt` lies: its byte offset and
/// the bytes of at most 128 entries; `None` for no header, or for an
/// offset that does not fit in 64 bits.
pub open spec fn spec_entries_range(gpt: Seq<u8>) -> Option<(u64, usize)> {
    match spec_gpt_header(gpt) {
        None => None,
        Some((lba, _, _, num, esize)) => if lba * SECTOR_SIZE > u64::MAX {
            None
        } else {
            Some(
                (
                    (lba * SECTOR_SIZE) as u64,
                    saturating_mul(if num < 128 { num as int } else { 128 }, esize as int),
                ),
            )
        },
    }
}

/// The byte range of the entry array that the GPT header `gpt` points to.
pub fn gpt_entries_range(gpt: &[u8]) -> (r: Option<(u64, usize)>)
    ensures
        r == spec_entries_range(gpt@),
{
    match parse_gpt_header(gpt) {
        None => None,
        Some((lba, _first, _last, num, esize)) => {
            if lba > u64::MAX / SECTOR_SIZE {
                return None;
            }
            let count: usize = if num < 128 {
                num as usize
            } else {
                128
            };
            assert((count as u64) * (esize as u64) <= 128 * 0xFFFF_FFFFu64) by (nonlinear_arith)
                requires
                    count <= 128,
            ;
            let product: u64 = (count as u64) * (esize as u64);
            let bytes: usize = if product > usize::MAX as u64 {
                usize::MAX
            } else {
                product as usize
            };
            Some((lba * SECTOR_SIZE, bytes))
        },
    }
}

/// The partitions of a GPT image with `file_size` bytes, from its first
/// sector `mbr`, its header `gpt` and its entry array `entries`: `None`
/// unless the size, the protective MBR and the header check out and some
/// partition is listed.
pub open spec fn spec_is_emmc_gpt(file_size: u64, mbr: Seq<u8>, gpt: Seq<u8>, entries: Seq<u8>) -> Option<
    Seq<(Seq<char>, u64, u64)>,
> {
    if !gpt_disk_size_ok(file_size) || !spec_protective_mbr(mbr) {
        None
    } else {
        match spec_gpt_header(gpt) {
            None => None,
            Some(h) => {
                let p = gpt_scan(entries, h.3 as nat, h.4 as nat, file_size as nat, 0);
                if p.len() > 0 {
                    Some(p)
                } else {
                    None
                }
            },
        }
    }
}

/// Detects a GPT-partitioned eMMC image and lists its partitions.
pub fn is_emmc_gpt_file(file_size: u64, mbr: &[u8], gpt: &[u8], entries: &[u8]) -> (r: Option<
    Vec<GptPartition>,
>)
    requires
        gpt_disk_size_ok(file_size) ==> mbr@.len() >= 512,
    ensures
        match spec_is_emmc_gpt(file_size, mbr@, gpt@, entries@) {
            None => r is None,
            Some(p) => r matches Some(v) && gpt_models(v@) == p,
        },
{
    if file_size < SECTOR_SIZE * 2 || file_size % SECTOR_SIZE != 0 {
        return None;
    }
    if !check_protective_mbr(mbr) {
        return None;
    }
    match parse_gpt_header(gpt) {
        None => None,
        Some((_lba, _first, _last, num, esize)) => {
            let parts = parse_gpt_entries(entries, num, esize, file_size);
            if parts.len() == 0 {
                None
            } else {
                Some(parts)
            }
        },
    }
}

/// A partition name made safe as a file name: characters other than
/// alphanumerics, `_` and `-` become `_`.
pub open spec fn spec_safe_name(name: Seq<char>) -> Seq<char> {
    Seq::new(
        name.len(),
        |i: int|
            if unicode_alphanumeric(name[i]) || name[i] == '_' || name[i] == '-' {
                name[i]
            } else {
                '_'
            },
    )
}

fn safe_name(name: &String) -> (r: Vec<char>)
    ensures
        r@ == spec_safe_name(name@),
{
    let cs = chars_of(name.as_str());
    let mut out: Vec<char> = Vec::new();
    let mut i: usize = 0;
    while i < cs.len()
        invariant
            i <= cs@.len(),
            out@ == spec_safe_name(cs@).take(i as int),
        decreases cs@.len() - i,
    {
        let c = cs[i];
        if is_alphanumeric(c) || c == '_' || c == '-' {
            out.push(c);
        } else {
            out.push('_');
        }
        i += 1;
        assert(out@ =~= spec_safe_name(cs@).take(i as int));
    }
    assert(spec_safe_name(cs@).take(cs@.len() as int) =~= spec_safe_name(cs@));
    out
}

/// The partitions can be located: each starts no later than it ends, and
/// its end fits in 64 bits.
pub open spec fn gpt_extents_ok(v: Seq<GptPartition>) -> bool {
    forall|i: int|
        0 <= i < v.len() ==> #[trigger] v[i].start_lba <= v[i].end_lba && (v[i].end_lba + 1)
            * SECTOR_SIZE <= u64::MAX
}

/// The copy that extracts a partition: `<safe name>.bin`, from its first
/// LBA through its last.
pub open spec fn gpt_copy(p: GptPartition) -> (Seq<char>, u64, u64) {
    (
        spec_safe_name(p.name@) + ".bin"@,
        (p.start_lba * SECTOR_SIZE) as u64,
        ((p.end_lba - p.start_lba + 1) * SECTOR_SIZE) as u64,
    )
}

/// One row of partition_map.txt.
pub open spec fn gpt_map_row(p: GptPartition) -> Seq<char> {
    p.name@ + "\t"@ + spec_dec(p.start_lba as nat) + "\t"@ + spec_dec(p.end_lba as nat) + "\t0x"@
        + spec_hex_lower((p.start_lba * SECTOR_SIZE) as nat) + "\t"@ + spec_dec(
        ((p.end_lba - p.start_lba + 1) * SECTOR_SIZE) as nat,
    )
}

/// The rows of partition_map.txt for the first `n` partitions.
pub open spec fn gpt_map_rows(v: Seq<GptPartition>, n: nat) -> Seq<Seq<char>>
    decreases n,
{
    if n == 0 {
        Seq::empty()
    } else {
        gpt_map_rows(v, (n - 1) as nat).push(gpt_map_row(v[n - 1]))
    }
}

/// The text of partition_map.txt.
pub open spec fn spec_gpt_partition_map(v: Seq<GptPartition>) -> Seq<char> {
    lines_text(seq!["name\tstart_lba\tend_lba\toffset\tsize"@] + gpt_map_rows(v, v.len()))
}

/// The text of partition_map.txt: a header, then name, first and last LBA,
/// offset and size of each partition.
pub fn write_partition_map(partitions: &[GptPartition]) -> (r: String)
    requires
        gpt_extents_ok(partitions@),
    ensures
        r@ == spec_gpt_partition_map(partitions@),
{
    let mut out: Vec<char> = Vec::new();
    emit(&mut out, chars_of("name\tstart_lba\tend_lba\toffset\tsize").as_slice());
    assert(out@ =~= lines_text(seq!["name\tstart_lba\tend_lba\toffset\tsize"@])) by {
        reveal_with_fuel(lines_text, 2);
    }
    let n = partitions.len();
    let mut i: usize = 0;
    while i < n
        invariant
            n == partitions@.len(),
            i <= n,
            gpt_extents_ok(partitions@),
            out@ == lines_text(seq!["name\tstart_lba\tend_lba\toffset\tsize"@] + gpt_map_rows(
                partitions@,
                i as nat,
            )),
        decreases n - i,
    {
        let p = &partitions[i];
        assert(p.start_lba <= p.end_lba && (p.end_lba + 1) * SECTOR_SIZE <= u64::MAX);
        let mut row = chars_of(p.name.as_str());
        push_str(&mut row, "\t");
        push_all(&mut row, dec(p.start_lba).as_slice());
        push_str(&mut row, "\t");
        push_all(&mut row, dec(p.end_lba).as_slice());
        push_str(&mut row, "\t0x");
        push_all(&mut row, hex_lower(p.offset()).as_slice());
        push_str(&mut row, "\t");
        push_all(&mut row, dec(p.size()).as_slice());
        assert(row@ =~= gpt_map_row(*p));
        let ghost before = seq!["name\tstart_lba\tend_lba\toffset\tsize"@] + gpt_map_rows(
            partitions@,
            i as nat,
        );
        emit(&mut out, row.as_slice());
        i += 1;
        proof {
            let after = seq!["name\tstart_lba\tend_lba\toffset\tsize"@] + gpt_map_rows(
                partitions@,
                i as nat,
            );
            assert(after =~= before.push(gpt_map_row(partitions@[i - 1])));
            assert(after.drop_last() =~= before);
        }
    }
    string_from_chars(out.as_slice())
}

/// Whether every partition can be located.
fn extents_ok(partitions: &[GptPartition]) -> (r: bool)
    ensures
        r == gpt_extents_ok(partitions@),
{
    let n = partitions.len();
    let mut i: usize = 0;
    while i < n
        invariant
            n == partitions@.len(),
            i <= n,
            forall|j: int| 0 <= j < i ==> #[trigger] partitions@[j].start_lba <= partitions@[j].end_lba
                && (partitions@[j].end_lba + 1) * SECTOR_SIZE <= u64::MAX,
        decreases n - i,
    {
        let p = &partitions[i];
        if p.start_lba > p.end_lba || p.end_lba >= 0x7F_FFFF_FFFF_FFFF {
            proof {
                if p.start_lba <= p.end_lba {
                    assert((p.end_lba + 1) * SECTOR_SIZE > u64::MAX) by (nonlinear_arith)
                        requires
                            p.end_lba >= 0x7F_FFFF_FFFF_FFFFu64,
                    ;
                }
                assert(!(partitions@[i as int].start_lba <= partitions@[i as int].end_lba && (
                partitions@[i as int].end_lba + 1) * SECTOR_SIZE <= u64::MAX));
            }
            return false;
        }
        assert((p.end_lba + 1) * SECTOR_SIZE <= u64::MAX) by (nonlinear_arith)
            requires
                p.end_lba < 0x7F_FFFF_FFFF_FFFFu64,
        ;
        i += 1;
    }
    true
}

/// The message for a partition that cannot be located.
pub open spec fn bad_extent_message() -> Seq<char> {
    "GPT partition has an invalid LBA range"@
}

/// What extracting a GPT image writes: each partition copied to
/// `<safe name>.bin`, and the text of partition_map.txt (the first 64 KiB
/// of the image are also saved as partition_table.bin); an error when a
/// partition ends before it starts or its end does not fit in 64 bits.
pub fn extract_emmc_gpt(partitions: &[GptPartition]) -> (r: Result<(Vec<CopyOut>, String), UnixtractError>)
    ensures
        gpt_extents_ok(partitions@) ==> (r matches Ok(v) && copy_views(v.0@) == Seq::new(
            partitions@.len(),
            |i: int| gpt_copy(partitions@[i]),
        ) && v.1@ == spec_gpt_partition_map(partitions@)),
        !gpt_extents_ok(partitions@) ==> (r matches Err(UnixtractError::InvalidFormat(m)) && m@
            == bad_extent_message()),
{
    if !extents_ok(partitions) {
        let m = chars_of("GPT partition has an invalid LBA range");
        return Err(UnixtractError::InvalidFormat(string_from_chars(m.as_slice())));
    }
    let mut copies: Vec<CopyOut> = Vec::new();
    let n = partitions.len();
    let mut i: usize = 0;
    while i < n
        invariant
            n == partitions@.len(),
            i <= n,
            gpt_extents_ok(partitions@),
            copies@.len() == i,
            copy_views(copies@) == Seq::new(i as nat, |j: int| gpt_copy(partitions@[j])),
        decreases n - i,
    {
        let p = &partitions[i];
        assert(p.start_lba <= p.end_lba && (p.end_lba + 1) * SECTOR_SIZE <= u64::MAX);
        let mut name = safe_name(&p.name);
        push_str(&mut name, ".bin");
        let ghost c0 = copies@;
        let c = CopyOut { file_name: string_from_chars(name.as_slice()), offset: p.offset(), size: p.size() };
        assert(copy_view(c) == gpt_copy(partitions@[i as int]));
        copies.push(c);
        proof {
            assert forall|j: int| 0 <= j < i implies copy_view(copies@[j]) == gpt_copy(partitions@[j]) by {
                assert(copies@[j] == c0[j]);
                assert(copy_views(c0)[j] == copy_view(c0[j]));
                assert(copy_views(c0)[j] == gpt_copy(partitions@[j]));
            }
        }
        i += 1;
        assert(copy_views(copies@) =~= Seq::new(i as nat, |j: int| gpt_copy(partitions@[j])));
    }
    let map = write_partition_map(partitions);
    Ok((copies, map))
}

} // verus!

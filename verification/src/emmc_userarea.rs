//! Raw eMMC user areas with partition descriptors: detection from the
//! first 64 KiB, and what an extraction writes.

use vstd::prelude::*;
use crate::emmc::{
    Partition, SECTOR_SIZE, TABLE_SCAN_BYTES, parse_partitions, partition_models, spec_partitions,
    slot_count,
};
use crate::emmc_gpt::{CopyOut, copy_view, copy_views};
use crate::fmt::{spec_dec, spec_hex_lower, dec, hex_lower};
use crate::script::{lines_text, emit};
use crate::text::{chars_of, push_all, push_str, string_from_chars};

verus! {

/// The partitions of a user-area image with `file_size` bytes whose first
/// 64 KiB are `table`: `None` unless the size is at least 64 KiB of whole
/// sectors and some descriptor lists a partition.
pub open spec fn spec_is_emmc_userarea(file_size: u64, table: Seq<u8>) -> Option<
    Seq<(Seq<char>, u32, u32, usize)>,
> {
    if file_size < TABLE_SCAN_BYTES || file_size % SECTOR_SIZE != 0 {
        None
    } else {
        let p = spec_partitions(table, file_size as nat, slot_count(table.len()));
        if p.len() > 0 {
            Some(p)
        } else {
            None
        }
    }
}

/// Detects a raw eMMC user area and lists its partitions.
pub fn is_emmc_userarea_file(file_size: u64, table: &[u8]) -> (r: Option<Vec<Partition>>)
    ensures
        match spec_is_emmc_userarea(file_size, table@) {
            None => r is None,
            Some(p) => r matches Some(v) && partition_models(v@) == p,
        },
{
    if file_size < TABLE_SCAN_BYTES as u64 || file_size % SECTOR_SIZE != 0 {
        return None;
    }
    let entries = parse_partitions(table, file_size);
    if entries.len() == 0 {
        None
    } else {
        Some(entries)
    }
}

/// The copy that extracts a partition: `<name>.bin`, from its start sector
/// for its length.
pub open spec fn userarea_copy(p: Partition) -> (Seq<char>, u64, u64) {
    (p.name@ + ".bin"@, (p.start_sector * SECTOR_SIZE) as u64, (p.length_sector * SECTOR_SIZE) as u64)
}

/// One row of partition_map.txt.
pub open spec fn userarea_map_row(p: Partition) -> Seq<char> {
    p.name@ + "\t0x"@ + spec_hex_lower(p.table_offset as nat) + "\t0x"@ + spec_hex_lower(
        p.start_sector as nat,
    ) + "\t0x"@ + spec_hex_lower(p.length_sector as nat) + "\t0x"@ + spec_hex_lower(
        (p.start_sector * SECTOR_SIZE) as nat,
    ) + "\t"@ + spec_dec((p.length_sector * SECTOR_SIZE) as nat)
}

/// The rows of partition_map.txt for the first `n` partitions.
pub open spec fn userarea_map_rows(v: Seq<Partition>, n: nat) -> Seq<Seq<char>>
    decreases n,
{
    if n == 0 {
        Seq::empty()
    } else {
        userarea_map_rows(v, (n - 1) as nat).push(userarea_map_row(v[n - 1]))
    }
}

/// The header line of partition_map.txt.
pub open spec fn userarea_map_header() -> Seq<char> {
    "name\ttable_offset\tstart_sector\tlength_sector\toffset\tsize"@
}

/// The text of partition_map.txt.
pub open spec fn spec_userarea_partition_map(v: Seq<Partition>) -> Seq<char> {
    lines_text(seq![userarea_map_header()] + userarea_map_rows(v, v.len()))
}

/// The text of partition_map.txt: a header, then name, table offset, start
/// sector, length, offset and size of each partition.
pub fn write_partition_map(partitions: &[Partition]) -> (r: String)
    ensures
        r@ == spec_userarea_partition_map(partitions@),
{
    let mut out: Vec<char> = Vec::new();
    emit(&mut out, chars_of("name\ttable_offset\tstart_sector\tlength_sector\toffset\tsize").as_slice());
    assert(out@ =~= lines_text(seq![userarea_map_header()])) by {
        reveal_with_fuel(lines_text, 2);
    }
    let n = partitions.len();
    let mut i: usize = 0;
    while i < n
        invariant
            n == partitions@.len(),
            i <= n,
            out@ == lines_text(seq![userarea_map_header()] + userarea_map_rows(partitions@, i as nat)),
        decreases n - i,
    {
        let p = &partitions[i];
        let mut row = chars_of(p.name.as_str());
        push_str(&mut row, "\t0x");
        push_all(&mut row, hex_lower(p.table_offset as u64).as_slice());
        push_str(&mut row, "\t0x");
        push_all(&mut row, hex_lower(p.start_sector as u64).as_slice());
        push_str(&mut row, "\t0x");
        push_all(&mut row, hex_lower(p.length_sector as u64).as_slice());
        push_str(&mut row, "\t0x");
        push_all(&mut row, hex_lower(p.offset()).as_slice());
        push_str(&mut row, "\t");
        push_all(&mut row, dec(p.size()).as_slice());
        assert(row@ =~= userarea_map_row(*p));
        let ghost before = seq![userarea_map_header()] + userarea_map_rows(partitions@, i as nat);
        emit(&mut out, row.as_slice());
        i += 1;
        proof {
            let after = seq![userarea_map_header()] + userarea_map_rows(partitions@, i as nat);
            assert(after =~= before.push(userarea_map_row(partitions@[i - 1])));
            assert(after.drop_last() =~= before);
        }
    }
    string_from_chars(out.as_slice())
}

/// What extracting a user area writes: each partition copied to
/// `<name>.bin`, and the text of partition_map.txt. (The first 64 KiB of
/// the image are also saved as partition_table.bin.)
pub fn extract_emmc_userarea(partitions: &[Partition]) -> (r: (Vec<CopyOut>, String))
    ensures
        copy_views(r.0@) == Seq::new(partitions@.len(), |i: int| userarea_copy(partitions@[i])),
        r.1@ == spec_userarea_partition_map(partitions@),
{
    let mut copies: Vec<CopyOut> = Vec::new();
    let n = partitions.len();
    let mut i: usize = 0;
    while i < n
        invariant
            n == partitions@.len(),
            i <= n,
            copies@.len() == i,
            copy_views(copies@) == Seq::new(i as nat, |j: int| userarea_copy(partitions@[j])),
        decreases n - i,
    {
        let p = &partitions[i];
        let mut name = chars_of(p.name.as_str());
        push_str(&mut name, ".bin");
        let ghost c0 = copies@;
        let c = CopyOut { file_name: string_from_chars(name.as_slice()), offset: p.offset(), size: p.size() };
        assert(copy_view(c) == userarea_copy(partitions@[i as int]));
        copies.push(c);
        proof {
            assert forall|j: int| 0 <= j < i implies copy_view(copies@[j]) == userarea_copy(
                partitions@[j],
            ) by {
                assert(copies@[j] == c0[j]);
                assert(copy_views(c0)[j] == copy_view(c0[j]));
                assert(copy_views(c0)[j] == userarea_copy(partitions@[j]));
            }
        }
        i += 1;
        assert(copy_views(copies@) =~= Seq::new(i as nat, |j: int| userarea_copy(partitions@[j])));
    }
    let map = write_partition_map(partitions);
    (copies, map)
}

} // verus!

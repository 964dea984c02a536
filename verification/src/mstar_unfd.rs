//! MStar UNFD raw NAND dumps: the CIS header, the geometry derived from the
//! image size, the scan for markers, and the plan of the regions to carve.

use vstd::prelude::*;
use crate::bytes::{bytes_match_at, match_at, le32, spec_le32, copy_range};
use crate::pfl_upg::{until_nul, nul_position};
use crate::text::{lossy_string, utf8_lossy, chars_of, spec_trim, trim, string_from_chars, push_all, push_str};
use crate::fmt::{spec_dec, spec_hex_upper, spec_zero_pad, dec, hex_upper, zero_pad};
use crate::script::{lines_text, emit, lemma_lines_text_concat};
use crate::error::UnixtractError;

verus! {

/// Magic of the Card Information Structure, `MSTARSEMIUNFDCIS`.
pub open spec fn cis_magic() -> Seq<u8> {
    seq![
        0x4Du8, 0x53u8, 0x54u8, 0x41u8, 0x52u8, 0x53u8, 0x45u8, 0x4Du8,
        0x49u8, 0x55u8, 0x4Eu8, 0x46u8, 0x44u8, 0x43u8, 0x49u8, 0x53u8,
    ]
}

/// Marker before each firmware bank: seventeen `0x02` bytes and four `0x10`.
pub open spec fn bank_marker() -> Seq<u8> {
    Seq::new(21, |i: int| if i < 17 { 0x02u8 } else { 0x10u8 })
}

/// Magic of a UBI erase-counter header, `UBI#`.
pub open spec fn ubi_ec_magic() -> Seq<u8> {
    seq![0x55u8, 0x42u8, 0x49u8, 0x23u8]
}

fn cis_magic_bytes() -> (r: Vec<u8>)
    ensures
        r@ == cis_magic(),
{
    let r: Vec<u8> = vec![
        0x4D, 0x53, 0x54, 0x41, 0x52, 0x53, 0x45, 0x4D,
        0x49, 0x55, 0x4E, 0x46, 0x44, 0x43, 0x49, 0x53,
    ];
    assert(r@ =~= cis_magic());
    r
}

fn bank_marker_bytes() -> (r: Vec<u8>)
    ensures
        r@ == bank_marker(),
{
    let mut r: Vec<u8> = Vec::new();
    let mut i: usize = 0;
    while i < 21
        invariant
            i <= 21,
            r@ == bank_marker().take(i as int),
        decreases 21 - i,
    {
        if i < 17 {
            r.push(0x02);
        } else {
            r.push(0x10);
        }
        i += 1;
        assert(r@ =~= bank_marker().take(i as int));
    }
    assert(bank_marker().take(21) =~= bank_marker());
    r
}

fn ubi_ec_magic_bytes() -> (r: Vec<u8>)
    ensures
        r@ == ubi_ec_magic(),
{
    let r: Vec<u8> = vec![0x55, 0x42, 0x49, 0x23];
    assert(r@ =~= ubi_ec_magic());
    r
}

/// What the CIS header of a dump says, and what a scan of the image found.
#[derive(Debug)]
pub struct UnfdCisCtx {
    /// Raw CIS signature dword right after the magic.
    pub cis_signature: u32,
    /// NAND vendor string.
    pub vendor: String,
    /// NAND part number string.
    pub part_number: String,
    /// Logical page data size in bytes (no OOB included).
    pub page_size: u32,
    /// Spare/OOB size per page in bytes.
    pub spare_size: u32,
    /// Number of pages per erase block.
    pub pages_per_block: u32,
    /// Erase block size in bytes.
    pub block_size: u32,
    /// Number of erase blocks in the dump.
    pub block_count: u32,
    /// Image size in bytes.
    pub total_size: u64,
    /// Offsets of every CIS copy found in the image.
    pub cis_copies: Vec<usize>,
    /// Offsets of every firmware bank marker found in the image.
    pub bank_markers: Vec<usize>,
    /// Offset where the NAND payload starts (the first bank marker).
    pub data_start: usize,
}

/// Pages per block: the first of 64, 128, 32, 256, 512 whose block size
/// divides the image size, 64 when none does.
pub open spec fn spec_pages_per_block(total: u64) -> u32 {
    if (total as int) % (2048int * 64) == 0 {
        64
    } else if (total as int) % (2048int * 128) == 0 {
        128
    } else if (total as int) % (2048int * 32) == 0 {
        32
    } else if (total as int) % (2048int * 256) == 0 {
        256
    } else if (total as int) % (2048int * 512) == 0 {
        512
    } else {
        64
    }
}

/// The geometry derived from the image size: page size, spare size, pages
/// per block, block size and block count (the low 32 bits of the quotient).
pub open spec fn spec_geometry(total: u64) -> (u32, u32, u32, u32, u32) {
    let ppb = spec_pages_per_block(total);
    let block = 2048 * ppb;
    (
        2048,
        if (total as int) % 2048int != 0 { 64 } else { 0 },
        ppb,
        block as u32,
        ((total as int) / (block as int)) as u32,
    )
}

/// Derives the NAND geometry from the image size alone.
pub fn derive_geometry(total: u64) -> (r: (u32, u32, u32, u32, u32))
    ensures
        r == spec_geometry(total),
{
    let page: u32 = 2048;
    let spare: u32 = if total % (page as u64) != 0 { 64 } else { 0 };
    let ppb: u32 = if total % 131072 == 0 {
        64
    } else if total % 262144 == 0 {
        128
    } else if total % 65536 == 0 {
        32
    } else if total % 524288 == 0 {
        256
    } else if total % 1048576 == 0 {
        512
    } else {
        64
    };
    let block = page * ppb;
    #[verifier::truncate]
    let blocks = (total / (block as u64)) as u32;
    (page, spare, ppb, block, blocks)
}

/// A NUL-terminated, space-padded text field: the bytes before the first
/// NUL, decoded as lossy UTF-8, with surrounding white space removed.
pub open spec fn spec_cstr(b: Seq<u8>) -> Seq<char> {
    spec_trim(utf8_lossy(until_nul(b)))
}

/// Decodes a NUL-terminated, space-padded text field.
pub fn cstr(b: &[u8]) -> (r: String)
    ensures
        r@ == spec_cstr(b@),
{
    let end = nul_position(b);
    let raw = copy_range(b, 0, end);
    assert(raw@ =~= b@.take(end as int));
    let s = lossy_string(raw.as_slice());
    let cs = chars_of(s.as_str());
    let t = trim(cs.as_slice());
    string_from_chars(t.as_slice())
}

/// The first position at or after `start` where `needle` occurs in `hay`.
pub open spec fn first_match_from(hay: Seq<u8>, needle: Seq<u8>, start: int) -> Option<int>
    decreases hay.len() + 1 - start,
{
    if start < 0 || start + needle.len() > hay.len() {
        None
    } else if bytes_match_at(hay, start, needle) {
        Some(start)
    } else {
        first_match_from(hay, needle, start + 1)
    }
}

/// The first position at or after `start` where `needle` occurs.
fn find_from(hay: &[u8], needle: &[u8], start: usize) -> (r: Option<usize>)
    requires
        needle@.len() > 0,
    ensures
        r matches Some(i) ==> first_match_from(hay@, needle@, start as int) == Some(i as int),
        r is None ==> first_match_from(hay@, needle@, start as int) is None,
{
    let len = hay.len();
    let mut pos = start;
    while pos <= len && len - pos >= needle.len()
        invariant
            len == hay@.len(),
            needle@.len() > 0,
            start <= pos,
            first_match_from(hay@, needle@, start as int) == first_match_from(
                hay@,
                needle@,
                pos as int,
            ),
        decreases len + 1 - pos,
    {
        if match_at(hay, pos, needle) {
            return Some(pos);
        }
        pos += 1;
    }
    None
}

/// The first position where `needle` occurs in `haystack`.
pub fn find_sub(haystack: &[u8], needle: &[u8]) -> (r: Option<usize>)
    requires
        needle@.len() > 0,
    ensures
        r matches Some(i) ==> first_match_from(haystack@, needle@, 0) == Some(i as int),
        r is None ==> first_match_from(haystack@, needle@, 0) is None,
{
    if needle.len() > haystack.len() {
        return None;
    }
    find_from(haystack, needle, 0)
}

/// Every occurrence of `pat` in `data` at or after `pos`, in increasing
/// order.
pub open spec fn scan_from(data: Seq<u8>, pat: Seq<u8>, pos: int) -> Seq<int>
    decreases data.len() - pos,
{
    if pat.len() == 0 || pos < 0 || pos + pat.len() > data.len() {
        Seq::empty()
    } else if bytes_match_at(data, pos, pat) {
        seq![pos] + scan_from(data, pat, pos + 1)
    } else {
        scan_from(data, pat, pos + 1)
    }
}

/// The offsets that a scan of `data` for `pat` reports.
pub open spec fn spec_scan(data: Seq<u8>, pat: Seq<u8>) -> Seq<int> {
    scan_from(data, pat, 0)
}

/// A scan resumes at the first match after `pos`.
proof fn lemma_scan_first(data: Seq<u8>, pat: Seq<u8>, pos: int)
    requires
        pat.len() > 0,
        pos >= 0,
    ensures
        first_match_from(data, pat, pos) is None ==> scan_from(data, pat, pos) =~= Seq::<int>::empty(),
        first_match_from(data, pat, pos) matches Some(i) ==> scan_from(data, pat, pos) == seq![i]
            + scan_from(data, pat, i + 1),
        first_match_from(data, pat, pos) matches Some(i) ==> pos <= i && bytes_match_at(data, i, pat),
    decreases data.len() - pos,
{
    if pos + pat.len() > data.len() {
    } else if bytes_match_at(data, pos, pat) {
    } else {
        lemma_scan_first(data, pat, pos + 1);
    }
}

/// Every reported offset is an occurrence at or after `pos`, and the
/// offsets increase strictly.
pub proof fn lemma_scan_sound(data: Seq<u8>, pat: Seq<u8>, pos: int)
    requires
        pos >= 0,
    ensures
        forall|k: int|
            0 <= k < scan_from(data, pat, pos).len() ==> bytes_match_at(
                data,
                #[trigger] scan_from(data, pat, pos)[k],
                pat,
            ) && pos <= scan_from(data, pat, pos)[k],
        forall|k: int, l: int|
            0 <= k < l < scan_from(data, pat, pos).len() ==> #[trigger] scan_from(data, pat, pos)[k]
                < #[trigger] scan_from(data, pat, pos)[l],
    decreases data.len() - pos,
{
    if pat.len() == 0 || pos + pat.len() > data.len() {
    } else if bytes_match_at(data, pos, pat) {
        lemma_scan_sound(data, pat, pos + 1);
        let rest = scan_from(data, pat, pos + 1);
        assert(scan_from(data, pat, pos) == seq![pos] + rest);
        assert forall|k: int| 0 <= k < scan_from(data, pat, pos).len() implies bytes_match_at(
            data,
            #[trigger] scan_from(data, pat, pos)[k],
            pat,
        ) && pos <= scan_from(data, pat, pos)[k] by {
            if k > 0 {
                assert(scan_from(data, pat, pos)[k] == rest[k - 1]);
            }
        }
        assert forall|k: int, l: int|
            0 <= k < l < scan_from(data, pat, pos).len() implies #[trigger] scan_from(
                data,
                pat,
                pos,
            )[k] < #[trigger] scan_from(data, pat, pos)[l] by {
            if k > 0 {
                assert(rest[k - 1] < rest[l - 1]);
            } else {
                assert(pos + 1 <= rest[l - 1]);
            }
        }
    } else {
        lemma_scan_sound(data, pat, pos + 1);
        assert(scan_from(data, pat, pos) == scan_from(data, pat, pos + 1));
    }
}

/// Offsets of every occurrence of `pattern` in `data`, overlapping ones
/// included, in increasing order (none for an empty pattern).
pub fn scan_offsets(data: &[u8], pattern: &[u8]) -> (r: Vec<usize>)
    ensures
        r@.map_values(|o: usize| o as int) == spec_scan(data@, pattern@),
{
    let mut offsets: Vec<usize> = Vec::new();
    if pattern.len() == 0 {
        assert(offsets@.map_values(|o: usize| o as int) =~= spec_scan(data@, pattern@));
        return offsets;
    }
    let mut start: usize = 0;
    let dlen = data.len();
    loop
        invariant
            dlen == data@.len(),
            pattern@.len() > 0,
            start <= data@.len(),
            offsets@.map_values(|o: usize| o as int) + scan_from(data@, pattern@, start as int)
                == spec_scan(data@, pattern@),
        decreases data@.len() - start,
    {
        proof {
            lemma_scan_first(data@, pattern@, start as int);
        }
        match find_from(data, pattern, start) {
            None => {
                assert(offsets@.map_values(|o: usize| o as int) + scan_from(
                    data@,
                    pattern@,
                    start as int,
                ) =~= offsets@.map_values(|o: usize| o as int));
                return offsets;
            },
            Some(idx) => {
                assert(bytes_match_at(data@, idx as int, pattern@));
                let ghost old_offsets = offsets@;
                offsets.push(idx);
                assert(offsets@.map_values(|o: usize| o as int) =~= old_offsets.map_values(
                    |o: usize| o as int,
                ).push(idx as int));
                assert(offsets@.map_values(|o: usize| o as int) + scan_from(
                    data@,
                    pattern@,
                    idx + 1,
                ) =~= old_offsets.map_values(|o: usize| o as int) + scan_from(
                    data@,
                    pattern@,
                    start as int,
                ));
                start = idx + 1;
            },
        }
    }
}

/// The message for a CIS header that ends before its fields.
pub open spec fn truncated_cis_message() -> Seq<char> {
    "MStar UNFD CIS header is cut short"@
}

/// Reads the CIS header of a dump. `header` holds the first bytes of the
/// image (up to 512), `file_size` its full size. A header that does not
/// begin with the CIS magic is no UNFD dump; one that does holds the
/// signature and the vendor and part-number fields, and is an error when
/// it ends before them.
pub fn is_mstar_unfd_file(header: &[u8], file_size: u64) -> (r: Result<Option<UnfdCisCtx>, UnixtractError>)
    ensures
        !(header@.len() >= 16 && header@.subrange(0, 16) == cis_magic()) ==> r matches Ok(None),
        (header@.len() >= 16 && header@.subrange(0, 16) == cis_magic() && header@.len() < 0x64)
            ==> (r matches Err(UnixtractError::InvalidFormat(m)) && m@ == truncated_cis_message()),
        (header@.len() >= 16 && header@.subrange(0, 16) == cis_magic() && header@.len() >= 0x64)
            ==> r is Ok && r->Ok_0 is Some,
        r matches Ok(Some(c)) ==> {
            &&& header@.len() >= 0x64 && header@.subrange(0, 16) == cis_magic()
            &&& c.cis_signature == spec_le32(header@, 0x10)
            &&& c.vendor@ == spec_cstr(header@.subrange(0x40, 0x50))
            &&& c.part_number@ == spec_cstr(header@.subrange(0x50, 0x64))
            &&& (c.page_size, c.spare_size, c.pages_per_block, c.block_size, c.block_count)
                == spec_geometry(file_size)
            &&& c.total_size == file_size
            &&& c.cis_copies@.len() == 0
            &&& c.bank_markers@.len() == 0
            &&& c.data_start == 0
        },
{
    let magic = cis_magic_bytes();
    if header.len() < 16 || !match_at(header, 0, magic.as_slice()) {
        return Ok(None);
    }
    if header.len() < 0x64 {
        let m = chars_of("MStar UNFD CIS header is cut short");
        return Err(UnixtractError::InvalidFormat(string_from_chars(m.as_slice())));
    }
    let cis_signature = le32(header, 0x10);
    let vendor_raw = copy_range(header, 0x40, 0x50);
    let part_raw = copy_range(header, 0x50, 0x64);
    let vendor = cstr(vendor_raw.as_slice());
    let part_number = cstr(part_raw.as_slice());
    let (page_size, spare_size, pages_per_block, block_size, block_count) = derive_geometry(
        file_size,
    );
    Ok(Some(
        UnfdCisCtx {
            cis_signature,
            vendor,
            part_number,
            page_size,
            spare_size,
            pages_per_block,
            block_size,
            block_count,
            total_size: file_size,
            cis_copies: Vec::new(),
            bank_markers: Vec::new(),
            data_start: 0,
        },
    ))
}

/// The text of the cis_info.txt file: the header fields, the derived
/// geometry, the scan results and the carved regions.
pub open spec fn spec_head_lines(ctx: UnfdCisCtx) -> Seq<Seq<char>> {
    seq![
        "MStar UNFD NAND dump - CIS information"@,
        "========================================="@,
        "magic:          MSTARSEMIUNFDCIS"@,
        "cis_signature:  0x"@ + spec_zero_pad(spec_hex_upper(ctx.cis_signature as nat), 8),
        "vendor:         "@ + ctx.vendor@,
        "part_number:    "@ + ctx.part_number@,
        Seq::empty(),
        "Derived NAND geometry:"@,
        "  page_size:       "@ + spec_dec(ctx.page_size as nat) + " bytes"@,
        "  spare_size:       "@ + spec_dec(ctx.spare_size as nat) + " bytes"@,
        "  pages_per_block:  "@ + spec_dec(ctx.pages_per_block as nat),
        "  block_size:       "@ + spec_dec(ctx.block_size as nat) + " bytes"@,
        "  block_count:      "@ + spec_dec(ctx.block_count as nat),
        "  total_size:       "@ + spec_dec(ctx.total_size as nat) + " bytes"@,
        Seq::empty(),
    ]
}

/// `"0x…"` with the offset in upper-case hexadecimal, quoted as `{:?}`
/// quotes a string.
pub open spec fn hex_item(o: usize) -> Seq<char> {
    "\"0x"@ + spec_hex_upper(o as nat) + "\""@
}

/// The quoted items of `v`, separated by `, `.
pub open spec fn hex_items(v: Seq<usize>) -> Seq<char>
    decreases v.len(),
{
    if v.len() == 0 {
        Seq::empty()
    } else if v.len() == 1 {
        hex_item(v[0])
    } else {
        hex_items(v.drop_last()) + ", "@ + hex_item(v.last())
    }
}

/// `{:?}` of the list of the offsets of `v`, each rendered as `0x…`.
pub open spec fn debug_hex_list(v: Seq<usize>) -> Seq<char> {
    "["@ + hex_items(v) + "]"@
}

/// The lines on the scan results.
pub open spec fn spec_scan_lines(ctx: UnfdCisCtx, ubi_start: usize) -> Seq<Seq<char>> {
    seq![
        "cis_copies:    "@ + debug_hex_list(ctx.cis_copies@),
        "bank_markers:   "@ + debug_hex_list(ctx.bank_markers@),
        "ubi_start:      0x"@ + spec_hex_upper(ubi_start as nat),
        "data_start:     0x"@ + spec_hex_upper(ctx.data_start as nat),
        Seq::empty(),
        "Carved partitions:"@,
    ]
}

/// Where boot bank `i` ends: at the next marker, or at the UBI region.
pub open spec fn bank_end(m: Seq<usize>, ubi_start: usize, i: int) -> int {
    if i + 1 < m.len() {
        m[i + 1] as int
    } else {
        ubi_start as int
    }
}

/// `a - b`, or 0 when `b` exceeds `a`.
pub open spec fn sat_sub(a: int, b: int) -> int {
    if a >= b {
        a - b
    } else {
        0
    }
}

/// The cis_info.txt line on boot bank `i`.
pub open spec fn bank_line(m: Seq<usize>, ubi_start: usize, i: int) -> Seq<char> {
    "  boot_bank"@ + spec_dec(i as nat) + ": 0x"@ + spec_hex_upper(m[i] as nat) + "..0x"@
        + spec_hex_upper(bank_end(m, ubi_start, i) as nat) + " ("@ + spec_dec(
        sat_sub(bank_end(m, ubi_start, i), m[i] as int) as nat,
    ) + " bytes)"@
}

/// The lines on the first `n` boot banks.
pub open spec fn bank_lines(m: Seq<usize>, ubi_start: usize, n: nat) -> Seq<Seq<char>>
    decreases n,
{
    if n == 0 {
        Seq::empty()
    } else {
        bank_lines(m, ubi_start, (n - 1) as nat).push(bank_line(m, ubi_start, n - 1))
    }
}

/// The line on the UBI region, when there is one, and the closing lines.
pub open spec fn spec_tail_lines(total: u64, ubi_start: usize) -> Seq<Seq<char>> {
    (if (ubi_start as int) < (total as int) {
        seq![
            "  rootfs_ubi: 0x"@ + spec_hex_upper(ubi_start as nat) + "..0x"@ + spec_hex_upper(
                total as nat,
            ) + " ("@ + spec_dec((total - ubi_start) as nat) + " bytes)"@,
        ]
    } else {
        Seq::empty()
    }) + seq![
        Seq::empty(),
        "The raw NAND payload (after the CIS header) was carved to nand_data.bin"@,
        "and any inner firmware formats were extracted to nand_data_extracted/."@,
    ]
}

/// All lines of cis_info.txt.
pub open spec fn spec_cis_lines(ctx: UnfdCisCtx, boot_markers: Seq<usize>, ubi_start: usize) -> Seq<
    Seq<char>,
> {
    spec_head_lines(ctx) + spec_scan_lines(ctx, ubi_start) + bank_lines(
        boot_markers,
        ubi_start,
        boot_markers.len(),
    ) + spec_tail_lines(ctx.total_size, ubi_start)
}

fn line_of(s: &str) -> (r: Vec<char>)
    ensures
        r@ == s@,
{
    chars_of(s)
}

fn dec_of(n: u64) -> (r: Vec<char>)
    ensures
        r@ == spec_dec(n as nat),
{
    dec(n)
}

fn head_lines(ctx: &UnfdCisCtx, out: &mut Vec<char>)
    ensures
        final(out)@ == old(out)@ + lines_text(spec_head_lines(*ctx)),
{
    let ghost o0 = out@;
    let ghost l = spec_head_lines(*ctx);
    emit(out, line_of("MStar UNFD NAND dump - CIS information").as_slice());
    emit(out, line_of("=========================================").as_slice());
    emit(out, line_of("magic:          MSTARSEMIUNFDCIS").as_slice());
    let mut a = line_of("cis_signature:  0x");
    push_all(&mut a, zero_pad(hex_upper(ctx.cis_signature as u64), 8).as_slice());
    emit(out, a.as_slice());
    let mut a = line_of("vendor:         ");
    push_str(&mut a, ctx.vendor.as_str());
    emit(out, a.as_slice());
    let mut a = line_of("part_number:    ");
    push_str(&mut a, ctx.part_number.as_str());
    emit(out, a.as_slice());
    emit(out, Vec::<char>::new().as_slice());
    emit(out, line_of("Derived NAND geometry:").as_slice());
    let mut a = line_of("  page_size:       ");
    push_all(&mut a, dec_of(ctx.page_size as u64).as_slice());
    push_str(&mut a, " bytes");
    emit(out, a.as_slice());
    let mut a = line_of("  spare_size:       ");
    push_all(&mut a, dec_of(ctx.spare_size as u64).as_slice());
    push_str(&mut a, " bytes");
    emit(out, a.as_slice());
    let mut a = line_of("  pages_per_block:  ");
    push_all(&mut a, dec_of(ctx.pages_per_block as u64).as_slice());
    emit(out, a.as_slice());
    let mut a = line_of("  block_size:       ");
    push_all(&mut a, dec_of(ctx.block_size as u64).as_slice());
    push_str(&mut a, " bytes");
    emit(out, a.as_slice());
    let mut a = line_of("  block_count:      ");
    push_all(&mut a, dec_of(ctx.block_count as u64).as_slice());
    emit(out, a.as_slice());
    let mut a = line_of("  total_size:       ");
    push_all(&mut a, dec_of(ctx.total_size).as_slice());
    push_str(&mut a, " bytes");
    emit(out, a.as_slice());
    emit(out, Vec::<char>::new().as_slice());
    proof {
        reveal_with_fuel(lines_text, 16);
        assert(out@ =~= o0 + lines_text(l));
    }
}

fn hex_item_of(o: usize) -> (r: Vec<char>)
    ensures
        r@ == hex_item(o),
{
    let mut a = line_of("\"0x");
    push_all(&mut a, hex_upper(o as u64).as_slice());
    push_str(&mut a, "\"");
    a
}

/// Renders `v` as `{:?}` renders the list of its offsets formatted `0x…`.
fn debug_hex_list_of(v: &[usize]) -> (r: Vec<char>)
    ensures
        r@ == debug_hex_list(v@),
{
    let mut items: Vec<char> = Vec::new();
    let mut i: usize = 0;
    while i < v.len()
        invariant
            i <= v@.len(),
            items@ == hex_items(v@.take(i as int)),
        decreases v@.len() - i,
    {
        let ghost prev = v@.take(i as int);
        if i > 0 {
            push_str(&mut items, ", ");
        }
        push_all(&mut items, hex_item_of(v[i]).as_slice());
        proof {
            assert(v@.take(i + 1).drop_last() =~= prev);
            if i == 0 {
                assert(v@.take(1) =~= seq![v@[0]]);
            }
        }
        i += 1;
    }
    assert(v@.take(v@.len() as int) =~= v@);
    let mut r = line_of("[");
    push_all(&mut r, items.as_slice());
    push_str(&mut r, "]");
    r
}

fn scan_lines(ctx: &UnfdCisCtx, ubi_start: usize, out: &mut Vec<char>)
    ensures
        final(out)@ == old(out)@ + lines_text(spec_scan_lines(*ctx, ubi_start)),
{
    let ghost o0 = out@;
    let mut a = line_of("cis_copies:    ");
    push_all(&mut a, debug_hex_list_of(ctx.cis_copies.as_slice()).as_slice());
    emit(out, a.as_slice());
    let mut a = line_of("bank_markers:   ");
    push_all(&mut a, debug_hex_list_of(ctx.bank_markers.as_slice()).as_slice());
    emit(out, a.as_slice());
    let mut a = line_of("ubi_start:      0x");
    push_all(&mut a, hex_upper(ubi_start as u64).as_slice());
    emit(out, a.as_slice());
    let mut a = line_of("data_start:     0x");
    push_all(&mut a, hex_upper(ctx.data_start as u64).as_slice());
    emit(out, a.as_slice());
    emit(out, Vec::<char>::new().as_slice());
    emit(out, line_of("Carved partitions:").as_slice());
    proof {
        reveal_with_fuel(lines_text, 7);
        assert(out@ =~= o0 + lines_text(spec_scan_lines(*ctx, ubi_start)));
    }
}

fn bank_lines_of(m: &[usize], ubi_start: usize, out: &mut Vec<char>)
    ensures
        final(out)@ == old(out)@ + lines_text(bank_lines(m@, ubi_start, m@.len())),
{
    let ghost o0 = out@;
    let n = m.len();
    let mut i: usize = 0;
    while i < n
        invariant
            n == m@.len(),
            i <= n,
            out@ == o0 + lines_text(bank_lines(m@, ubi_start, i as nat)),
        decreases n - i,
    {
        let end: usize = if i + 1 < n {
            m[i + 1]
        } else {
            ubi_start
        };
        let size: usize = if end >= m[i] {
            end - m[i]
        } else {
            0
        };
        let mut a = line_of("  boot_bank");
        push_all(&mut a, dec_of(i as u64).as_slice());
        push_str(&mut a, ": 0x");
        push_all(&mut a, hex_upper(m[i] as u64).as_slice());
        push_str(&mut a, "..0x");
        push_all(&mut a, hex_upper(end as u64).as_slice());
        push_str(&mut a, " (");
        push_all(&mut a, dec_of(size as u64).as_slice());
        push_str(&mut a, " bytes)");
        assert(a@ =~= bank_line(m@, ubi_start, i as int));
        emit(out, a.as_slice());
        i += 1;
        proof {
            let prev = bank_lines(m@, ubi_start, (i - 1) as nat);
            assert(bank_lines(m@, ubi_start, i as nat) == prev.push(bank_line(m@, ubi_start, i - 1)));
            assert(prev.push(bank_line(m@, ubi_start, i - 1)).drop_last() =~= prev);
        }
    }
}

fn tail_lines(total: u64, ubi_start: usize, out: &mut Vec<char>)
    requires
        total <= usize::MAX,
    ensures
        final(out)@ == old(out)@ + lines_text(spec_tail_lines(total, ubi_start)),
{
    let ghost o0 = out@;
    let t = total as usize;
    let ghost first: Seq<Seq<char>> = if (ubi_start as int) < (total as int) {
        seq![
            "  rootfs_ubi: 0x"@ + spec_hex_upper(ubi_start as nat) + "..0x"@ + spec_hex_upper(
                total as nat,
            ) + " ("@ + spec_dec((total - ubi_start) as nat) + " bytes)"@,
        ]
    } else {
        Seq::empty()
    };
    if ubi_start < t {
        let mut a = line_of("  rootfs_ubi: 0x");
        push_all(&mut a, hex_upper(ubi_start as u64).as_slice());
        push_str(&mut a, "..0x");
        push_all(&mut a, hex_upper(total).as_slice());
        push_str(&mut a, " (");
        push_all(&mut a, dec_of((t - ubi_start) as u64).as_slice());
        push_str(&mut a, " bytes)");
        emit(out, a.as_slice());
    }
    emit(out, Vec::<char>::new().as_slice());
    emit(
        out,
        line_of("The raw NAND payload (after the CIS header) was carved to nand_data.bin").as_slice(),
    );
    emit(
        out,
        line_of("and any inner firmware formats were extracted to nand_data_extracted/.").as_slice(),
    );
    proof {
        reveal_with_fuel(lines_text, 5);
        assert(out@ =~= o0 + lines_text(spec_tail_lines(total, ubi_start)));
    }
}

/// The text of cis_info.txt for `ctx`, the boot markers before the UBI
/// region and the offset of that region.
pub fn write_cis_info(ctx: &UnfdCisCtx, boot_markers: &[usize], ubi_start: usize) -> (r: String)
    requires
        ctx.total_size <= usize::MAX,
    ensures
        r@ == lines_text(spec_cis_lines(*ctx, boot_markers@, ubi_start)),
{
    let mut out: Vec<char> = Vec::new();
    head_lines(ctx, &mut out);
    scan_lines(ctx, ubi_start, &mut out);
    bank_lines_of(boot_markers, ubi_start, &mut out);
    tail_lines(ctx.total_size, ubi_start, &mut out);
    proof {
        let h = spec_head_lines(*ctx);
        let sl = spec_scan_lines(*ctx, ubi_start);
        let b = bank_lines(boot_markers@, ubi_start, boot_markers@.len());
        let t = spec_tail_lines(ctx.total_size, ubi_start);
        lemma_lines_text_concat(h, sl);
        lemma_lines_text_concat(h + sl, b);
        lemma_lines_text_concat(h + sl + b, t);
        assert(out@ =~= lines_text(spec_cis_lines(*ctx, boot_markers@, ubi_start)));
    }
    string_from_chars(out.as_slice())
}

/// Where the UBI region begins: at the first `UBI#` of the image, or at
/// its end when there is none.
pub open spec fn spec_ubi_start(data: Seq<u8>) -> int {
    if spec_scan(data, ubi_ec_magic()).len() > 0 {
        spec_scan(data, ubi_ec_magic())[0]
    } else {
        data.len() as int
    }
}

/// The offsets of `s` below `bound`, in their order.
pub open spec fn markers_below(s: Seq<usize>, bound: int) -> Seq<usize>
    decreases s.len(),
{
    if s.len() == 0 {
        Seq::empty()
    } else if (s.last() as int) < bound {
        markers_below(s.drop_last(), bound).push(s.last())
    } else {
        markers_below(s.drop_last(), bound)
    }
}

/// Offsets in strictly increasing order.
pub open spec fn strictly_increasing(s: Seq<usize>) -> bool {
    forall|k: int, l: int| 0 <= k < l < s.len() ==> s[k] < s[l]
}

proof fn lemma_markers_below(s: Seq<usize>, bound: int)
    requires
        strictly_increasing(s),
    ensures
        strictly_increasing(markers_below(s, bound)),
        forall|k: int|
            0 <= k < markers_below(s, bound).len() ==> (#[trigger] markers_below(s, bound)[k] as int)
                < bound && s.contains(markers_below(s, bound)[k]),
    decreases s.len(),
{
    if s.len() > 0 {
        let p = markers_below(s.drop_last(), bound);
        lemma_markers_below(s.drop_last(), bound);
        assert forall|k: int| 0 <= k < p.len() implies #[trigger] p[k] < s.last() by {
            let j = choose|j: int| 0 <= j < s.drop_last().len() && s.drop_last()[j] == p[k];
            assert(s[j] == p[k]);
        }
        assert forall|k: int| 0 <= k < markers_below(s, bound).len() implies s.contains(
            #[trigger] markers_below(s, bound)[k],
        ) by {
            if k < p.len() {
                let j = choose|j: int| 0 <= j < s.drop_last().len() && s.drop_last()[j] == p[k];
                assert(s[j] == p[k]);
            } else {
                assert(s[s.len() - 1] == s.last());
            }
        }
    }
}

/// One region of the image to carve into `<name>.bin`.
pub struct CarveRegion {
    pub name: String,
    pub start: usize,
    pub len: usize,
}

/// The regions of the first `n` boot banks: bank `i` runs from its marker
/// to where it ends, and is left out when that is not after its start.
pub open spec fn bank_regions(m: Seq<usize>, ubi_start: usize, n: nat) -> Seq<(Seq<char>, int, int)>
    decreases n,
{
    if n == 0 {
        Seq::empty()
    } else {
        let i = n - 1;
        let prev = bank_regions(m, ubi_start, (n - 1) as nat);
        if bank_end(m, ubi_start, i) > m[i] as int {
            prev.push(
                ("boot_bank"@ + spec_dec(i as nat), m[i] as int, bank_end(m, ubi_start, i) - m[i]),
            )
        } else {
            prev
        }
    }
}

/// The boot banks, then the UBI region when the image has one.
pub open spec fn spec_carve_regions(m: Seq<usize>, ubi_start: usize, total: int) -> Seq<
    (Seq<char>, int, int),
> {
    bank_regions(m, ubi_start, m.len()) + if (ubi_start as int) < total {
        seq![("rootfs_ubi"@, ubi_start as int, total - ubi_start)]
    } else {
        Seq::empty()
    }
}

/// Name, start and length of each region.
pub open spec fn region_views(v: Seq<CarveRegion>) -> Seq<(Seq<char>, int, int)> {
    v.map_values(|r: CarveRegion| (r.name@, r.start as int, r.len as int))
}

/// What to write for one dump: the info file, the regions to carve, and
/// the NAND payload.
pub struct UnfdPlan {
    /// Offset of the UBI region (the image size when there is none).
    pub ubi_start: usize,
    /// Bank markers before the UBI region.
    pub boot_markers: Vec<usize>,
    /// Boot banks and the UBI region, to carve into `<name>.bin`.
    pub regions: Vec<CarveRegion>,
    /// Start of the NAND payload, carved into nand_data.bin.
    pub payload_start: usize,
    /// Length of the NAND payload; nothing is carved when it is 0.
    pub payload_len: usize,
    /// Text of cis_info.txt.
    pub cis_info: String,
}

fn below(s: &Vec<usize>, bound: usize) -> (r: Vec<usize>)
    ensures
        r@ == markers_below(s@, bound as int),
{
    let mut r: Vec<usize> = Vec::new();
    let mut i: usize = 0;
    while i < s.len()
        invariant
            i <= s@.len(),
            r@ == markers_below(s@.take(i as int), bound as int),
        decreases s@.len() - i,
    {
        assert(s@.take(i + 1).drop_last() =~= s@.take(i as int));
        assert(s@.take(i + 1).last() == s@[i as int]);
        if s[i] < bound {
            r.push(s[i]);
        }
        i += 1;
    }
    assert(s@.take(s@.len() as int) =~= s@);
    r
}

fn carve_regions(m: &[usize], ubi_start: usize, total: usize) -> (r: Vec<CarveRegion>)
    ensures
        region_views(r@) == spec_carve_regions(m@, ubi_start, total as int),
{
    let mut r: Vec<CarveRegion> = Vec::new();
    let n = m.len();
    let mut i: usize = 0;
    while i < n
        invariant
            n == m@.len(),
            i <= n,
            region_views(r@) == bank_regions(m@, ubi_start, i as nat),
        decreases n - i,
    {
        let end: usize = if i + 1 < n {
            m[i + 1]
        } else {
            ubi_start
        };
        let ghost prev = r@;
        if end > m[i] {
            let mut name = line_of("boot_bank");
            push_all(&mut name, dec_of(i as u64).as_slice());
            r.push(CarveRegion { name: string_from_chars(name.as_slice()), start: m[i], len: end - m[i] });
            assert(region_views(r@) =~= region_views(prev).push(
                ("boot_bank"@ + spec_dec(i as nat), m@[i as int] as int, end - m@[i as int]),
            ));
        }
        i += 1;
    }
    if ubi_start < total {
        let ghost prev = r@;
        r.push(CarveRegion { name: string_from_chars(line_of("rootfs_ubi").as_slice()), start: ubi_start, len: total - ubi_start });
        assert(region_views(r@) =~= region_views(prev).push(
            ("rootfs_ubi"@, ubi_start as int, total - ubi_start),
        ));
    } else {
        assert(region_views(r@) =~= spec_carve_regions(m@, ubi_start, total as int));
    }
    r
}

/// Scans a whole dump for CIS copies, bank markers and the UBI region,
/// records the first two and the payload start in `ctx`, and plans what to
/// write: cis_info.txt, each boot bank (marker to next marker, the last to
/// the UBI region), the UBI region up to the end of the image, and the NAND
/// payload from the first bank marker to the end.
pub fn extract_mstar_unfd(ctx: &mut UnfdCisCtx, data: &[u8]) -> (p: UnfdPlan)
    requires
        old(ctx).total_size == data@.len(),
    ensures
        final(ctx).cis_copies@.map_values(|o: usize| o as int) == spec_scan(data@, cis_magic()),
        final(ctx).bank_markers@.map_values(|o: usize| o as int) == spec_scan(data@, bank_marker()),
        final(ctx).data_start as int == (if spec_scan(data@, bank_marker()).len() > 0 {
            spec_scan(data@, bank_marker())[0]
        } else {
            0
        }),
        final(ctx).cis_signature == old(ctx).cis_signature,
        final(ctx).vendor == old(ctx).vendor,
        final(ctx).part_number == old(ctx).part_number,
        final(ctx).page_size == old(ctx).page_size,
        final(ctx).spare_size == old(ctx).spare_size,
        final(ctx).pages_per_block == old(ctx).pages_per_block,
        final(ctx).block_size == old(ctx).block_size,
        final(ctx).block_count == old(ctx).block_count,
        final(ctx).total_size == old(ctx).total_size,
        p.ubi_start as int == spec_ubi_start(data@),
        p.boot_markers@ == markers_below(final(ctx).bank_markers@, p.ubi_start as int),
        strictly_increasing(p.boot_markers@),
        region_views(p.regions@) == spec_carve_regions(
            p.boot_markers@,
            p.ubi_start,
            data@.len() as int,
        ),
        p.payload_start == final(ctx).data_start,
        p.payload_len == data@.len() - final(ctx).data_start,
        p.cis_info@ == lines_text(spec_cis_lines(*final(ctx), p.boot_markers@, p.ubi_start)),
{
    let total = data.len();
    ctx.cis_copies = scan_offsets(data, cis_magic_bytes().as_slice());
    let banks = scan_offsets(data, bank_marker_bytes().as_slice());
    proof {
        lemma_scan_sound(data@, bank_marker(), 0);
        assert forall|k: int| 0 <= k < banks@.len() implies banks@[k] as int == spec_scan(
            data@,
            bank_marker(),
        )[k] by {
            assert(banks@.map_values(|o: usize| o as int)[k] == banks@[k] as int);
        }
        assert(banks@.len() == spec_scan(data@, bank_marker()).len()) by {
            assert(banks@.map_values(|o: usize| o as int).len() == banks@.len());
        }
    }
    let data_start: usize = if banks.len() > 0 {
        banks[0]
    } else {
        0
    };
    let ubi = scan_offsets(data, ubi_ec_magic_bytes().as_slice());
    proof {
        lemma_scan_sound(data@, ubi_ec_magic(), 0);
        assert(ubi@.map_values(|o: usize| o as int).len() == ubi@.len());
        if ubi@.len() > 0 {
            assert(ubi@.map_values(|o: usize| o as int)[0] == ubi@[0] as int);
        }
    }
    let ubi_start: usize = if ubi.len() > 0 {
        ubi[0]
    } else {
        total
    };
    let boot = below(&banks, ubi_start);
    proof {
        assert(strictly_increasing(banks@)) by {
            assert forall|k: int, l: int| 0 <= k < l < banks@.len() implies banks@[k] < banks@[l] by {
                assert(spec_scan(data@, bank_marker())[k] < spec_scan(data@, bank_marker())[l]);
            }
        }
        lemma_markers_below(banks@, ubi_start as int);
    }
    ctx.bank_markers = banks;
    ctx.data_start = data_start;
    let cis_info = write_cis_info(ctx, boot.as_slice(), ubi_start);
    let regions = carve_regions(boot.as_slice(), ubi_start, total);
    UnfdPlan {
        ubi_start,
        boot_markers: boot,
        regions,
        payload_start: data_start,
        payload_len: total - data_start,
        cis_info,
    }
}

/// Two occurrences of `pat` can overlap: a proper suffix of it is also a
/// prefix.
pub open spec fn self_overlapping(pat: Seq<u8>) -> bool {
    exists|d: int|
        0 < d < pat.len() && #[trigger] pat.subrange(d, pat.len() as int) == pat.subrange(
            0,
            pat.len() - d,
        )
}

/// The scan reports every occurrence at or after `pos`.
pub proof fn lemma_scan_complete(data: Seq<u8>, pat: Seq<u8>, pos: int, i: int)
    requires
        pat.len() > 0,
        0 <= pos <= i,
        bytes_match_at(data, i, pat),
    ensures
        scan_from(data, pat, pos).contains(i),
    decreases data.len() - pos,
{
    if pos == i {
        assert(scan_from(data, pat, pos)[0] == i);
    } else if bytes_match_at(data, pos, pat) {
        lemma_scan_complete(data, pat, pos + 1, i);
        let rest = scan_from(data, pat, pos + 1);
        let j = choose|j: int| 0 <= j < rest.len() && rest[j] == i;
        assert(scan_from(data, pat, pos) == seq![pos] + rest);
        assert(scan_from(data, pat, pos)[j + 1] == i);
    } else {
        lemma_scan_complete(data, pat, pos + 1, i);
        assert(scan_from(data, pat, pos) == scan_from(data, pat, pos + 1));
    }
}

/// Two occurrences closer than the pattern's length make it overlap itself.
proof fn lemma_close_matches_overlap(data: Seq<u8>, pat: Seq<u8>, a: int, b: int)
    requires
        a < b < a + pat.len(),
        bytes_match_at(data, a, pat),
        bytes_match_at(data, b, pat),
    ensures
        self_overlapping(pat),
{
    let n = pat.len() as int;
    let d = b - a;
    assert(pat.subrange(d, n) =~= pat.subrange(0, n - d)) by {
        assert forall|k: int| 0 <= k < n - d implies pat.subrange(d, n)[k] == pat.subrange(
            0,
            n - d,
        )[k] by {
            assert(data.subrange(a, a + n)[d + k] == data[a + d + k]);
            assert(data.subrange(b, b + n)[k] == data[b + k]);
        }
    }
}

/// For a pattern that cannot overlap itself, consecutive offsets of a scan
/// lie at least the pattern's length apart.
pub proof fn lemma_scan_spaced(data: Seq<u8>, pat: Seq<u8>)
    requires
        !self_overlapping(pat),
    ensures
        forall|k: int, l: int|
            0 <= k < l < spec_scan(data, pat).len() ==> #[trigger] spec_scan(data, pat)[k] + pat.len()
                <= #[trigger] spec_scan(data, pat)[l],
{
    lemma_scan_sound(data, pat, 0);
    assert forall|k: int, l: int| 0 <= k < l < spec_scan(data, pat).len() implies #[trigger] spec_scan(
        data,
        pat,
    )[k] + pat.len() <= #[trigger] spec_scan(data, pat)[l] by {
        let s = spec_scan(data, pat);
        if s[l] < s[k] + pat.len() {
            lemma_close_matches_overlap(data, pat, s[k], s[l]);
        }
    }
}

/// Neither the CIS magic, the bank marker nor `UBI#` can overlap itself,
/// so the copies, markers and headers a scan finds never overlap.
pub proof fn lemma_markers_do_not_overlap()
    ensures
        !self_overlapping(cis_magic()),
        !self_overlapping(bank_marker()),
        !self_overlapping(ubi_ec_magic()),
{
    let c = cis_magic();
    assert forall|d: int| 0 < d < 16 implies #[trigger] c.subrange(d, 16) != c.subrange(0, 16 - d) by {
        if d == 7 {
            assert(c.subrange(d, 16)[1] != c.subrange(0, 16 - d)[1]);
        } else {
            assert(c.subrange(d, 16)[0] != c.subrange(0, 16 - d)[0]);
        }
    }
    let b = bank_marker();
    assert forall|d: int| 0 < d < 21 implies #[trigger] b.subrange(d, 21) != b.subrange(0, 21 - d) by {
        if d <= 3 {
            assert(b.subrange(d, 21)[17 - d] != b.subrange(0, 21 - d)[17 - d]);
        } else {
            assert(b.subrange(d, 21)[20 - d] != b.subrange(0, 21 - d)[20 - d]);
        }
    }
    let u = ubi_ec_magic();
    assert forall|d: int| 0 < d < 4 implies #[trigger] u.subrange(d, 4) != u.subrange(0, 4 - d) by {
        assert(u.subrange(d, 4)[0] != u.subrange(0, 4 - d)[0]);
    }
}

proof fn lemma_bank_regions_all(m: Seq<usize>, ubi_start: usize, n: nat)
    requires
        n <= m.len(),
        strictly_increasing(m),
        forall|k: int| 0 <= k < m.len() ==> (#[trigger] m[k] as int) < ubi_start,
    ensures
        bank_regions(m, ubi_start, n) == Seq::new(
            n,
            |i: int| ("boot_bank"@ + spec_dec(i as nat), m[i] as int, bank_end(m, ubi_start, i) - m[i]),
        ),
    decreases n,
{
    if n > 0 {
        lemma_bank_regions_all(m, ubi_start, (n - 1) as nat);
        let i = n - 1;
        if i + 1 < m.len() {
            assert(m[i] < m[i + 1]);
        }
        assert(bank_end(m, ubi_start, i) > m[i] as int);
        assert(bank_regions(m, ubi_start, n) =~= Seq::new(
            n,
            |i: int| ("boot_bank"@ + spec_dec(i as nat), m[i] as int, bank_end(m, ubi_start, i) - m[i]),
        ));
    }
}

/// The carved regions are consecutive, nonempty pieces of the image: each
/// boot bank runs up to the next marker (the last one up to the UBI
/// region), the UBI region runs to the end, and nothing is carved twice.
pub proof fn lemma_regions_tile(m: Seq<usize>, ubi_start: usize, total: int)
    requires
        strictly_increasing(m),
        forall|k: int| 0 <= k < m.len() ==> (#[trigger] m[k] as int) < ubi_start,
        ubi_start <= total,
    ensures
        spec_carve_regions(m, ubi_start, total).len() == m.len() + (if (ubi_start as int) < total {
            1int
        } else {
            0int
        }),
        forall|k: int|
            0 <= k < spec_carve_regions(m, ubi_start, total).len() ==> {
                let r = #[trigger] spec_carve_regions(m, ubi_start, total)[k];
                0 <= r.1 && r.2 > 0 && r.1 + r.2 <= total
            },
        forall|k: int|
            0 <= k < spec_carve_regions(m, ubi_start, total).len() - 1 ==> #[trigger] spec_carve_regions(
                m,
                ubi_start,
                total,
            )[k].1 + spec_carve_regions(m, ubi_start, total)[k].2 == spec_carve_regions(
                m,
                ubi_start,
                total,
            )[k + 1].1,
{
    lemma_bank_regions_all(m, ubi_start, m.len());
    let banks = bank_regions(m, ubi_start, m.len());
    let r = spec_carve_regions(m, ubi_start, total);
    assert forall|k: int| 0 <= k < r.len() implies {
        let x = #[trigger] r[k];
        0 <= x.1 && x.2 > 0 && x.1 + x.2 <= total
    } by {
        if k < m.len() {
            assert(r[k] == banks[k]);
            if k + 1 < m.len() {
                assert(m[k] < m[k + 1]);
                assert(m[k + 1] < ubi_start);
            }
        }
    }
    assert forall|k: int| 0 <= k < r.len() - 1 implies #[trigger] r[k].1 + r[k].2 == r[k + 1].1 by {
        assert(r[k] == banks[k]);
        if k + 1 < m.len() {
            assert(r[k + 1] == banks[k + 1]);
        }
    }
}

} // verus!

//! UBI images carved from NAND dumps: geometry detection (including
//! interleaved OOB), per-PEB header parsing, and volume reconstruction that
//! keeps the newest copy of each LEB.

use vstd::prelude::*;
use crate::keymap::{KeyMap, entries_map, lemma_entry_in_map};
use crate::text::{chars_of, is_control, leading_ws, lossy_string, push_all, spec_is_control, spec_is_whitespace, spec_trim, string_from_chars, trailing_ws, trim, utf8_lossy};
use crate::fmt::{dec, spec_dec};
use crate::bytes::{
    be16, be32, be64, bytes_match_at, copy_range, match_at, push_range, spec_be16, spec_be32,
    spec_be64,
};

verus! {

/// Erase-counter header magic `UBI#`.
pub const EC_MAGIC: [u8; 4] = [0x55, 0x42, 0x49, 0x23];
/// Volume-identifier header magic `UBI!`.
pub const VID_MAGIC: [u8; 4] = [0x55, 0x42, 0x49, 0x21];
/// Volume id of the internal layout volume that holds the volume table.
pub const UBI_LAYOUT_VOLUME_ID: u32 = 0x7FFF_EFFF;
/// Size of one volume-table record.
pub const UBI_VTBL_RECORD_SIZE: usize = 172;
/// NAND main page size assumed for OOB detection.
pub const NAND_PAGE_SIZE: usize = 2048;

/// The bytes of `EC_MAGIC`.
pub open spec fn ec_magic() -> Seq<u8> {
    seq![0x55u8, 0x42u8, 0x49u8, 0x23u8]
}

/// The bytes of `VID_MAGIC`.
pub open spec fn vid_magic() -> Seq<u8> {
    seq![0x55u8, 0x42u8, 0x49u8, 0x21u8]
}

/// Geometry of a UBI image.
#[derive(Debug, Clone, Copy, PartialEq, Eq, Structural)]
pub struct UbiCtx {
    /// Physical erase block size in the file (OOB included).
    pub phys_peb_size: usize,
    /// OOB bytes interleaved after each page (0 when none).
    pub oob_size: usize,
    /// PEB size once the OOB is removed.
    pub clean_peb_size: usize,
    /// Number of physical erase blocks.
    pub peb_count: usize,
}

/// The first page-aligned offset at or after `off` where `magic` occurs.
pub open spec fn magic_from(data: Seq<u8>, magic: Seq<u8>, off: int) -> Option<int>
    decreases data.len() + NAND_PAGE_SIZE - off,
{
    if off < 0 || off + 4 > data.len() {
        None
    } else if data.subrange(off, off + 4) == magic {
        Some(off)
    } else {
        magic_from(data, magic, off + NAND_PAGE_SIZE)
    }
}

proof fn lemma_magic_from_inside(data: Seq<u8>, magic: Seq<u8>, off: int)
    ensures
        magic_from(data, magic, off) matches Some(o) ==> o + 4 <= data.len(),
    decreases data.len() + NAND_PAGE_SIZE - off,
{
    if !(off < 0 || off + 4 > data.len()) && data.subrange(off, off + 4) != magic {
        lemma_magic_from_inside(data, magic, off + NAND_PAGE_SIZE);
    }
}

/// The offset of the second occurrence of a 4-byte `magic`, searched on
/// page boundaries from the second page on.
pub fn second_magic_offset(data: &[u8], magic: &[u8; 4]) -> (r: Option<usize>)
    ensures
        r matches Some(o) ==> magic_from(data@, magic@, NAND_PAGE_SIZE as int) == Some(o as int),
        r is None ==> magic_from(data@, magic@, NAND_PAGE_SIZE as int) is None,
        r matches Some(o) ==> o >= NAND_PAGE_SIZE,
{
    let mut off: usize = NAND_PAGE_SIZE;
    let len = data.len();
    while off <= len && len - off >= 4
        invariant
            len == data@.len(),
            off >= NAND_PAGE_SIZE,
            magic_from(data@, magic@, NAND_PAGE_SIZE as int) == magic_from(data@, magic@, off as int),
        decreases len - off,
    {
        if match_at(data, off, magic.as_slice()) {
            assert(magic@.len() == 4);
            return Some(off);
        }
        assert(magic@.len() == 4);
        if len - off < NAND_PAGE_SIZE + 4 {
            assert(magic_from(data@, magic@, off + NAND_PAGE_SIZE) is None);
            return None;
        }
        off += NAND_PAGE_SIZE;
    }
    None
}

/// `n` is a power of two.
pub open spec fn is_pow2(n: nat) -> bool
    decreases n,
{
    if n == 0 {
        false
    } else if n == 1 {
        true
    } else {
        n % 2 == 0 && is_pow2(n / 2)
    }
}

fn power_of_two(n: usize) -> (r: bool)
    ensures
        r == is_pow2(n as nat),
    decreases n,
{
    if n == 0 {
        false
    } else if n == 1 {
        true
    } else {
        n % 2 == 0 && power_of_two(n / 2)
    }
}

/// The OOB sizes tried, in order.
pub open spec fn oob_candidates() -> Seq<usize> {
    seq![0usize, 16, 32, 64, 128, 218, 224, 256]
}

/// `oob` splits `phys` into a power-of-two number of pages between 16 and
/// 4096.
pub open spec fn oob_fits(phys: nat, oob: nat) -> bool {
    let step = (NAND_PAGE_SIZE + oob) as nat;
    phys % step == 0 && is_pow2(phys / step) && 16 <= phys / step <= 4096
}

/// The first candidate OOB size at index `i` or later that fits, else 0.
pub open spec fn first_oob(phys: nat, i: int) -> nat
    decreases 8 - i,
{
    if i < 0 || i >= 8 {
        0
    } else if oob_fits(phys, oob_candidates()[i] as nat) {
        oob_candidates()[i] as nat
    } else {
        first_oob(phys, i + 1)
    }
}

proof fn lemma_first_oob_bound(phys: nat, i: int)
    ensures
        first_oob(phys, i) <= 256,
    decreases 8 - i,
{
    if 0 <= i < 8 && !oob_fits(phys, oob_candidates()[i] as nat) {
        lemma_first_oob_bound(phys, i + 1);
    }
}

proof fn lemma_first_peb_guess_bound(file_size: nat, i: int)
    ensures
        65536 <= first_peb_guess(file_size, i) <= 524288,
    decreases 5 - i,
{
    if 0 <= i < 5 && file_size % (peb_guesses()[i] as nat) != 0 {
        lemma_first_peb_guess_bound(file_size, i + 1);
    }
}

/// The OOB size per page for a physical PEB size: the first of 0, 16, 32,
/// 64, 128, 218, 224, 256 that yields a power-of-two page count in
/// 16..=4096; 0 when none does.
pub fn detect_oob(phys_peb_size: usize) -> (r: usize)
    ensures
        r as nat == first_oob(phys_peb_size as nat, 0),
        r <= 256,
{
    proof {
        lemma_first_oob_bound(phys_peb_size as nat, 0);
    }
    let candidates: [usize; 8] = [0, 16, 32, 64, 128, 218, 224, 256];
    assert(candidates@ == oob_candidates());
    let mut i: usize = 0;
    while i < 8
        invariant
            i <= 8,
            candidates@ == oob_candidates(),
            first_oob(phys_peb_size as nat, 0) == first_oob(phys_peb_size as nat, i as int),
        decreases 8 - i,
    {
        let oob = candidates[i];
        let step = NAND_PAGE_SIZE + oob;
        if phys_peb_size % step == 0 {
            let pages = phys_peb_size / step;
            if power_of_two(pages) && 16 <= pages && pages <= 4096 {
                return oob;
            }
        }
        i += 1;
    }
    0
}

/// The PEB sizes guessed when only one header is visible, in order.
pub open spec fn peb_guesses() -> Seq<usize> {
    seq![131072usize, 262144, 126976, 524288, 65536]
}

/// The first guess at index `i` or later that divides `file_size`, else
/// 131072.
pub open spec fn first_peb_guess(file_size: nat, i: int) -> nat
    decreases 5 - i,
{
    if i < 0 || i >= 5 {
        131072
    } else if file_size % (peb_guesses()[i] as nat) == 0 {
        peb_guesses()[i] as nat
    } else {
        first_peb_guess(file_size, i + 1)
    }
}

/// A PEB size for an image with a single header: the first of 131072,
/// 262144, 126976, 524288, 65536 that divides the file size, else 131072.
pub fn guess_single_peb(file_size: usize) -> (r: usize)
    ensures
        r as nat == first_peb_guess(file_size as nat, 0),
        r >= 65536,
{
    proof {
        lemma_first_peb_guess_bound(file_size as nat, 0);
    }
    let guesses: [usize; 5] = [131072, 262144, 126976, 524288, 65536];
    assert(guesses@ == peb_guesses());
    let mut i: usize = 0;
    while i < 5
        invariant
            i <= 5,
            guesses@ == peb_guesses(),
            first_peb_guess(file_size as nat, 0) == first_peb_guess(file_size as nat, i as int),
        decreases 5 - i,
    {
        if file_size % guesses[i] == 0 {
            return guesses[i];
        }
        i += 1;
    }
    131072
}

/// The clean PEB size for a physical size and OOB size.
pub open spec fn clean_size(phys: nat, oob: nat) -> nat {
    (phys / ((NAND_PAGE_SIZE + oob) as nat)) * (NAND_PAGE_SIZE as nat)
}

/// The geometry recognised for an image of `file_size` bytes whose first
/// bytes are `prefix`.
pub open spec fn spec_ubi_geometry(prefix: Seq<u8>, file_size: nat) -> Option<UbiCtx> {
    if !bytes_match_at(prefix, 0, ec_magic()) {
        None
    } else {
        let phys = match magic_from(prefix, ec_magic(), NAND_PAGE_SIZE as int) {
            Some(d) => d as nat,
            None => first_peb_guess(file_size, 0),
        };
        let oob = first_oob(phys, 0);
        let clean = clean_size(phys, oob);
        let count = file_size / phys;
        if clean == 0 || count == 0 {
            None
        } else {
            Some(
                UbiCtx {
                    phys_peb_size: phys as usize,
                    oob_size: oob as usize,
                    clean_peb_size: clean as usize,
                    peb_count: count as usize,
                },
            )
        }
    }
}

/// Recognises a UBI image by the `UBI#` header at offset 0 and derives its
/// PEB geometry from the distance to the next `UBI#` header (or a guess from
/// the file size), the OOB layout that distance implies, and the PEB count.
/// `prefix` is the first bytes of the file (at most 4 MiB are needed).
pub fn is_ubi_file(prefix: &[u8], file_size: usize) -> (r: Option<UbiCtx>)
    ensures
        r == spec_ubi_geometry(prefix@, file_size as nat),
        prefix@.len() <= 0x400000 ==> (r matches Some(c) ==> ctx_wf(c)),
{
    proof {
        lemma_magic_from_inside(prefix@, ec_magic(), NAND_PAGE_SIZE as int);
        lemma_first_peb_guess_bound(file_size as nat, 0);
    }
    let magic: [u8; 4] = [0x55, 0x42, 0x49, 0x23];
    assert(magic@ =~= ec_magic());
    if !match_at(prefix, 0, magic.as_slice()) {
        return None;
    }
    let phys = match second_magic_offset(prefix, &magic) {
        Some(d) => d,
        None => guess_single_peb(file_size),
    };
    let oob = detect_oob(phys);
    let step = NAND_PAGE_SIZE + oob;
    let pages = phys / step;
    assert(pages * 2048 <= phys) by (nonlinear_arith)
        requires
            pages == phys / step,
            step >= 2048,
    ;
    let clean = pages * NAND_PAGE_SIZE;
    assert(phys > 0);
    let ghost gphys = match magic_from(prefix@, ec_magic(), NAND_PAGE_SIZE as int) {
        Some(d) => d as nat,
        None => first_peb_guess(file_size as nat, 0),
    };
    assert(phys as nat == gphys);
    assert(oob as nat == first_oob(gphys, 0));
    proof {
        lemma_first_oob_bound(gphys, 0);
    }
    assert(clean as nat == clean_size(gphys, oob as nat));


    let count = file_size / phys;
    assert(count as nat == file_size as nat / gphys);
    if clean == 0 || count == 0 {
        return None;
    }
    Some(UbiCtx { phys_peb_size: phys, oob_size: oob, clean_peb_size: clean, peb_count: count })
}

/// The number of whole pages that start at multiples of `step` within
/// `len` bytes.
pub open spec fn full_pages(len: int, step: int) -> int {
    if len < NAND_PAGE_SIZE {
        0
    } else {
        (len - NAND_PAGE_SIZE) / step + 1
    }
}

/// Byte `j` of the data of a PEB whose pages start every `step` bytes.
pub open spec fn stripped_byte(peb: Seq<u8>, step: int, j: int) -> u8 {
    peb[(j / 2048) * step + j % 2048]
}

/// `peb` with the OOB that follows each page removed, keeping at most
/// `clean` bytes. Byte `j` of the result is byte `j % 2048` of page
/// `j / 2048`, and page `k` starts at `k * (2048 + oob)`.
pub open spec fn spec_strip_oob(peb: Seq<u8>, oob: nat, clean: nat) -> Seq<u8> {
    if oob == 0 {
        if clean <= peb.len() {
            peb.take(clean as int)
        } else {
            peb
        }
    } else {
        let step = NAND_PAGE_SIZE + oob;
        let avail = NAND_PAGE_SIZE * full_pages(peb.len() as int, step);
        let n = if clean <= avail {
            clean as int
        } else {
            avail
        };
        Seq::new(n as nat, |j: int| stripped_byte(peb, step as int, j))
    }
}

proof fn lemma_page_index(j: int, k: int)
    requires
        2048 * k <= j < 2048 * k + 2048,
    ensures
        j / 2048 == k,
        j % 2048 == j - 2048 * k,
{
    assert(j / 2048 == k && j % 2048 == j - 2048 * k) by (nonlinear_arith)
        requires
            2048 * k <= j < 2048 * k + 2048,
    ;
}

/// Removes the OOB interleaved after each page of a physical erase block.
pub fn strip_oob(peb: &[u8], oob_size: usize, clean_peb_size: usize) -> (r: Vec<u8>)
    requires
        oob_size <= 256,
        peb@.len() <= usize::MAX - 4096,
    ensures
        r@ == spec_strip_oob(peb@, oob_size as nat, clean_peb_size as nat),
{
    let len = peb.len();
    if oob_size == 0 {
        let n = if clean_peb_size <= len {
            clean_peb_size
        } else {
            len
        };
        let r = copy_range(peb, 0, n);
        assert(r@ =~= spec_strip_oob(peb@, 0, clean_peb_size as nat));
        return r;
    }
    let step = NAND_PAGE_SIZE + oob_size;
    let mut out: Vec<u8> = Vec::new();
    let mut pos: usize = 0;
    let ghost mut k: int = 0;
    while pos <= len && len - pos >= NAND_PAGE_SIZE && out.len() < clean_peb_size
        invariant
            len == peb@.len(),
            len <= usize::MAX - 4096,
            step == NAND_PAGE_SIZE + oob_size,
            2048 < step <= 2048 + 256,
            0 <= k,
            pos == k * step,
            out@.len() == 2048 * k,
            forall|j: int| 0 <= j < out@.len() ==> #[trigger] out@[j] == stripped_byte(peb@, step as int, j),
            k <= full_pages(len as int, step as int),
            k > 0 ==> (k - 1) * step + 2048 <= len,
        decreases len + 4096 - pos,
    {
        let ghost o0 = out@;
        assert(forall|j: int| 0 <= j < o0.len() ==> #[trigger] o0[j] == stripped_byte(peb@, step as int, j));
        push_range(&mut out, peb, pos, pos + NAND_PAGE_SIZE);
        proof {
            assert forall|j: int| 0 <= j < out@.len() implies #[trigger] out@[j] == stripped_byte(peb@, step as int, j) by {
                if j >= o0.len() {
                    lemma_page_index(j, k);
                    assert(out@[j] == peb@[pos + (j - 2048 * k)]);
                    assert((j / 2048) * step + j % 2048 == pos + (j - 2048 * k));
                } else {
                    assert(out@[j] == o0[j]);
                }
            }
            assert(k * step + 2048 <= len);
            assert(k <= (len - 2048) / (step as int)) by (nonlinear_arith)
                requires
                    k * step + 2048 <= len,
                    step > 0,
                    k >= 0,
            ;
            assert((k + 1) * step == k * step + step) by (nonlinear_arith);
        }
        pos = pos + step;
        proof {
            k = k + 1;
        }
    }
    proof {
        let fp = full_pages(len as int, step as int);
        if out@.len() < clean_peb_size {
            // The loop stopped because no further page fits.
            if len >= 2048 {
                assert(k * step + 2048 > len);
                assert(k > (len - 2048) / (step as int)) by (nonlinear_arith)
                    requires
                        k * step + 2048 > len,
                        len >= 2048,
                        step > 0,
                ;
            }
            assert(k == fp);
        } else {
            assert(2048 * k <= 2048 * fp);
        }
    }
    out.truncate(clean_peb_size);
    assert(out@ =~= spec_strip_oob(peb@, oob_size as nat, clean_peb_size as nat));
    out
}

/// A geometry the parser can work with: a page or more of clean data per
/// PEB, at most 256 OOB bytes per page, and a PEB size with room to spare
/// in `usize`.
pub open spec fn ctx_wf(ctx: UbiCtx) -> bool {
    &&& 0 < ctx.phys_peb_size <= usize::MAX - 4096
    &&& ctx.oob_size <= 256
    &&& ctx.clean_peb_size as nat == clean_size(ctx.phys_peb_size as nat, ctx.oob_size as nat)
    &&& ctx.clean_peb_size > 0
}

proof fn lemma_clean_length(peb: Seq<u8>, oob: nat, clean: nat)
    requires
        oob <= 256,
        clean == clean_size(peb.len(), oob),
        clean > 0,
    ensures
        spec_strip_oob(peb, oob, clean).len() == clean,
{
    let step = (2048 + oob) as int;
    let len = peb.len() as int;
    let q = len / step;
    assert(q * step <= len && clean == q * 2048) by (nonlinear_arith)
        requires
            q == len / step,
            step > 0,
            clean == q * 2048,
    ;
    assert(q >= 1);
    if oob > 0 {
        assert((q - 1) * step + 2048 <= len) by (nonlinear_arith)
            requires
                q * step <= len,
                step >= 2048,
        ;
        assert(q - 1 <= (len - 2048) / step) by (nonlinear_arith)
            requires
                (q - 1) * step + 2048 <= len,
                step > 0,
                q >= 1,
        ;
    }
}

/// What the headers of one physical erase block say: its volume, logical
/// block number, sequence number and logical block data.
pub open spec fn spec_parse_peb(buf: Seq<u8>, ctx: UbiCtx) -> Option<(u32, u32, u64, Seq<u8>)> {
    let c = spec_strip_oob(buf, ctx.oob_size as nat, ctx.clean_peb_size as nat);
    let clean = ctx.clean_peb_size as int;
    if !bytes_match_at(c, 0, ec_magic()) {
        None
    } else {
        let v0 = spec_be32(c, 0x10);
        let d0 = spec_be32(c, 0x14);
        let vid = if v0 == 0 || v0 + 64 > clean {
            NAND_PAGE_SIZE as int
        } else {
            v0
        };
        let dof = if d0 == 0 || d0 >= clean {
            vid + NAND_PAGE_SIZE
        } else {
            d0
        };
        if vid + 64 > c.len() || !bytes_match_at(c, vid, vid_magic()) {
            None
        } else if dof >= c.len() {
            None
        } else {
            Some(
                (
                    spec_be32(c, vid + 8) as u32,
                    spec_be32(c, vid + 12) as u32,
                    spec_be64(c, vid + 0x28) as u64,
                    c.skip(dof),
                ),
            )
        }
    }
}

/// Reads the erase-counter and volume-identifier headers of one physical
/// erase block. Vendor images whose header offsets read 0 or lie outside
/// the block fall back to page-aligned defaults.
pub fn parse_peb(buf: &[u8], ctx: &UbiCtx) -> (r: Option<(u32, u32, u64, Vec<u8>)>)
    requires
        ctx_wf(*ctx),
        buf@.len() == ctx.phys_peb_size,
    ensures
        match spec_parse_peb(buf@, *ctx) {
            Some((vol, lnum, sq, data)) => r matches Some((v, l, q, d)) && v == vol && l == lnum
                && q == sq && d@ == data,
            None => r is None,
        },
{
    let clean = strip_oob(buf, ctx.oob_size, ctx.clean_peb_size);
    proof {
        lemma_clean_length(buf@, ctx.oob_size as nat, ctx.clean_peb_size as nat);
    }
    let magic: [u8; 4] = [0x55, 0x42, 0x49, 0x23];
    assert(magic@ =~= ec_magic());
    if !match_at(clean.as_slice(), 0, magic.as_slice()) {
        return None;
    }
    let cps = ctx.clean_peb_size as u64;
    let mut vid = be32(clean.as_slice(), 0x10) as u64;
    let mut dof = be32(clean.as_slice(), 0x14) as u64;
    if vid == 0 || vid + 64 > cps {
        vid = NAND_PAGE_SIZE as u64;
    }
    if dof == 0 || dof >= cps {
        dof = vid + NAND_PAGE_SIZE as u64;
    }
    let clen = clean.len() as u64;
    let vmagic: [u8; 4] = [0x55, 0x42, 0x49, 0x21];
    assert(vmagic@ =~= vid_magic());
    if vid + 64 > clen || !match_at(clean.as_slice(), vid as usize, vmagic.as_slice()) {
        return None;
    }
    let v = vid as usize;
    let vol_id = be32(clean.as_slice(), v + 0x08);
    let lnum = be32(clean.as_slice(), v + 0x0C);
    let sqnum = be64(clean.as_slice(), v + 0x28);
    if dof >= clen {
        return None;
    }
    let leb = copy_range(clean.as_slice(), dof as usize, clean.len());
    assert(leb@ =~= clean@.skip(dof as int));
    Some((vol_id, lnum, sqnum, leb))
}

/// The LEBs of a volume: logical block number to sequence number and data.
pub open spec fn leb_model(v: KeyMap<(u64, Vec<u8>)>) -> Map<u32, (u64, Seq<u8>)> {
    v.map().map_values(|p: (u64, Vec<u8>)| (p.0, p.1@))
}

/// `m` after a copy of LEB `lnum` with sequence number `sq` is seen: the
/// copy replaces the one held unless that one's sequence number is at least
/// `sq`.
pub open spec fn newest(m: Map<u32, (u64, Seq<u8>)>, lnum: u32, sq: u64, data: Seq<u8>) -> Map<
    u32,
    (u64, Seq<u8>),
> {
    if m.contains_key(lnum) && m[lnum].0 >= sq {
        m
    } else {
        m.insert(lnum, (sq, data))
    }
}

/// Records a copy of LEB `lnum`, keeping the copy with the highest sequence
/// number (the first one seen on a tie).
pub fn insert_newest(vol: &mut KeyMap<(u64, Vec<u8>)>, lnum: u32, sqnum: u64, data: Vec<u8>)
    requires
        old(vol).wf(),
    ensures
        final(vol).wf(),
        leb_model(*final(vol)) == newest(leb_model(*old(vol)), lnum, sqnum, data@),
{
    let keep = match vol.get(lnum) {
        Some(p) => p.0 >= sqnum,
        None => false,
    };
    let ghost d = data@;
    if !keep {
        vol.insert(lnum, (sqnum, data));
        assert(leb_model(*vol) =~= leb_model(*old(vol)).insert(lnum, (sqnum, d)));
    }
}

/// The volumes: volume id to its LEBs.
pub open spec fn vols_model(v: KeyMap<KeyMap<(u64, Vec<u8>)>>) -> Map<u32, Map<u32, (u64, Seq<u8>)>> {
    v.map().map_values(|x: KeyMap<(u64, Vec<u8>)>| leb_model(x))
}

/// The volume map and each of its volumes are sorted by key.
pub open spec fn vols_wf(v: KeyMap<KeyMap<(u64, Vec<u8>)>>) -> bool {
    &&& v.wf()
    &&& forall|k: u32| #[trigger] v.map().contains_key(k) ==> v.map()[k].wf()
}

/// `m` after PEB data of volume `vol` is recorded.
pub open spec fn add_leb(
    m: Map<u32, Map<u32, (u64, Seq<u8>)>>,
    vol: u32,
    lnum: u32,
    sq: u64,
    data: Seq<u8>,
) -> Map<u32, Map<u32, (u64, Seq<u8>)>> {
    let v = if m.contains_key(vol) {
        m[vol]
    } else {
        Map::empty()
    };
    m.insert(vol, newest(v, lnum, sq, data))
}

/// The volumes found in the first `n` physical erase blocks of `image`.
pub open spec fn spec_volumes(image: Seq<u8>, ctx: UbiCtx, n: nat) -> Map<
    u32,
    Map<u32, (u64, Seq<u8>)>,
>
    decreases n,
{
    if n == 0 {
        Map::empty()
    } else {
        let prev = spec_volumes(image, ctx, (n - 1) as nat);
        let start = (n - 1) * ctx.phys_peb_size;
        let end = start + ctx.phys_peb_size;
        if end > image.len() {
            prev
        } else {
            match spec_parse_peb(image.subrange(start, end), ctx) {
                None => prev,
                Some((vol, lnum, sq, data)) => add_leb(prev, vol, lnum, sq, data),
            }
        }
    }
}

/// Parses every physical erase block of `image` and gathers the LEBs of
/// each volume, keeping the newest copy of each.
pub fn collect_volumes(image: &[u8], ctx: &UbiCtx) -> (r: KeyMap<KeyMap<(u64, Vec<u8>)>>)
    requires
        ctx_wf(*ctx),
    ensures
        vols_wf(r),
        vols_model(r) == spec_volumes(image@, *ctx, ctx.peb_count as nat),
{
    let mut vols: KeyMap<KeyMap<(u64, Vec<u8>)>> = KeyMap::new();
    assert(vols_model(vols) =~= Map::<u32, Map<u32, (u64, Seq<u8>)>>::empty());
    let phys = ctx.phys_peb_size;
    let len = image.len();
    let mut peb: usize = 0;
    let mut stopped = false;
    while peb < ctx.peb_count
        invariant
            ctx_wf(*ctx),
            phys == ctx.phys_peb_size,
            len == image@.len(),
            peb <= ctx.peb_count,
            vols_wf(vols),
            stopped ==> (peb as int) * phys > len,
            vols_model(vols) == spec_volumes(image@, *ctx, peb as nat),
        decreases ctx.peb_count - peb,
    {
        let ghost n = peb + 1;
        proof {
            assert(peb * phys + phys == (peb + 1) * phys) by (nonlinear_arith);
        }
        let mut fits = false;
        if !stopped && peb <= len / phys {
            proof {
                assert(peb * phys <= len) by (nonlinear_arith)
                    requires
                        peb <= len / phys,
                        phys > 0,
                ;
            }
            if len - peb * phys >= phys {
                fits = true;
            }
        }
        if !fits {
            proof {
                if !stopped {
                    if peb > len / phys {
                        assert(peb * phys > len) by (nonlinear_arith)
                            requires
                                peb > len / phys,
                                phys > 0,
                        ;
                    }
                }
                assert((peb + 1) * phys > len) by (nonlinear_arith)
                    requires
                        (stopped ==> peb * phys > len),
                        (!stopped ==> (peb * phys > len || len - peb * phys < phys)),
                        phys > 0,
                ;
            }
            stopped = true;
            peb += 1;
            proof {
                assert((peb as int) * phys > len) by (nonlinear_arith)
                    requires
                        peb * phys == (peb - 1) * phys + phys,
                        (peb - 1) * phys + phys > len,
                ;
            }
            continue;
        }
        proof {
            assert(peb * phys <= len) by (nonlinear_arith)
                requires
                    peb <= len / phys,
                    phys > 0,
            ;
        }
        let start = peb * phys;
        let buf = copy_range(image, start, start + phys);
        match parse_peb(buf.as_slice(), ctx) {
            None => {},
            Some((vol_id, lnum, sqnum, data)) => {
                let ghost m0 = vols_model(vols);
                let ghost d = data@;
                let mut v = match vols.remove(vol_id) {
                    Some(v) => v,
                    None => KeyMap::new(),
                };
                proof {
                    assert(leb_model(v) == (if m0.contains_key(vol_id) {
                        m0[vol_id]
                    } else {
                        Map::<u32, (u64, Seq<u8>)>::empty()
                    }));
                }
                insert_newest(&mut v, lnum, sqnum, data);
                let ghost vm = leb_model(v);
                vols.insert(vol_id, v);
                proof {
                    assert(vols_model(vols) =~= m0.insert(vol_id, vm));
                    assert(vols_wf(vols));
                }
            },
        }
        peb += 1;
        proof {
            assert(peb * phys == start + phys) by (nonlinear_arith)
                requires
                    peb == n,
                    start == (n - 1) * phys,
            ;
        }
    }
    vols
}

/// The data of the LEBs in `s`, one after another.
pub open spec fn concat_lebs(s: Seq<(u32, (u64, Vec<u8>))>) -> Seq<u8>
    decreases s.len(),
{
    if s.len() == 0 {
        Seq::empty()
    } else {
        concat_lebs(s.drop_last()) + s.last().1.1@
    }
}

/// Concatenates a volume's LEBs in ascending logical block order.
pub fn reconstruct_volume(vol: &KeyMap<(u64, Vec<u8>)>) -> (r: Vec<u8>)
    ensures
        r@ == concat_lebs(vol.pairs()),
{
    let mut out: Vec<u8> = Vec::new();
    let mut i: usize = 0;
    while i < vol.entries.len()
        invariant
            i <= vol.pairs().len(),
            out@ == concat_lebs(vol.pairs().take(i as int)),
        decreases vol.pairs().len() - i,
    {
        let d = &vol.entries[i].1.1;
        push_range(&mut out, d.as_slice(), 0, d.len());
        assert(vol.pairs().take(i + 1).drop_last() =~= vol.pairs().take(i as int));
        assert(d@.subrange(0, d@.len() as int) =~= d@);
        i += 1;
    }
    assert(vol.pairs().take(i as int) =~= vol.pairs());
    out
}

/// A character that cannot stand in a volume's directory name.
pub open spec fn bad_vol_char(c: char) -> bool {
    spec_is_control(c) || c == '/' || c == '\\' || c == ':'
}

/// `name` with each path separator, `:` and control character replaced by
/// `_`.
pub open spec fn replace_bad_vol_chars(name: Seq<char>) -> Seq<char> {
    Seq::new(name.len(), |i: int| if bad_vol_char(name[i]) { '_' } else { name[i] })
}

/// A volume name made safe as one directory name: path separators, `:` and
/// control characters become `_`, surrounding white space is removed, and
/// an empty name, `.` or `..` becomes `_`.
pub open spec fn spec_sanitize_vol_name(name: Seq<char>) -> Seq<char> {
    let t = spec_trim(replace_bad_vol_chars(name));
    if t.len() == 0 || t == seq!['.'] || t == seq!['.', '.'] {
        seq!['_']
    } else {
        t
    }
}

proof fn lemma_leading_ws_le(s: Seq<char>)
    ensures
        leading_ws(s) <= s.len(),
    decreases s.len(),
{
    if s.len() > 0 && spec_is_whitespace(s[0]) {
        lemma_leading_ws_le(s.drop_first());
    }
}

proof fn lemma_trailing_ws_le(s: Seq<char>)
    ensures
        trailing_ws(s) <= s.len(),
    decreases s.len(),
{
    if s.len() > 0 && spec_is_whitespace(s.last()) {
        lemma_trailing_ws_le(s.drop_last());
    }
}

/// Every character of a trimmed sequence is a character of the original.
proof fn lemma_trim_chars(s: Seq<char>, i: int)
    requires
        0 <= i < spec_trim(s).len(),
    ensures
        0 <= i + leading_ws(s) < s.len(),
        spec_trim(s)[i] == s[i + leading_ws(s)],
{
    lemma_leading_ws_le(s);
    lemma_trailing_ws_le(s.skip(leading_ws(s) as int));
}

/// Makes a volume name safe to use as one directory name.
pub fn sanitize_name(name: &[char]) -> (r: Vec<char>)
    ensures
        r@ == spec_sanitize_vol_name(name@),
        r@.len() > 0,
        r@ != seq!['.'],
        r@ != seq!['.', '.'],
        forall|i: int| 0 <= i < r@.len() ==> !bad_vol_char(#[trigger] r@[i]),
{
    let mut m: Vec<char> = Vec::new();
    let mut i: usize = 0;
    while i < name.len()
        invariant
            i <= name@.len(),
            m@ == replace_bad_vol_chars(name@).take(i as int),
        decreases name@.len() - i,
    {
        let c = name[i];
        if is_control(c) || c == '/' || c == '\\' || c == ':' {
            m.push('_');
        } else {
            m.push(c);
        }
        i += 1;
        assert(m@ =~= replace_bad_vol_chars(name@).take(i as int));
    }
    assert(replace_bad_vol_chars(name@).take(name@.len() as int) =~= replace_bad_vol_chars(name@));
    let t = trim(m.as_slice());
    let dot = t.len() == 1 && t[0] == '.';
    let dotdot = t.len() == 2 && t[0] == '.' && t[1] == '.';
    proof {
        assert(dot <==> t@ == seq!['.']) by {
            if t@ == seq!['.'] {
                assert(t@[0] == '.');
            }
            if dot {
                assert(t@ =~= seq!['.']);
            }
        }
        assert(dotdot <==> t@ == seq!['.', '.']) by {
            if t@ == seq!['.', '.'] {
                assert(t@[0] == '.' && t@[1] == '.');
            }
            if dotdot {
                assert(t@ =~= seq!['.', '.']);
            }
        }
    }
    if t.len() == 0 || dot || dotdot {
        let mut u: Vec<char> = Vec::new();
        u.push('_');
        assert(u@ =~= seq!['_']);
        assert(!bad_vol_char('_'));
        assert(u@ != seq!['.']) by {
            assert(seq!['.'][0] == '.');
        }
        u
    } else {
        proof {
            assert forall|k: int| 0 <= k < t@.len() implies !bad_vol_char(#[trigger] t@[k]) by {
                lemma_trim_chars(m@, k);
            }
        }
        t
    }
}

/// The volume-table data: LEB 0 of the layout volume, or else its LEB with
/// the lowest number.
pub open spec fn vtbl_data(layout: KeyMap<(u64, Vec<u8>)>) -> Option<Seq<u8>> {
    if layout.map().contains_key(0) {
        Some(layout.map()[0].1@)
    } else if layout.pairs().len() > 0 {
        Some(layout.pairs()[0].1.1@)
    } else {
        None
    }
}

/// The named records among the first `n` volume-table records of `data`:
/// record index and sanitised name, for records with reserved PEBs and a
/// name of 1 to 128 bytes.
pub open spec fn vtbl_names(data: Seq<u8>, n: nat) -> Seq<(u32, Seq<char>)>
    decreases n,
{
    if n == 0 {
        Seq::empty()
    } else {
        let prev = vtbl_names(data, (n - 1) as nat);
        let base = (n - 1) * UBI_VTBL_RECORD_SIZE;
        let reserved = spec_be32(data, base);
        let name_len = spec_be16(data, base + 0x0E);
        if reserved == 0 || name_len == 0 || name_len > 128 {
            prev
        } else {
            let name = utf8_lossy(data.subrange(base + 0x10, base + 0x10 + name_len));
            prev.push(((n - 1) as u32, spec_sanitize_vol_name(name)))
        }
    }
}

/// The names of the volume table held in `layout`.
pub open spec fn spec_volume_table(layout: KeyMap<(u64, Vec<u8>)>) -> Seq<(u32, Seq<char>)> {
    match vtbl_data(layout) {
        None => Seq::empty(),
        Some(d) => vtbl_names(d, d.len() / UBI_VTBL_RECORD_SIZE as nat),
    }
}

/// The models of a list of names.
pub open spec fn name_models(v: Seq<(u32, String)>) -> Seq<(u32, Seq<char>)> {
    Seq::new(v.len(), |i: int| (v[i].0, v[i].1@))
}

/// Reads the volume table from the layout volume: volume id (the record
/// index) to volume name.
pub fn parse_volume_table(layout: &KeyMap<(u64, Vec<u8>)>) -> (r: Vec<(u32, String)>)
    requires
        layout.wf(),
    ensures
        name_models(r@) == spec_volume_table(*layout),
{
    let mut names: Vec<(u32, String)> = Vec::new();
    let data: &Vec<u8> = match layout.get(0) {
        Some(p) => &p.1,
        None => {
            if layout.entries.len() > 0 {
                &layout.entries[0].1.1
            } else {
                assert(name_models(names@) =~= Seq::<(u32, Seq<char>)>::empty());
                return names;
            }
        },
    };
    let dlen = data.len();
    let count = dlen / UBI_VTBL_RECORD_SIZE;
    let mut idx: usize = 0;
    while idx < count
        invariant
            dlen == data@.len(),
            vtbl_data(*layout) == Some(data@),
            count == data@.len() / UBI_VTBL_RECORD_SIZE as nat,
            idx <= count,
            name_models(names@) == vtbl_names(data@, idx as nat),
        decreases count - idx,
    {
        proof {
            assert(idx * 172 + 172 <= dlen) by (nonlinear_arith)
                requires
                    idx < count,
                    count == dlen / 172,
            ;
        }
        let base = idx * UBI_VTBL_RECORD_SIZE;
        let reserved = be32(data.as_slice(), base);
        let name_len = be16(data.as_slice(), base + 0x0E) as usize;
        let ghost n0 = names@;
        if reserved != 0 && name_len != 0 && name_len <= 128 {
            let raw = copy_range(data.as_slice(), base + 0x10, base + 0x10 + name_len);
            let name = lossy_string(raw.as_slice());
            let chars = chars_of(name.as_str());
            let clean = sanitize_name(chars.as_slice());
            let rec_id: u32 = #[verifier::truncate] (idx as u32);
            names.push((rec_id, string_from_chars(clean.as_slice())));
            assert(name_models(names@) =~= name_models(n0).push(
                (idx as u32, spec_sanitize_vol_name(chars@)),
            ));
        }
        idx += 1;
    }
    names
}

/// The name recorded last for `vol_id` among `names`.
pub open spec fn lookup_last(names: Seq<(u32, Seq<char>)>, vol_id: u32) -> Option<Seq<char>>
    decreases names.len(),
{
    if names.len() == 0 {
        None
    } else if names.last().0 == vol_id {
        Some(names.last().1)
    } else {
        lookup_last(names.drop_last(), vol_id)
    }
}

/// The name that volume `vol_id` is extracted under: its volume-table name,
/// or `vol_<id>`.
pub open spec fn spec_volume_name(names: Seq<(u32, Seq<char>)>, vol_id: u32) -> Seq<char> {
    match lookup_last(names, vol_id) {
        Some(n) => n,
        None => "vol_"@ + spec_dec(vol_id as nat),
    }
}

/// Record `k` of volume-table data names a volume: it has reserved PEBs
/// and a name of 1 to 128 bytes.
pub open spec fn vtbl_record_named(data: Seq<u8>, k: int) -> bool {
    let base = k * UBI_VTBL_RECORD_SIZE;
    spec_be32(data, base) != 0 && 1 <= spec_be16(data, base + 0x0E) <= 128
}

/// The sanitised name held by record `k` of volume-table data.
pub open spec fn vtbl_record_name(data: Seq<u8>, k: int) -> Seq<char> {
    let base = k * UBI_VTBL_RECORD_SIZE;
    spec_sanitize_vol_name(utf8_lossy(data.subrange(base + 0x10, base + 0x10 + spec_be16(data, base + 0x0E))))
}

/// Every volume-table record that names a volume gives that volume its
/// name: volume `k` is extracted under the sanitised name of record `k`,
/// whatever the other records hold.
pub proof fn lemma_volume_table_names_each_record(data: Seq<u8>, n: nat, k: nat)
    requires
        k < n,
        n <= 0x1_0000_0000,
        vtbl_record_named(data, k as int),
    ensures
        spec_volume_name(vtbl_names(data, n), k as u32) == vtbl_record_name(data, k as int),
    decreases n,
{
    let prev = vtbl_names(data, (n - 1) as nat);
    if n - 1 == k {
        assert(vtbl_names(data, n) == prev.push((k as u32, vtbl_record_name(data, k as int))));
        assert(vtbl_names(data, n).last() == (k as u32, vtbl_record_name(data, k as int)));
    } else {
        lemma_volume_table_names_each_record(data, (n - 1) as nat, k);
        let cur = vtbl_names(data, n);
        if cur != prev {
            assert(cur.last().0 == (n - 1) as u32);
            assert(cur.drop_last() =~= prev);
        }
    }
}

/// Looks up the name of volume `vol_id`.
fn volume_name(names: &Vec<(u32, String)>, vol_id: u32) -> (r: Vec<char>)
    ensures
        r@ == spec_volume_name(name_models(names@), vol_id),
{
    let ghost nm = name_models(names@);
    let mut i: usize = names.len();
    assert(nm.take(i as int) =~= nm);
    while i > 0
        invariant
            nm == name_models(names@),
            i <= names@.len(),
            lookup_last(nm, vol_id) == lookup_last(nm.take(i as int), vol_id),
        decreases i,
    {
        assert(nm.take(i as int).drop_last() =~= nm.take(i - 1));
        assert(nm.take(i as int).last() == nm[i - 1]);
        if names[i - 1].0 == vol_id {
            return chars_of(names[i - 1].1.as_str());
        }
        i -= 1;
    }
    assert(nm.take(0) =~= Seq::<(u32, Seq<char>)>::empty());
    let mut r = chars_of("vol_");
    let d = dec(vol_id as u64);
    push_all(&mut r, d.as_slice());
    r
}

/// One reconstructed data volume.
pub struct UbiVolume {
    pub vol_id: u32,
    pub name: String,
    pub leb_count: usize,
    pub image: Vec<u8>,
}

/// The data volumes of `pairs` (the layout volume left out), with their
/// names and images, in the order of `pairs`.
pub open spec fn spec_volume_plan(
    pairs: Seq<(u32, KeyMap<(u64, Vec<u8>)>)>,
    names: Seq<(u32, Seq<char>)>,
) -> Seq<(u32, Seq<char>, nat, Seq<u8>)>
    decreases pairs.len(),
{
    if pairs.len() == 0 {
        Seq::empty()
    } else {
        let prev = spec_volume_plan(pairs.drop_last(), names);
        let (id, vol) = pairs.last();
        if id == UBI_LAYOUT_VOLUME_ID {
            prev
        } else {
            prev.push((id, spec_volume_name(names, id), vol.pairs().len(), concat_lebs(vol.pairs())))
        }
    }
}

/// The models of reconstructed volumes.
pub open spec fn volume_models(v: Seq<UbiVolume>) -> Seq<(u32, Seq<char>, nat, Seq<u8>)> {
    Seq::new(v.len(), |i: int| (v[i].vol_id, v[i].name@, v[i].leb_count as nat, v[i].image@))
}

/// The names of the volume table of `vols`, if it has a layout volume.
pub open spec fn vols_names(vols: KeyMap<KeyMap<(u64, Vec<u8>)>>) -> Seq<(u32, Seq<char>)> {
    if vols.map().contains_key(UBI_LAYOUT_VOLUME_ID) {
        spec_volume_table(vols.map()[UBI_LAYOUT_VOLUME_ID])
    } else {
        Seq::empty()
    }
}

/// Names and reconstructs every data volume, in ascending volume id order.
pub fn volume_images(vols: &KeyMap<KeyMap<(u64, Vec<u8>)>>) -> (r: Vec<UbiVolume>)
    requires
        vols_wf(*vols),
    ensures
        volume_models(r@) == spec_volume_plan(vols.pairs(), vols_names(*vols)),
{
    let names: Vec<(u32, String)> = match vols.get(UBI_LAYOUT_VOLUME_ID) {
        Some(layout) => parse_volume_table(layout),
        None => Vec::new(),
    };
    proof {
        if !vols.map().contains_key(UBI_LAYOUT_VOLUME_ID) {
            assert(name_models(names@) =~= Seq::<(u32, Seq<char>)>::empty());
        }
    }
    let mut out: Vec<UbiVolume> = Vec::new();
    let mut i: usize = 0;
    while i < vols.entries.len()
        invariant
            vols_wf(*vols),
            i <= vols.pairs().len(),
            name_models(names@) == vols_names(*vols),
            volume_models(out@) == spec_volume_plan(vols.pairs().take(i as int), vols_names(*vols)),
        decreases vols.pairs().len() - i,
    {
        let id = vols.entries[i].0;
        let vol = &vols.entries[i].1;
        let ghost o0 = out@;
        assert(vols.pairs().take(i + 1).drop_last() =~= vols.pairs().take(i as int));
        if id != UBI_LAYOUT_VOLUME_ID {
            let nm = volume_name(&names, id);
            let img = reconstruct_volume(vol);
            out.push(
                UbiVolume {
                    vol_id: id,
                    name: string_from_chars(nm.as_slice()),
                    leb_count: vol.entries.len(),
                    image: img,
                },
            );
            assert(volume_models(out@) =~= volume_models(o0).push(
                (id, spec_volume_name(vols_names(*vols), id), vol.pairs().len(), concat_lebs(vol.pairs())),
            ));
        }
        i += 1;
    }
    assert(vols.pairs().take(i as int) =~= vols.pairs());
    out
}

/// Rebuilds the data volumes of a UBI image: parses every PEB, keeps the
/// newest copy of each LEB, names the volumes from the volume table and
/// concatenates each volume's LEBs in order.
pub fn extract_ubi(image: &[u8], ctx: &UbiCtx) -> (r: Vec<UbiVolume>)
    requires
        ctx_wf(*ctx),
    ensures
        exists|vols: KeyMap<KeyMap<(u64, Vec<u8>)>>|
            #![trigger vols_model(vols)]
            vols_wf(vols) && vols_model(vols) == spec_volumes(image@, *ctx, ctx.peb_count as nat)
                && volume_models(r@) == spec_volume_plan(vols.pairs(), vols_names(vols)),
{
    let vols = collect_volumes(image, ctx);
    volume_images(&vols)
}

/// What physical erase block `p` of `image` holds, when it lies wholly in
/// the image and parses.
pub open spec fn peb_at(image: Seq<u8>, ctx: UbiCtx, p: int) -> Option<(u32, u32, u64, Seq<u8>)> {
    let start = p * ctx.phys_peb_size;
    let end = start + ctx.phys_peb_size;
    if p < 0 || end > image.len() {
        None
    } else {
        spec_parse_peb(image.subrange(start, end), ctx)
    }
}

/// PEB `p` carries LEB `lnum` of volume `vol`.
pub open spec fn carries(image: Seq<u8>, ctx: UbiCtx, p: int, vol: u32, lnum: u32) -> bool {
    match peb_at(image, ctx, p) {
        Some((v, l, _, _)) => v == vol && l == lnum,
        None => false,
    }
}

/// The sequence number of what PEB `p` holds.
pub open spec fn peb_sqnum(image: Seq<u8>, ctx: UbiCtx, p: int) -> u64 {
    match peb_at(image, ctx, p) {
        Some((_, _, sq, _)) => sq,
        None => 0,
    }
}

/// `p` is the first of the first `n` PEBs that carries LEB `lnum` of
/// volume `vol` with the copy `kept`, and every PEB before it that carries
/// that LEB has a lower sequence number.
pub open spec fn first_newest(image: Seq<u8>, ctx: UbiCtx, n: nat, vol: u32, lnum: u32, kept: (u64, Seq<u8>), p: int) -> bool {
    &&& 0 <= p < n
    &&& peb_at(image, ctx, p) == Some((vol, lnum, kept.0, kept.1))
    &&& forall|q: int| 0 <= q < p && #[trigger] carries(image, ctx, q, vol, lnum) ==> peb_sqnum(image, ctx, q) < kept.0
}

/// The newest copy of each LEB is kept: among the first `n` PEBs, a LEB
/// that some PEB carries is kept, its kept copy has a sequence number at
/// least that of every PEB carrying it, and it is the copy of the first
/// PEB carrying that LEB with that sequence number.
pub proof fn lemma_newest_copy_kept(image: Seq<u8>, ctx: UbiCtx, n: nat, vol: u32, lnum: u32)
    ensures
        forall|p: int|
            0 <= p < n && #[trigger] carries(image, ctx, p, vol, lnum) ==> spec_volumes(image, ctx, n).contains_key(vol)
                && spec_volumes(image, ctx, n)[vol].contains_key(lnum),
        spec_volumes(image, ctx, n).contains_key(vol) && spec_volumes(image, ctx, n)[vol].contains_key(lnum) ==> {
            let kept = spec_volumes(image, ctx, n)[vol][lnum];
            &&& forall|p: int| 0 <= p < n && #[trigger] carries(image, ctx, p, vol, lnum) ==> peb_sqnum(image, ctx, p) <= kept.0
            &&& exists|p: int| #[trigger] first_newest(image, ctx, n, vol, lnum, kept, p)
        },
    decreases n,
{
    if n > 0 {
        let m = (n - 1) as nat;
        lemma_newest_copy_kept(image, ctx, m, vol, lnum);
        let prev = spec_volumes(image, ctx, m);
        let cur = spec_volumes(image, ctx, n);
        let p = n - 1;
        let had = prev.contains_key(vol) && prev[vol].contains_key(lnum);
        match peb_at(image, ctx, p) {
            None => {
                assert(cur == prev);
                assert(!carries(image, ctx, p, vol, lnum));
                if had {
                    let kept = prev[vol][lnum];
                    let w = choose|w: int| #[trigger] first_newest(image, ctx, m, vol, lnum, kept, w);
                    assert(first_newest(image, ctx, n, vol, lnum, kept, w));
                }
            },
            Some((v, l, sq, d)) => {
                assert(cur == add_leb(prev, v, l, sq, d));
                let inner = if prev.contains_key(v) {
                    prev[v]
                } else {
                    Map::<u32, (u64, Seq<u8>)>::empty()
                };
                assert(cur[v] == newest(inner, l, sq, d));
                if v == vol && l == lnum {
                    assert(carries(image, ctx, p, vol, lnum));
                    if had && prev[vol][lnum].0 >= sq {
                        assert(cur[vol] == prev[vol]);
                        let kept = prev[vol][lnum];
                        let w = choose|w: int| #[trigger] first_newest(image, ctx, m, vol, lnum, kept, w);
                        assert(first_newest(image, ctx, n, vol, lnum, kept, w));
                    } else {
                        assert(cur[vol][lnum] == (sq, d));
                        assert forall|q: int| 0 <= q < n && #[trigger] carries(image, ctx, q, vol, lnum)
                            implies peb_sqnum(image, ctx, q) <= sq by {
                            if q < m {
                                assert(had);
                            }
                        }
                        assert forall|q: int| 0 <= q < p && #[trigger] carries(image, ctx, q, vol, lnum)
                            implies peb_sqnum(image, ctx, q) < sq by {
                            assert(had);
                        }
                        assert(first_newest(image, ctx, n, vol, lnum, (sq, d), p));
                    }
                } else {
                    assert(!carries(image, ctx, p, vol, lnum));
                    if v == vol {
                        if had {
                            assert(cur[vol][lnum] == prev[vol][lnum]);
                        }
                        assert(cur[vol].contains_key(lnum) ==> had);
                    } else {
                        if prev.contains_key(vol) {
                            assert(cur[vol] == prev[vol]);
                        }
                        assert(cur.contains_key(vol) ==> prev.contains_key(vol));
                    }
                    if had {
                        let kept = prev[vol][lnum];
                        assert(cur[vol][lnum] == kept);
                        let w = choose|w: int| #[trigger] first_newest(image, ctx, m, vol, lnum, kept, w);
                        assert(first_newest(image, ctx, n, vol, lnum, kept, w));
                    }
                }
            },
        }
    }
}

} // verus!

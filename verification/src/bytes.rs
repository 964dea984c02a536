//! Little- and big-endian integer reads from byte buffers.

use vstd::prelude::*;

verus! {

/// The little-endian value of the two bytes of `s` starting at `off`.
pub open spec fn spec_le16(s: Seq<u8>, off: int) -> int {
    s[off] as int + s[off + 1] as int * 0x100
}

/// The little-endian value of the four bytes of `s` starting at `off`.
pub open spec fn spec_le32(s: Seq<u8>, off: int) -> int {
    spec_le16(s, off) + spec_le16(s, off + 2) * 0x1_0000
}

/// The little-endian value of the eight bytes of `s` starting at `off`.
pub open spec fn spec_le64(s: Seq<u8>, off: int) -> int {
    spec_le32(s, off) + spec_le32(s, off + 4) * 0x1_0000_0000
}

/// The big-endian value of the two bytes of `s` starting at `off`.
pub open spec fn spec_be16(s: Seq<u8>, off: int) -> int {
    s[off] as int * 0x100 + s[off + 1] as int
}

/// The big-endian value of the four bytes of `s` starting at `off`.
pub open spec fn spec_be32(s: Seq<u8>, off: int) -> int {
    spec_be16(s, off) * 0x1_0000 + spec_be16(s, off + 2)
}

/// The big-endian value of the eight bytes of `s` starting at `off`.
pub open spec fn spec_be64(s: Seq<u8>, off: int) -> int {
    spec_be32(s, off) * 0x1_0000_0000 + spec_be32(s, off + 4)
}

/// Reads a little-endian `u16` at `off`.
pub fn le16(b: &[u8], off: usize) -> (r: u16)
    requires
        off + 2 <= b@.len(),
    ensures
        r as int == spec_le16(b@, off as int),
{
    b[off] as u16 + (b[off + 1] as u16) * 0x100
}

/// Reads a little-endian `u32` at `off`.
pub fn le32(b: &[u8], off: usize) -> (r: u32)
    requires
        off + 4 <= b@.len(),
    ensures
        r as int == spec_le32(b@, off as int),
{
    let _n = b.len();
    let lo = le16(b, off) as u32;
    let hi = le16(b, off + 2) as u32;
    lo + hi * 0x1_0000
}

/// Reads a little-endian `u64` at `off`.
pub fn le64(b: &[u8], off: usize) -> (r: u64)
    requires
        off + 8 <= b@.len(),
    ensures
        r as int == spec_le64(b@, off as int),
{
    let _n = b.len();
    let lo = le32(b, off) as u64;
    let hi = le32(b, off + 4) as u64;
    lo + hi * 0x1_0000_0000
}

/// Reads a big-endian `u16` at `off`.
pub fn be16(b: &[u8], off: usize) -> (r: u16)
    requires
        off + 2 <= b@.len(),
    ensures
        r as int == spec_be16(b@, off as int),
{
    (b[off] as u16) * 0x100 + b[off + 1] as u16
}

/// Reads a big-endian `u32` at `off`.
pub fn be32(b: &[u8], off: usize) -> (r: u32)
    requires
        off + 4 <= b@.len(),
    ensures
        r as int == spec_be32(b@, off as int),
{
    let _n = b.len();
    let hi = be16(b, off) as u32;
    let lo = be16(b, off + 2) as u32;
    hi * 0x1_0000 + lo
}

/// Reads a big-endian `u64` at `off`.
pub fn be64(b: &[u8], off: usize) -> (r: u64)
    requires
        off + 8 <= b@.len(),
    ensures
        r as int == spec_be64(b@, off as int),
{
    let _n = b.len();
    let hi = be32(b, off) as u64;
    let lo = be32(b, off + 4) as u64;
    hi * 0x1_0000_0000 + lo
}

/// `s[start..start + len]` is equal to `pat`.
pub open spec fn bytes_match_at(s: Seq<u8>, start: int, pat: Seq<u8>) -> bool {
    &&& 0 <= start
    &&& start + pat.len() <= s.len()
    &&& s.subrange(start, start + pat.len()) == pat
}

/// Compares `b[start..start + pat.len()]` with `pat`; false when out of range.
pub fn match_at(b: &[u8], start: usize, pat: &[u8]) -> (r: bool)
    ensures
        r == bytes_match_at(b@, start as int, pat@),
{
    if start > b.len() || pat.len() > b.len() - start {
        return false;
    }
    let mut i: usize = 0;
    let blen = b.len();
    while i < pat.len()
        invariant
            blen == b@.len(),
            start + pat@.len() <= b@.len(),
            i <= pat@.len(),
            forall|j: int| 0 <= j < i ==> b@[start + j] == pat@[j],
        decreases pat@.len() - i,
    {
        if b[start + i] != pat[i] {
            assert(b@.subrange(start as int, start + pat@.len())[i as int] != pat@[i as int]);
            return false;
        }
        i += 1;
    }
    assert(b@.subrange(start as int, start + pat@.len()) =~= pat@);
    true
}

/// Copies `b[start..end]` into a new vector.
pub fn copy_range(b: &[u8], start: usize, end: usize) -> (r: Vec<u8>)
    requires
        start <= end <= b@.len(),
    ensures
        r@ == b@.subrange(start as int, end as int),
{
    let mut out: Vec<u8> = Vec::new();
    let mut i = start;
    while i < end
        invariant
            start <= i <= end <= b@.len(),
            out@ == b@.subrange(start as int, i as int),
        decreases end - i,
    {
        out.push(b[i]);
        i += 1;
        assert(out@ =~= b@.subrange(start as int, i as int));
    }
    out
}

/// Appends `b[start..end]` to `out`.
pub fn push_range(out: &mut Vec<u8>, b: &[u8], start: usize, end: usize)
    requires
        start <= end <= b@.len(),
    ensures
        final(out)@ == old(out)@ + b@.subrange(start as int, end as int),
{
    let ghost o0 = out@;
    let mut i = start;
    while i < end
        invariant
            start <= i <= end <= b@.len(),
            out@ == o0 + b@.subrange(start as int, i as int),
        decreases end - i,
    {
        out.push(b[i]);
        i += 1;
        assert(out@ =~= o0 + b@.subrange(start as int, i as int));
    }
}

} // verus!

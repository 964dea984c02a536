//! Philips UPG package headers.

use vstd::prelude::*;
use crate::bytes::{copy_range, le32, spec_le32};
use crate::text::{lossy_string, string_from_chars, chars_of, utf8_lossy};

verus! {

/// The bytes of `b` before its first NUL (all of `b` when it has none).
pub open spec fn until_nul(b: Seq<u8>) -> Seq<u8>
    decreases b.len(),
{
    if b.len() == 0 {
        b
    } else if until_nul(b.drop_last()).len() < b.len() - 1 {
        until_nul(b.drop_last())
    } else if b.last() == 0 {
        b.drop_last()
    } else {
        b
    }
}

/// The index of the first NUL of `b`, or its length.
pub fn nul_position(b: &[u8]) -> (r: usize)
    ensures
        r <= b@.len(),
        until_nul(b@) == b@.take(r as int),
{
    let mut i: usize = 0;
    while i < b.len() && b[i] != 0
        invariant
            i <= b@.len(),
            forall|j: int| 0 <= j < i ==> b@[j] != 0,
            until_nul(b@.take(i as int)) == b@.take(i as int),
        decreases b@.len() - i,
    {
        assert(b@.take(i + 1).drop_last() =~= b@.take(i as int));
        i += 1;
    }
    proof {
        lemma_until_nul_prefix(b@, i as int);
    }
    i
}

proof fn lemma_until_nul_prefix(b: Seq<u8>, i: int)
    requires
        0 <= i <= b.len(),
        until_nul(b.take(i)) == b.take(i),
        i < b.len() ==> b[i] == 0,
    ensures
        until_nul(b) == b.take(i),
    decreases b.len() - i,
{
    if i < b.len() {
        let k = i + 1;
        assert(b.take(k).drop_last() =~= b.take(i));
        assert(until_nul(b.take(k)) == b.take(i));
        lemma_until_nul_extend(b, k, i);
    } else {
        assert(b.take(i) =~= b);
    }
}

proof fn lemma_until_nul_extend(b: Seq<u8>, k: int, i: int)
    requires
        0 <= i < k <= b.len(),
        until_nul(b.take(k)) == b.take(i),
    ensures
        until_nul(b) == b.take(i),
    decreases b.len() - k,
{
    if k < b.len() {
        assert(b.take(k + 1).drop_last() =~= b.take(k));
        lemma_until_nul_extend(b, k + 1, i);
    } else {
        assert(b.take(k) =~= b);
    }
}

/// A NUL-terminated string field: the bytes before the first NUL, decoded
/// as lossy UTF-8.
pub fn string_from_bytes(b: &[u8]) -> (r: String)
    ensures
        r@ == utf8_lossy(until_nul(b@)),
{
    let end = nul_position(b);
    let raw = copy_range(b, 0, end);
    assert(raw@ =~= b@.take(end as int));
    lossy_string(raw.as_slice())
}

/// Size of an encoded package header.
pub const HEADER_SIZE: usize = 544;
/// Size of an encoded file header.
pub const FILE_HEADER_SIZE: usize = 76;

/// The package header of a UPG file.
pub struct Header {
    pub magic_bytes: [u8; 8],
    /// Offset of the data.
    pub header_size: u32,
    pub data_size: u32,
    pub crc32: u32,
    pub mask: u32,
    pub data_size_decompressed: u32,
    pub padding2: u32,
    pub description_bytes: [u8; 512],
}

/// The header of one file inside a UPG package.
pub struct FileHeader {
    pub file_name_bytes: [u8; 60],
    pub real_size: u32,
    pub stored_size: u32,
    pub header_size: u32,
    pub attributes: [u8; 4],
}

/// Replaces every carriage return with a line feed.
pub open spec fn cr_to_lf(s: Seq<char>) -> Seq<char> {
    Seq::new(s.len(), |i: int| if s[i] == '\r' { '\n' } else { s[i] })
}

fn array_from<const N: usize>(b: &[u8], start: usize) -> (r: [u8; N])
    requires
        start + N <= b@.len(),
    ensures
        r@ == b@.subrange(start as int, start + N),
{
    let mut a: [u8; N] = [0u8; N];
    let mut i: usize = 0;
    let blen = b.len();
    while i < N
        invariant
            blen == b@.len(),
            start + N <= b@.len(),
            i <= N,
            a@.len() == N,
            forall|j: int| 0 <= j < i ==> a@[j] == b@[start + j],
        decreases N - i,
    {
        a[i] = b[start + i];
        i += 1;
    }
    assert(a@ =~= b@.subrange(start as int, start + N));
    a
}

impl Header {
    /// Decodes a little-endian package header from its first 544 bytes.
    pub fn from_bytes(b: &[u8]) -> (r: Option<Header>)
        ensures
            b@.len() < HEADER_SIZE ==> r is None,
            b@.len() >= HEADER_SIZE ==> (r matches Some(h) && {
                &&& h.magic_bytes@ == b@.subrange(0, 8)
                &&& h.header_size as int == spec_le32(b@, 8)
                &&& h.data_size as int == spec_le32(b@, 12)
                &&& h.crc32 as int == spec_le32(b@, 16)
                &&& h.mask as int == spec_le32(b@, 20)
                &&& h.data_size_decompressed as int == spec_le32(b@, 24)
                &&& h.padding2 as int == spec_le32(b@, 28)
                &&& h.description_bytes@ == b@.subrange(32, 544)
            }),
    {
        if b.len() < HEADER_SIZE {
            return None;
        }
        Some(
            Header {
                magic_bytes: array_from(b, 0),
                header_size: le32(b, 8),
                data_size: le32(b, 12),
                crc32: le32(b, 16),
                mask: le32(b, 20),
                data_size_decompressed: le32(b, 24),
                padding2: le32(b, 28),
                description_bytes: array_from(b, 32),
            },
        )
    }

    /// The description text: the NUL-terminated field with carriage returns
    /// turned into line feeds.
    pub fn description(&self) -> (r: String)
        ensures
            r@ == cr_to_lf(utf8_lossy(until_nul(self.description_bytes@))),
    {
        let s = string_from_bytes(self.description_bytes.as_slice());
        let c = chars_of(s.as_str());
        let mut out: Vec<char> = Vec::new();
        let mut i: usize = 0;
        while i < c.len()
            invariant
                i <= c@.len(),
                out@ == cr_to_lf(c@).take(i as int),
            decreases c@.len() - i,
        {
            if c[i] == '\r' {
                out.push('\n');
            } else {
                out.push(c[i]);
            }
            i += 1;
            assert(out@ =~= cr_to_lf(c@).take(i as int));
        }
        assert(cr_to_lf(c@).take(i as int) =~= cr_to_lf(c@));
        string_from_chars(out.as_slice())
    }

    /// Whether the package payload is encrypted (mask bit 29).
    pub fn is_encrypted(&self) -> (r: bool)
        ensures
            r == (self.mask & 0x2000_0000 != 0),
    {
        (self.mask & 0x2000_0000) != 0
    }
}

impl FileHeader {
    /// Decodes a little-endian file header from its first 76 bytes.
    pub fn from_bytes(b: &[u8]) -> (r: Option<FileHeader>)
        ensures
            b@.len() < FILE_HEADER_SIZE ==> r is None,
            b@.len() >= FILE_HEADER_SIZE ==> (r matches Some(h) && {
                &&& h.file_name_bytes@ == b@.subrange(0, 60)
                &&& h.real_size as int == spec_le32(b@, 60)
                &&& h.stored_size as int == spec_le32(b@, 64)
                &&& h.header_size as int == spec_le32(b@, 68)
                &&& h.attributes@ == b@.subrange(72, 76)
            }),
    {
        if b.len() < FILE_HEADER_SIZE {
            return None;
        }
        Some(
            FileHeader {
                file_name_bytes: array_from(b, 0),
                real_size: le32(b, 60),
                stored_size: le32(b, 64),
                header_size: le32(b, 68),
                attributes: array_from(b, 72),
            },
        )
    }

    /// The file name: the NUL-terminated name field.
    pub fn file_name(&self) -> (r: String)
        ensures
            r@ == utf8_lossy(until_nul(self.file_name_bytes@)),
    {
        string_from_bytes(self.file_name_bytes.as_slice())
    }

    /// Whether the entry is a folder (bit 1 of attribute byte 3).
    pub fn is_folder(&self) -> (r: bool)
        ensures
            r == (self.attributes@[3] & 2 != 0),
    {
        (self.attributes[3] & 2) != 0
    }

    /// Whether the entry's name continues past the name field (bit 7 of
    /// attribute byte 2).
    pub fn has_extended_name(&self) -> (r: bool)
        ensures
            r == (self.attributes@[2] & 0x80 != 0),
    {
        (self.attributes[2] & 0x80) != 0
    }

    /// Whether the entry is an inner package (bit 2 of attribute byte 3).
    pub fn is_package(&self) -> (r: bool)
        ensures
            r == (self.attributes@[3] & 4 != 0),
    {
        (self.attributes[3] & 4) != 0
    }
}

} // verus!

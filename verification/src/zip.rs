//! ZIP archive reading on the archive's bytes: the end-of-central-directory
//! search, the central directory, local headers and entry data.

use vstd::prelude::*;
use crate::bytes::{copy_range, le16, le32, spec_le16, spec_le32};
use crate::text::{chars_of, lossy_string, utf8_lossy};

verus! {

pub const LOCAL_FILE_HEADER_SIZE: u64 = 30;
pub const CENTRAL_DIRECTORY_HEADER_SIZE: u64 = 46;
pub const END_OF_CENTRAL_DIRECTORY_SIZE: u64 = 22;
pub const ZIP_EOCD_SEARCH_LIMIT: u64 = 65_557;

pub const LOCAL_FILE_HEADER_MAGIC: u32 = 0x0403_4b50;
pub const CENTRAL_DIRECTORY_HEADER_MAGIC: u32 = 0x0201_4b50;
pub const END_OF_CENTRAL_DIRECTORY_MAGIC: u32 = 0x0605_4b50;

pub const COMPRESSION_STORED: u16 = 0;
pub const COMPRESSION_DEFLATED: u16 = 8;

/// Why an archive or one of its entries could not be read.
#[derive(Debug, Clone, Copy, PartialEq, Eq, Structural)]
pub enum ZipError {
    /// Shorter than an end-of-central-directory record.
    TooSmall,
    /// No acceptable end-of-central-directory record in the search window.
    EndOfCentralDirectoryNotFound,
    /// A central directory header without its magic.
    InvalidCentralDirectoryEntry,
    /// A local header without its magic.
    InvalidLocalHeader,
    /// A read ran past the end of the archive.
    UnexpectedEof,
    /// An entry uses a compression method other than stored or deflated.
    UnsupportedCompression(u16),
    /// The deflate stream of an entry could not be decoded.
    CorruptDeflateStream,
    /// A size does not fit in `usize`.
    TooLarge,
    /// The offset of an entry's data does not fit in 64 bits.
    OffsetOverflow,
}

/// One file or directory recorded in the central directory.
#[derive(Clone)]
pub struct ZipEntry {
    pub name: String,
    pub compression_method: u16,
    pub compressed_size: u64,
    pub uncompressed_size: u64,
    pub local_header_offset: u64,
}

/// Reads a little-endian `u16` at `offset`.
pub fn read_u16(buffer: &[u8], offset: usize) -> (r: u16)
    requires
        offset + 2 <= buffer@.len(),
    ensures
        r as int == spec_le16(buffer@, offset as int),
{
    le16(buffer, offset)
}

/// Reads a little-endian `u32` at `offset`.
pub fn read_u32(buffer: &[u8], offset: usize) -> (r: u32)
    requires
        offset + 4 <= buffer@.len(),
    ensures
        r as int == spec_le32(buffer@, offset as int),
{
    le32(buffer, offset)
}

/// The record at `pos` is an end-of-central-directory record whose central
/// directory ends no later than `pos`.
pub open spec fn eocd_accepted(data: Seq<u8>, pos: int) -> bool {
    &&& spec_le32(data, pos) == END_OF_CENTRAL_DIRECTORY_MAGIC
    &&& spec_le32(data, pos + 16) + spec_le32(data, pos + 12) <= pos
}

/// The highest position in `lo..=pos` holding an accepted record.
pub open spec fn find_eocd(data: Seq<u8>, lo: int, pos: int) -> Option<int>
    decreases pos - lo + 1,
{
    if pos < lo || pos < 0 {
        None
    } else if eocd_accepted(data, pos) {
        Some(pos)
    } else {
        find_eocd(data, lo, pos - 1)
    }
}

/// First position searched for the end-of-central-directory record.
pub open spec fn eocd_search_start(len: int) -> int {
    if len >= ZIP_EOCD_SEARCH_LIMIT {
        len - ZIP_EOCD_SEARCH_LIMIT
    } else {
        0
    }
}

/// Offset just past the central directory header at `off`.
pub open spec fn central_entry_end(data: Seq<u8>, off: int) -> int {
    off + CENTRAL_DIRECTORY_HEADER_SIZE + spec_le16(data, off + 28) + spec_le16(data, off + 30)
        + spec_le16(data, off + 32)
}

/// The offsets of `count` consecutive central directory headers starting at
/// `off`, or the error met while reading them.
pub open spec fn central_offsets(data: Seq<u8>, off: int, count: nat) -> Result<
    Seq<int>,
    ZipError,
>
    decreases count,
{
    if count == 0 {
        Ok(Seq::empty())
    } else if off + CENTRAL_DIRECTORY_HEADER_SIZE > data.len() {
        Err(ZipError::UnexpectedEof)
    } else if spec_le32(data, off) != CENTRAL_DIRECTORY_HEADER_MAGIC {
        Err(ZipError::InvalidCentralDirectoryEntry)
    } else if central_entry_end(data, off) > data.len() {
        Err(ZipError::UnexpectedEof)
    } else {
        match central_offsets(data, central_entry_end(data, off), (count - 1) as nat) {
            Ok(rest) => Ok(seq![off] + rest),
            Err(e) => Err(e),
        }
    }
}

/// The central directory header offsets of the archive `data`.
pub open spec fn spec_zip_offsets(data: Seq<u8>) -> Result<Seq<int>, ZipError> {
    if data.len() < END_OF_CENTRAL_DIRECTORY_SIZE {
        Err(ZipError::TooSmall)
    } else {
        match find_eocd(
            data,
            eocd_search_start(data.len() as int),
            data.len() - END_OF_CENTRAL_DIRECTORY_SIZE,
        ) {
            None => Err(ZipError::EndOfCentralDirectoryNotFound),
            Some(pos) => central_offsets(
                data,
                spec_le32(data, pos + 16),
                spec_le16(data, pos + 10) as nat,
            ),
        }
    }
}

/// `e` is the entry described by the central directory header at `off`.
pub open spec fn entry_at(data: Seq<u8>, off: int, e: ZipEntry) -> bool {
    let name_len = spec_le16(data, off + 28);
    &&& e.name@ == utf8_lossy(
        data.subrange(off + CENTRAL_DIRECTORY_HEADER_SIZE, off + CENTRAL_DIRECTORY_HEADER_SIZE + name_len),
    )
    &&& e.compression_method as int == spec_le16(data, off + 10)
    &&& e.compressed_size as int == spec_le32(data, off + 20)
    &&& e.uncompressed_size as int == spec_le32(data, off + 24)
    &&& e.local_header_offset as int == spec_le32(data, off + 42)
}

/// `entries` are the entries described at `offs`, in order.
pub open spec fn entries_at(data: Seq<u8>, offs: Seq<int>, entries: Seq<ZipEntry>) -> bool {
    &&& entries.len() == offs.len()
    &&& forall|i: int| 0 <= i < offs.len() ==> entry_at(data, offs[i], #[trigger] entries[i])
}

/// `r` is what reading the archive `data` gives.
pub open spec fn zip_entries_result(data: Seq<u8>, r: Result<Vec<ZipEntry>, ZipError>) -> bool {
    match spec_zip_offsets(data) {
        Ok(offs) => r matches Ok(v) && entries_at(data, offs, v@),
        Err(e) => r == Err::<Vec<ZipEntry>, ZipError>(e),
    }
}

proof fn lemma_central_first_error(data: Seq<u8>, off: int, count: nat)
    requires
        count >= 1,
        central_offsets(data, off, 1) is Err,
    ensures
        central_offsets(data, off, count) == central_offsets(data, off, 1),
{
    assert(central_offsets(data, central_entry_end(data, off), 0) is Ok);
}

proof fn lemma_find_eocd_step(data: Seq<u8>, lo: int, pos: int)
    requires
        lo <= pos,
        0 <= pos,
        !eocd_accepted(data, pos),
    ensures
        find_eocd(data, lo, pos) == find_eocd(data, lo, pos - 1),
{
}

/// Searches backwards from the last possible position for the
/// end-of-central-directory record.
fn locate_eocd(data: &[u8]) -> (r: Option<usize>)
    requires
        data@.len() >= END_OF_CENTRAL_DIRECTORY_SIZE,
    ensures
        r matches Some(p) ==> find_eocd(
            data@,
            eocd_search_start(data@.len() as int),
            data@.len() - END_OF_CENTRAL_DIRECTORY_SIZE,
        ) == Some(p as int),
        r matches Some(p) ==> p + END_OF_CENTRAL_DIRECTORY_SIZE <= data@.len(),
        r is None ==> find_eocd(
            data@,
            eocd_search_start(data@.len() as int),
            data@.len() - END_OF_CENTRAL_DIRECTORY_SIZE,
        ) is None,
{
    let len = data.len();
    let lo: usize = if len >= 65_557 {
        len - 65_557
    } else {
        0
    };
    let hi: usize = len - 22;
    let mut pos: usize = hi;
    while pos >= lo
        invariant
            len == data@.len(),
            len >= 22,
            lo as int == eocd_search_start(len as int),
            hi == len - 22,
            lo <= hi,
            pos <= hi,
            find_eocd(data@, lo as int, hi as int) == find_eocd(data@, lo as int, pos as int),
        decreases pos,
    {
        let magic = read_u32(data, pos);
        let total_size = read_u32(data, pos + 12) as u64;
        let cd_offset = read_u32(data, pos + 16) as u64;
        if magic == END_OF_CENTRAL_DIRECTORY_MAGIC && cd_offset + total_size <= pos as u64 {
            return Some(pos);
        }
        proof {
            lemma_find_eocd_step(data@, lo as int, pos as int);
        }
        if pos == 0 {
            assert(find_eocd(data@, lo as int, -1) is None);
            return None;
        }
        pos -= 1;
    }
    None
}

/// Reads the central directory header at `off`; returns the entry and the
/// offset of the next header.
fn read_central_entry(data: &[u8], off: usize) -> (r: Result<(ZipEntry, usize), ZipError>)
    ensures
        match r {
            Ok((e, next)) => {
                &&& off + CENTRAL_DIRECTORY_HEADER_SIZE <= data@.len()
                &&& spec_le32(data@, off as int) == CENTRAL_DIRECTORY_HEADER_MAGIC
                &&& central_entry_end(data@, off as int) <= data@.len()
                &&& next as int == central_entry_end(data@, off as int)
                &&& entry_at(data@, off as int, e)
            },
            Err(err) => central_offsets(data@, off as int, 1) == Err::<Seq<int>, ZipError>(
                err,
            ),
        },
{
    let len = data.len();
    if off > len || len - off < 46 {
        return Err(ZipError::UnexpectedEof);
    }
    if read_u32(data, off) != CENTRAL_DIRECTORY_HEADER_MAGIC {
        return Err(ZipError::InvalidCentralDirectoryEntry);
    }
    let name_len = read_u16(data, off + 28) as usize;
    let extra_len = read_u16(data, off + 30) as usize;
    let comment_len = read_u16(data, off + 32) as usize;
    let name_start = off + 46;
    if len - name_start < name_len + extra_len + comment_len {
        return Err(ZipError::UnexpectedEof);
    }
    let name_bytes = copy_range(data, name_start, name_start + name_len);
    let entry = ZipEntry {
        name: lossy_string(name_bytes.as_slice()),
        compression_method: read_u16(data, off + 10),
        compressed_size: read_u32(data, off + 20) as u64,
        uncompressed_size: read_u32(data, off + 24) as u64,
        local_header_offset: read_u32(data, off + 42) as u64,
    };
    Ok((entry, name_start + name_len + extra_len + comment_len))
}

/// Reads the central directory of the archive `data`.
pub fn read_zip_entries(data: &[u8]) -> (r: Result<Vec<ZipEntry>, ZipError>)
    ensures
        zip_entries_result(data@, r),
{
    let len = data.len();
    if len < 22 {
        return Err(ZipError::TooSmall);
    }
    let pos = match locate_eocd(data) {
        Some(p) => p,
        None => return Err(ZipError::EndOfCentralDirectoryNotFound),
    };
    let total = read_u16(data, pos + 10);
    let cd_offset = read_u32(data, pos + 16) as usize;
    let mut entries: Vec<ZipEntry> = Vec::new();
    let ghost mut offs: Seq<int> = Seq::empty();
    let mut off: usize = cd_offset;
    let mut i: u16 = 0;
    while i < total
        invariant
            len == data@.len(),
            len >= 22,
            find_eocd(data@, eocd_search_start(len as int), len - 22) == Some(pos as int),
            total as int == spec_le16(data@, pos + 10),
            cd_offset as int == spec_le32(data@, pos + 16),
            i <= total,
            entries_at(data@, offs, entries@),
            spec_zip_offsets(data@) == match central_offsets(
                data@,
                off as int,
                (total - i) as nat,
            ) {
                Ok(rest) => Ok(offs + rest),
                Err(e) => Err::<Seq<int>, ZipError>(e),
            },
        decreases total - i,
    {
        let ghost prev = entries@;
        match read_central_entry(data, off) {
            Ok((e, next)) => {
                proof {
                    assert(central_offsets(data@, off as int, (total - i) as nat) == match central_offsets(
                        data@,
                        next as int,
                        (total - i - 1) as nat,
                    ) {
                        Ok(rest) => Ok(seq![off as int] + rest),
                        Err(e) => Err::<Seq<int>, ZipError>(e),
                    });
                    match central_offsets(data@, next as int, (total - i - 1) as nat) {
                        Ok(rest) => {
                            assert(offs + (seq![off as int] + rest) =~= offs.push(off as int)
                                + rest);
                        },
                        Err(_) => {},
                    }
                    offs = offs.push(off as int);
                }
                entries.push(e);
                off = next;
                i += 1;
                assert(entries_at(data@, offs, entries@)) by {
                    assert forall|k: int| 0 <= k < offs.len() implies entry_at(
                        data@,
                        offs[k],
                        #[trigger] entries@[k],
                    ) by {
                        if k < offs.len() - 1 {
                            assert(entries@[k] == prev[k]);
                        }
                    }
                }
            },
            Err(err) => {
                proof {
                    assert(central_offsets(data@, off as int, 1) == Err::<Seq<int>, ZipError>(
                        err,
                    ));
                    lemma_central_first_error(data@, off as int, (total - i) as nat);
                }
                return Err(err);
            },
        }
    }
    assert(central_offsets(data@, off as int, 0) == Ok::<Seq<int>, ZipError>(Seq::empty()));
    assert(offs + Seq::<int>::empty() =~= offs);
    Ok(entries)
}


/// What `flate2::read::DeflateDecoder` yields when it reads the raw deflate
/// stream `input` to its end: the decoded bytes, or `None` when it reports an
/// error.
pub uninterp spec fn inflate_stream(input: Seq<u8>) -> Option<Seq<u8>>;

/// Decodes a raw deflate stream with `flate2::read::DeflateDecoder`, reading
/// until the decoder reports the end. The result is named by
/// `inflate_stream`; what the decoder computes is not restated here.
#[verifier::external_body]
fn deflate_decode(input: &[u8]) -> (r: Option<Vec<u8>>)
    ensures
        match r {
            Some(v) => inflate_stream(input@) == Some(v@),
            None => inflate_stream(input@) is None,
        },
{
    let mut out = Vec::new();
    match std::io::Read::read_to_end(&mut flate2::read::DeflateDecoder::new(input), &mut out) {
        Ok(_) => Some(out),
        Err(_) => None,
    }
}

/// Converts a 64-bit size to `usize`, failing when it does not fit.
pub fn try_usize(value: u64) -> (r: Result<usize, ZipError>)
    ensures
        value <= usize::MAX ==> r == Ok::<usize, ZipError>(value as usize),
        value > usize::MAX ==> r == Err::<usize, ZipError>(ZipError::TooLarge),
{
    if value <= usize::MAX as u64 {
        Ok(value as usize)
    } else {
        Err(ZipError::TooLarge)
    }
}

/// Where the data of the entry whose local header is at `lho` begins.
pub open spec fn spec_local_data_offset(data: Seq<u8>, lho: int) -> Result<int, ZipError> {
    if lho + LOCAL_FILE_HEADER_SIZE > data.len() {
        Err(ZipError::UnexpectedEof)
    } else if spec_le32(data, lho) != LOCAL_FILE_HEADER_MAGIC {
        Err(ZipError::InvalidLocalHeader)
    } else if lho + LOCAL_FILE_HEADER_SIZE + spec_le16(data, lho + 26) + spec_le16(data, lho + 28)
        > u64::MAX {
        Err(ZipError::OffsetOverflow)
    } else {
        Ok(lho + LOCAL_FILE_HEADER_SIZE + spec_le16(data, lho + 26) + spec_le16(data, lho + 28))
    }
}

/// Reads the local header of `entry`; returns the offset of its data.
pub fn read_local_header(data: &[u8], entry: &ZipEntry) -> (r: Result<u64, ZipError>)
    ensures
        match spec_local_data_offset(data@, entry.local_header_offset as int) {
            Ok(o) => r == Ok::<u64, ZipError>(o as u64) && o <= u64::MAX,
            Err(e) => r == Err::<u64, ZipError>(e),
        },
{
    let len = data.len() as u64;
    let lho = entry.local_header_offset;
    if lho > len || len - lho < 30 {
        return Err(ZipError::UnexpectedEof);
    }
    let off = lho as usize;
    if read_u32(data, off) != LOCAL_FILE_HEADER_MAGIC {
        return Err(ZipError::InvalidLocalHeader);
    }
    let name_len = read_u16(data, off + 26) as u64;
    let extra_len = read_u16(data, off + 28) as u64;
    let base = lho + 30;
    if base > u64::MAX - name_len || base + name_len > u64::MAX - extra_len {
        return Err(ZipError::OffsetOverflow);
    }
    Ok(base + name_len + extra_len)
}

/// The bytes a stored entry of `size` bytes at `start` yields.
pub open spec fn spec_stored_data(data: Seq<u8>, start: int, size: int) -> Result<
    Seq<u8>,
    ZipError,
> {
    if size == 0 {
        Ok(Seq::empty())
    } else if start + size <= data.len() {
        Ok(data.subrange(start, start + size))
    } else {
        Err(ZipError::UnexpectedEof)
    }
}

/// Copies the `size` bytes of a stored entry that start at `start`.
pub fn copy_stored_entry(data: &[u8], start: u64, size: u64) -> (r: Result<Vec<u8>, ZipError>)
    ensures
        match spec_stored_data(data@, start as int, size as int) {
            Ok(v) => r matches Ok(w) && w@ == v,
            Err(e) => r == Err::<Vec<u8>, ZipError>(e),
        },
{
    if size == 0 {
        return Ok(Vec::new());
    }
    let len = data.len() as u64;
    if start > len || len - start < size {
        return Err(ZipError::UnexpectedEof);
    }
    Ok(copy_range(data, start as usize, (start + size) as usize))
}

/// The compressed bytes a deflated entry of `size` bytes at `start` hands
/// to the decoder: those up to the end of the archive.
pub open spec fn deflate_input(data: Seq<u8>, start: int, size: int) -> Seq<u8> {
    if start >= data.len() {
        Seq::empty()
    } else if start + size <= data.len() {
        data.subrange(start, start + size)
    } else {
        data.subrange(start, data.len() as int)
    }
}

/// The decoded data of the entry whose local header is at `lho`.
pub open spec fn spec_entry_data(data: Seq<u8>, e: ZipEntry) -> Result<Seq<u8>, ZipError> {
    if e.uncompressed_size > usize::MAX {
        Err(ZipError::TooLarge)
    } else {
        match spec_local_data_offset(data, e.local_header_offset as int) {
            Err(err) => Err(err),
            Ok(start) => if e.compression_method == COMPRESSION_STORED {
                spec_stored_data(data, start, e.compressed_size as int)
            } else if e.compression_method == COMPRESSION_DEFLATED {
                match inflate_stream(deflate_input(data, start, e.compressed_size as int)) {
                    Some(v) => Ok(v),
                    None => Err(ZipError::CorruptDeflateStream),
                }
            } else {
                Err(ZipError::UnsupportedCompression(e.compression_method))
            },
        }
    }
}

/// Reads and decodes the data of `entry` from the archive `data`.
pub fn extract_entry_data(data: &[u8], entry: &ZipEntry) -> (r: Result<Vec<u8>, ZipError>)
    ensures
        match spec_entry_data(data@, *entry) {
            Ok(v) => r matches Ok(w) && w@ == v,
            Err(e) => r == Err::<Vec<u8>, ZipError>(e),
        },
{
    let _capacity = try_usize(entry.uncompressed_size)?;
    let start = read_local_header(data, entry)?;
    if entry.compression_method == COMPRESSION_STORED {
        copy_stored_entry(data, start, entry.compressed_size)
    } else if entry.compression_method == COMPRESSION_DEFLATED {
        let len = data.len() as u64;
        let input: Vec<u8> = if start >= len {
            Vec::new()
        } else if entry.compressed_size <= len - start {
            copy_range(data, start as usize, (start + entry.compressed_size) as usize)
        } else {
            copy_range(data, start as usize, data.len())
        };
        proof {
            assert(input@ == deflate_input(data@, start as int, entry.compressed_size as int));
        }
        match deflate_decode(input.as_slice()) {
            Some(v) => Ok(v),
            None => Err(ZipError::CorruptDeflateStream),
        }
    } else {
        Err(ZipError::UnsupportedCompression(entry.compression_method))
    }
}

/// Two little-endian bytes of `v`.
pub open spec fn le16_bytes(v: nat) -> Seq<u8> {
    seq![(v % 256) as u8, ((v / 256) % 256) as u8]
}

/// A local file record as archivers write it: the local header (magic,
/// 22 bytes of version, flags, method, time, CRC and sizes, left zero here,
/// then the name and extra-field lengths), the name, the extra field and
/// the entry's data.
pub open spec fn local_record(name: Seq<u8>, extra: Seq<u8>, content: Seq<u8>) -> Seq<u8> {
    seq![0x50u8, 0x4Bu8, 0x03u8, 0x04u8] + Seq::new(22, |i: int| 0u8) + le16_bytes(name.len())
        + le16_bytes(extra.len()) + name + extra + content
}

/// Round trip of the reader: in an archive that holds a local record with
/// any name and any extra field, a stored entry pointing at that record
/// reads back exactly the bytes stored for it.
pub proof fn lemma_stored_entry_round_trip(
    prefix: Seq<u8>,
    name: Seq<u8>,
    extra: Seq<u8>,
    content: Seq<u8>,
    suffix: Seq<u8>,
    e: ZipEntry,
)
    requires
        name.len() <= 0xFFFF,
        extra.len() <= 0xFFFF,
        e.local_header_offset == prefix.len(),
        e.compression_method == COMPRESSION_STORED,
        e.compressed_size == content.len(),
        e.uncompressed_size <= usize::MAX,
        prefix.len() + 30 + name.len() + extra.len() <= u64::MAX,
    ensures
        spec_entry_data(prefix + local_record(name, extra, content) + suffix, e) == Ok::<
            Seq<u8>,
            ZipError,
        >(content),
{
    let rec = local_record(name, extra, content);
    let d = prefix + rec + suffix;
    let h = prefix.len() as int;
    let nl = name.len() as int;
    let xl = extra.len() as int;
    assert(rec.len() == 30 + nl + xl + content.len());
    assert forall|k: int| 0 <= k < rec.len() implies d[h + k] == rec[k] by {}
    assert(rec[0] == 0x50 && rec[1] == 0x4B && rec[2] == 0x03 && rec[3] == 0x04);
    assert(spec_le32(d, h) == LOCAL_FILE_HEADER_MAGIC) by {
        assert(d[h] == rec[0] && d[h + 1] == rec[1] && d[h + 2] == rec[2] && d[h + 3] == rec[3]);
    }
    assert(rec[26] == (nl % 256) as u8 && rec[27] == ((nl / 256) % 256) as u8);
    assert(rec[28] == (xl % 256) as u8 && rec[29] == ((xl / 256) % 256) as u8);
    assert(d[h + 26] == rec[26] && d[h + 27] == rec[27] && d[h + 28] == rec[28] && d[h + 29] == rec[29]);
    assert((nl % 256) + ((nl / 256) % 256) * 256 == nl) by (nonlinear_arith)
        requires
            0 <= nl <= 0xFFFF,
    ;
    assert((xl % 256) + ((xl / 256) % 256) * 256 == xl) by (nonlinear_arith)
        requires
            0 <= xl <= 0xFFFF,
    ;
    assert(spec_le16(d, h + 26) == nl);
    assert(spec_le16(d, h + 28) == xl);
    let start = h + 30 + nl + xl;
    assert(spec_local_data_offset(d, h) == Ok::<int, ZipError>(start));
    if content.len() > 0 {
        assert(d.subrange(start, start + content.len()) =~= content) by {
            assert forall|k: int| 0 <= k < content.len() implies d.subrange(
                start,
                start + content.len(),
            )[k] == content[k] by {
                assert(rec[30 + nl + xl + k] == content[k]);
                assert(d[h + 30 + nl + xl + k] == rec[30 + nl + xl + k]);
            }
        }
    } else {
        assert(content =~= Seq::<u8>::empty());
    }
}

/// What a ZIP input was recognised as.
pub enum AndroidOtaZipContext {
    /// An Android OTA package carrying a TCL updater script.
    AndroidOta { updater_script: String },
    /// Any other ZIP archive.
    GenericZip,
}

/// Path of the updater script inside a TCL OTA package.
pub open spec fn updater_script_name() -> Seq<char> {
    "META-INF/com/tcl/updater-script"@
}

/// Index of the first entry named like the updater script.
pub open spec fn first_script_entry(v: Seq<ZipEntry>, i: int) -> Option<int>
    decreases v.len() - i,
{
    if i < 0 || i >= v.len() {
        None
    } else if v[i].name@ == updater_script_name() {
        Some(i)
    } else {
        first_script_entry(v, i + 1)
    }
}

/// The context recognised for a ZIP input whose central directory lists
/// `entries`.
pub open spec fn spec_zip_context(data: Seq<u8>, entries: Seq<ZipEntry>, r: AndroidOtaZipContext) -> bool {
    match first_script_entry(entries, 0) {
        None => r is GenericZip,
        Some(i) => match spec_entry_data(data, entries[i]) {
            Err(_) => r is GenericZip,
            Ok(script) => r matches AndroidOtaZipContext::AndroidOta { updater_script } &&
                updater_script@ == utf8_lossy(script),
        },
    }
}

/// The input starts with the ZIP signature `PK`.
pub open spec fn starts_with_pk(data: Seq<u8>) -> bool {
    data.len() >= 2 && data[0] == 0x50 && data[1] == 0x4B
}

/// Recognises a ZIP archive from its bytes, and a TCL Android OTA package
/// among them by its updater script.
pub fn is_android_ota_zip_file(data: &[u8]) -> (r: Option<AndroidOtaZipContext>)
    ensures
        !starts_with_pk(data@) ==> r is None,
        starts_with_pk(data@) ==> match spec_zip_offsets(data@) {
            Err(_) => r is None,
            Ok(offs) => r matches Some(ctx) && exists|v: Seq<ZipEntry>|
                entries_at(data@, offs, v) && #[trigger] spec_zip_context(data@, v, ctx),
        },
{
    if data.len() < 2 || data[0] != 0x50 || data[1] != 0x4B {
        return None;
    }
    let entries = match read_zip_entries(data) {
        Ok(e) => e,
        Err(_) => return None,
    };
    let ghost offs = spec_zip_offsets(data@)->Ok_0;
    let target = chars_of("META-INF/com/tcl/updater-script");
    let mut i: usize = 0;
    while i < entries.len()
        invariant
            starts_with_pk(data@),
            spec_zip_offsets(data@) == Ok::<Seq<int>, ZipError>(offs),
            entries_at(data@, offs, entries@),
            i <= entries@.len(),
            target@ == updater_script_name(),
            first_script_entry(entries@, 0) == first_script_entry(entries@, i as int),
        decreases entries@.len() - i,
    {
        let name = chars_of(entries[i].name.as_str());
        if crate::text::chars_eq(name.as_slice(), target.as_slice()) {
            let ctx = match extract_entry_data(data, &entries[i]) {
                Ok(script) => AndroidOtaZipContext::AndroidOta {
                    updater_script: lossy_string(script.as_slice()),
                },
                Err(_) => AndroidOtaZipContext::GenericZip,
            };
            assert(spec_zip_context(data@, entries@, ctx));
            return Some(ctx);
        }
        i += 1;
    }
    assert(first_script_entry(entries@, i as int) is None);
    assert(spec_zip_context(data@, entries@, AndroidOtaZipContext::GenericZip));
    Some(AndroidOtaZipContext::GenericZip)
}

} // verus!

//! A tolerant reader of UBIFS volume images.
//!
//! Rather than walking the on-flash index, every 8-byte aligned position of
//! the image is tried for a node header; nodes whose CRC-32 checks out are
//! parsed into inodes, directory entries and data blocks, from which the
//! directory tree and the contents of regular files are rebuilt.

use vstd::prelude::*;
use crate::bytes::{le16, le32, le64, spec_le16, spec_le32, spec_le64, copy_range};
use crate::keymap::KeyMap;
use crate::text::{
    lossy_string, utf8_lossy, chars_of, string_from_chars, spec_is_control, is_control, spec_trim,
    trim,
};

verus! {

/// Magic of the common node header (`31 18 10 06` on disk).
pub const UBIFS_NODE_MAGIC: u32 = 0x0610_1831;
/// Node type of an inode node.
pub const INO_NODE: u8 = 0;
/// Node type of a data node.
pub const DATA_NODE: u8 = 1;
/// Node type of a directory-entry node.
pub const DENT_NODE: u8 = 2;
/// Size of the common node header.
pub const CH_SZ: usize = 24;
/// Size of a data node before its payload.
pub const DATA_NODE_SZ: usize = 48;
/// Offset of the node key.
pub const KEY_OFF: usize = 24;
/// Uncompressed size of a data block.
pub const UBIFS_BLOCK_SIZE: u64 = 4096;
/// Compression type: stored.
pub const COMPR_NONE: u16 = 0;
/// Compression type: LZO.
pub const COMPR_LZO: u16 = 1;
/// Compression type: raw deflate.
pub const COMPR_ZLIB: u16 = 2;
/// Compression type: zstd.
pub const COMPR_ZSTD: u16 = 3;
/// Entry type of a regular file.
pub const ITYPE_REG: u8 = 0;
/// Entry type of a directory.
pub const ITYPE_DIR: u8 = 1;
/// Entry type of a symbolic link.
pub const ITYPE_LNK: u8 = 2;
/// Inode number of the root directory.
pub const ROOT_INO: u32 = 1;

#[verifier::external_type_specification]
#[verifier::external_body]
pub struct ExLzo(minilzo_rs::LZO);

/// The CRC-32 (IEEE, as zlib computes it) of `bytes`.
pub uninterp spec fn crc32_ieee(bytes: Seq<u8>) -> u32;

/// Computes the CRC-32 of `bytes` with `flate2::Crc` (`new`, one `update`,
/// `sum`). The result is named `crc32_ieee(bytes)`; the checksum algorithm
/// is not restated.
#[verifier::external_body]
fn crc32(bytes: &[u8]) -> (r: u32)
    ensures
        r == crc32_ieee(bytes@),
{
    let mut c = flate2::Crc::new();
    c.update(bytes);
    c.sum()
}

/// Prepares the LZO engine with `minilzo_rs::LZO::init`. Whether that
/// succeeds depends on the platform the library was built for, so nothing
/// is stated of the result.
#[verifier::external_body]
fn lzo_init() -> (r: Option<minilzo_rs::LZO>) {
    minilzo_rs::LZO::init().ok()
}

/// What `minilzo_rs::LZO::decompress_safe` returns for `src` and an output
/// size of `dst_len`: the decoded block, or `None` on an error code.
pub uninterp spec fn lzo1x_output(src: Seq<u8>, dst_len: usize) -> Option<Seq<u8>>;

/// Decodes an LZO1X block with `minilzo_rs::LZO::decompress_safe`, the
/// decoder that checks every read and write against the input and output
/// bounds and reports an overrun as an error code. The result is named
/// `lzo1x_output`; the source shows that a decoded block has exactly
/// `dst_len` bytes (the output buffer is allocated zeroed at that size and
/// only grown).
#[verifier::external_body]
fn lzo_decompress(lzo: &minilzo_rs::LZO, src: &[u8], dst_len: usize) -> (r: Option<Vec<u8>>)
    ensures
        match r {
            Some(v) => lzo1x_output(src@, dst_len) == Some(v@),
            None => lzo1x_output(src@, dst_len) is None,
        },
        r matches Some(v) ==> v@.len() == dst_len,
{
    lzo.decompress_safe(src, dst_len).ok()
}

/// What one call of `flate2::Decompress::decompress` (raw deflate, no zlib
/// header, `FlushDecompress::Finish`) leaves in a zeroed output buffer of
/// `cap` bytes: the buffer and the number of bytes produced, or `None` when
/// it reports corrupt data.
pub uninterp spec fn raw_inflate_output(input: Seq<u8>, cap: usize) -> Option<(Seq<u8>, u64)>;

/// Inflates a raw deflate stream into a buffer of `cap` bytes with
/// `flate2::Decompress::decompress`. The result is named
/// `raw_inflate_output`; the buffer keeps its size and no more than `cap`
/// bytes can have been produced into it.
#[verifier::external_body]
fn raw_inflate(input: &[u8], cap: usize) -> (r: Option<(Vec<u8>, u64)>)
    ensures
        match r {
            Some(p) => raw_inflate_output(input@, cap) == Some((p.0@, p.1)),
            None => raw_inflate_output(input@, cap) is None,
        },
        r matches Some(p) ==> p.0@.len() == cap && p.1 <= cap,
{
    let mut d = flate2::Decompress::new(false);
    let mut out = vec![0u8; cap];
    match d.decompress(input, &mut out, flate2::FlushDecompress::Finish) {
        Ok(_) => Some((out, d.total_out())),
        Err(_) => None,
    }
}

/// What `flate2::read::ZlibDecoder` yields when read to the end over
/// `input`, or `None` when it reports an error.
pub uninterp spec fn zlib_output(input: Seq<u8>) -> Option<Seq<u8>>;

/// Decodes a zlib stream with `flate2::read::ZlibDecoder`. The result is
/// named `zlib_output`.
#[verifier::external_body]
fn zlib_decompress(input: &[u8]) -> (r: Option<Vec<u8>>)
    ensures
        match r {
            Some(v) => zlib_output(input@) == Some(v@),
            None => zlib_output(input@) is None,
        },
{
    let mut out = Vec::new();
    match std::io::Read::read_to_end(&mut flate2::read::ZlibDecoder::new(input), &mut out) {
        Ok(_) => Some(out),
        Err(_) => None,
    }
}

/// What `zstd::stream::decode_all` returns for the zstd frames `input`, or
/// `None` when it reports an error.
pub uninterp spec fn zstd_output(input: Seq<u8>) -> Option<Seq<u8>>;

/// Decodes zstd frames with `zstd::stream::decode_all`. The result is named
/// `zstd_output`.
#[verifier::external_body]
fn zstd_decompress(input: &[u8]) -> (r: Option<Vec<u8>>)
    ensures
        match r {
            Some(v) => zstd_output(input@) == Some(v@),
            None => zstd_output(input@) is None,
        },
{
    zstd::stream::decode_all(input).ok()
}

/// A raw deflate block, inflated into a buffer of the larger of the block
/// size and the payload size; a zlib stream when that fails.
pub open spec fn spec_inflate_raw(payload: Seq<u8>, out_len: usize) -> Option<Seq<u8>> {
    let cap = if out_len >= payload.len() {
        out_len
    } else {
        payload.len() as usize
    };
    match raw_inflate_output(payload, cap) {
        Some((buf, n)) => Some(buf.take(n as int)),
        None => zlib_output(payload),
    }
}

/// Inflates a headerless deflate block, falling back to a zlib stream.
pub fn inflate_raw(payload: &[u8], out_len: usize) -> (r: Option<Vec<u8>>)
    ensures
        match spec_inflate_raw(payload@, out_len) {
            Some(v) => r matches Some(w) && w@ == v,
            None => r is None,
        },
{
    let cap = if out_len >= payload.len() {
        out_len
    } else {
        payload.len()
    };
    match raw_inflate(payload, cap) {
        Some((buf, n)) => {
            let mut out = buf;
            out.truncate(n as usize);
            Some(out)
        },
        None => zlib_decompress(payload),
    }
}

/// A data block payload decoded by compression type; `lzo_ready` tells
/// whether the LZO engine could be prepared.
pub open spec fn spec_decompress_block(
    payload: Seq<u8>,
    compr: u16,
    out_len: usize,
    lzo_ready: bool,
) -> Option<Seq<u8>> {
    if compr == COMPR_NONE {
        Some(
            payload.take(
                if (out_len as int) < payload.len() {
                    out_len as int
                } else {
                    payload.len() as int
                },
            ),
        )
    } else if compr == COMPR_LZO {
        if lzo_ready {
            lzo1x_output(payload, out_len)
        } else {
            None
        }
    } else if compr == COMPR_ZLIB {
        spec_inflate_raw(payload, out_len)
    } else if compr == COMPR_ZSTD {
        zstd_output(payload)
    } else {
        None
    }
}

/// Decodes one data block payload.
pub fn decompress_block(
    payload: &[u8],
    compr: u16,
    out_len: usize,
    lzo: &Option<minilzo_rs::LZO>,
) -> (r: Option<Vec<u8>>)
    ensures
        match spec_decompress_block(payload@, compr, out_len, lzo.is_some()) {
            Some(v) => r matches Some(w) && w@ == v,
            None => r is None,
        },
{
    if compr == COMPR_NONE {
        let take = if out_len < payload.len() {
            out_len
        } else {
            payload.len()
        };
        let v = copy_range(payload, 0, take);
        assert(v@ =~= payload@.take(take as int));
        Some(v)
    } else if compr == COMPR_LZO {
        match lzo {
            Some(engine) => lzo_decompress(engine, payload, out_len),
            None => None,
        }
    } else if compr == COMPR_ZLIB {
        inflate_raw(payload, out_len)
    } else if compr == COMPR_ZSTD {
        zstd_decompress(payload)
    } else {
        None
    }
}

/// The entry type of a file mode: directory, link, regular file, or
/// `0xFF` for anything else.
pub open spec fn spec_mode_to_itype(mode: u32) -> u8 {
    let fmt = mode & 0o170000u32;
    if fmt == 0o040000u32 {
        ITYPE_DIR
    } else if fmt == 0o120000u32 {
        ITYPE_LNK
    } else if fmt == 0o100000u32 {
        ITYPE_REG
    } else {
        0xFF
    }
}

/// Maps a file mode to an entry type.
pub fn mode_to_itype(mode: u32) -> (r: u8)
    ensures
        r == spec_mode_to_itype(mode),
{
    let fmt = mode & 0o170000u32;
    if fmt == 0o040000u32 {
        ITYPE_DIR
    } else if fmt == 0o120000u32 {
        ITYPE_LNK
    } else if fmt == 0o100000u32 {
        ITYPE_REG
    } else {
        0xFF
    }
}

/// A character that a path component cannot hold on the host.
pub open spec fn unsafe_component_char(c: char) -> bool {
    spec_is_control(c) || c == '/' || c == '\\' || c == ':' || c == '*' || c == '?' || c == '"'
        || c == '<' || c == '>' || c == '|'
}

/// `s` with every unsafe character replaced by `_`.
pub open spec fn replace_unsafe(s: Seq<char>) -> Seq<char> {
    Seq::new(s.len(), |i: int| if unsafe_component_char(s[i]) { '_' } else { s[i] })
}

/// A name made safe as one path component: unsafe characters become `_`,
/// surrounding white space is removed, and an empty name, `.` or `..`
/// becomes `_`.
pub open spec fn spec_sanitize_component(name: Seq<char>) -> Seq<char> {
    let t = spec_trim(replace_unsafe(name));
    if t.len() == 0 || t == seq!['.'] || t == seq!['.', '.'] {
        seq!['_']
    } else {
        t
    }
}

/// Makes a single path component safe on the host file system.
pub fn sanitize_component(name: &str) -> (r: String)
    ensures
        r@ == spec_sanitize_component(name@),
{
    let cs = chars_of(name);
    let mut cleaned: Vec<char> = Vec::new();
    let mut i: usize = 0;
    while i < cs.len()
        invariant
            i <= cs@.len(),
            cleaned@ == replace_unsafe(cs@).take(i as int),
        decreases cs@.len() - i,
    {
        let c = cs[i];
        let bad = is_control(c) || c == '/' || c == '\\' || c == ':' || c == '*' || c == '?' || c
            == '"' || c == '<' || c == '>' || c == '|';
        if bad {
            cleaned.push('_');
        } else {
            cleaned.push(c);
        }
        i += 1;
        assert(cleaned@ =~= replace_unsafe(cs@).take(i as int));
    }
    assert(replace_unsafe(cs@).take(cs@.len() as int) =~= replace_unsafe(cs@));
    let t = trim(cleaned.as_slice());
    let dot = t.len() == 1 && t[0] == '.';
    let dotdot = t.len() == 2 && t[0] == '.' && t[1] == '.';
    proof {
        assert(dot <==> t@ == seq!['.']) by {
            if t@ == seq!['.'] {
                assert(t@[0] == '.');
            }
            if dot {
                assert(t@ =~= seq!['.']);
            }
        }
        assert(dotdot <==> t@ == seq!['.', '.']) by {
            if t@ == seq!['.', '.'] {
                assert(t@[0] == '.' && t@[1] == '.');
            }
            if dotdot {
                assert(t@ =~= seq!['.', '.']);
            }
        }
    }
    if t.len() == 0 || dot || dotdot {
        let mut u: Vec<char> = Vec::new();
        u.push('_');
        assert(u@ =~= seq!['_']);
        string_from_chars(u.as_slice())
    } else {
        string_from_chars(t.as_slice())
    }
}

/// An inode: its size and, for a symbolic link, its inline target.
pub struct Inode {
    pub size: u64,
    pub inline: Vec<u8>,
}

/// A directory entry: parent directory, target inode, entry type, name.
pub struct Dent {
    pub parent: u32,
    pub target: u32,
    pub itype: u8,
    pub name: String,
}

/// What the nodes of an image describe: inode number to size and inline
/// data; the directory entries in the order found; inode number to data
/// block number to decoded block.
#[verifier::ext_equal]
pub ghost struct FsModel {
    pub inodes: Map<u32, (u64, Seq<u8>)>,
    pub dents: Seq<(u32, u32, u8, Seq<char>)>,
    pub data: Map<u32, Map<u32, Seq<u8>>>,
}

/// The nodes gathered from an image.
pub struct UbifsNodes {
    pub inodes: KeyMap<Inode>,
    pub dents: Vec<Dent>,
    /// Inode number to data block number to decoded block.
    pub data: KeyMap<KeyMap<Vec<u8>>>,
}

/// The model of a directory entry.
pub open spec fn dent_view(d: Dent) -> (u32, u32, u8, Seq<char>) {
    (d.parent, d.target, d.itype, d.name@)
}

/// The blocks of one inode.
pub open spec fn blocks_model(b: KeyMap<Vec<u8>>) -> Map<u32, Seq<u8>> {
    b.map().map_values(|v: Vec<u8>| v@)
}

impl UbifsNodes {
    /// The maps are sorted by key, and so is each inode's block map.
    pub open spec fn wf(&self) -> bool {
        &&& self.inodes.wf()
        &&& self.data.wf()
        &&& forall|k: u32| #[trigger] self.data.map().contains_key(k) ==> self.data.map()[k].wf()
    }

    /// What the gathered nodes describe.
    pub open spec fn model(&self) -> FsModel {
        FsModel {
            inodes: self.inodes.map().map_values(|i: Inode| (i.size, i.inline@)),
            dents: Seq::new(self.dents@.len(), |i: int| dent_view(self.dents@[i])),
            data: self.data.map().map_values(|b: KeyMap<Vec<u8>>| blocks_model(b)),
        }
    }
}

/// `m` after an inode node: nodes shorter than 160 bytes are ignored; the
/// inline data is kept for links whose data fits in the node.
pub open spec fn spec_parse_ino(node: Seq<u8>, m: FsModel) -> FsModel {
    if node.len() < 160 {
        m
    } else {
        let ino = spec_le32(node, 24) as u32;
        let size = spec_le64(node, 48) as u64;
        let mode = spec_le32(node, 104) as u32;
        let dl = spec_le32(node, 112);
        let inline = if spec_mode_to_itype(mode) == ITYPE_LNK && dl > 0 && 160 + dl <= node.len() {
            node.subrange(160, 160 + dl)
        } else {
            Seq::empty()
        };
        FsModel { inodes: m.inodes.insert(ino, (size, inline)), dents: m.dents, data: m.data }
    }
}

/// `m` after a directory-entry node: nodes shorter than 56 bytes, names
/// that run past the node and empty names are ignored.
pub open spec fn spec_parse_dent(node: Seq<u8>, m: FsModel) -> FsModel {
    if node.len() < 56 {
        m
    } else {
        let nlen = spec_le16(node, 50);
        if 56 + nlen > node.len() {
            m
        } else {
            let name = utf8_lossy(node.subrange(56, 56 + nlen));
            if name.len() == 0 {
                m
            } else {
                FsModel {
                    inodes: m.inodes,
                    dents: m.dents.push(
                        (spec_le32(node, 24) as u32, spec_le32(node, 40) as u32, node[49], name),
                    ),
                    data: m.data,
                }
            }
        }
    }
}

/// `m` after a data node: nodes shorter than 48 bytes and blocks that do
/// not decode are ignored; a block replaces one with the same number.
pub open spec fn spec_parse_data(node: Seq<u8>, m: FsModel, lzo_ready: bool) -> FsModel {
    if node.len() < 48 {
        m
    } else {
        let ino = spec_le32(node, 24) as u32;
        let bn = (spec_le32(node, 28) as u32) & 0x1FFF_FFFFu32;
        let out_len = spec_le32(node, 40) as usize;
        let compr = spec_le16(node, 44) as u16;
        match spec_decompress_block(node.skip(48), compr, out_len, lzo_ready) {
            None => m,
            Some(d) => {
                let blocks = if m.data.contains_key(ino) {
                    m.data[ino]
                } else {
                    Map::empty()
                };
                FsModel {
                    inodes: m.inodes,
                    dents: m.dents,
                    data: m.data.insert(ino, blocks.insert(bn, d)),
                }
            },
        }
    }
}

/// Parses an inode node into `nodes`.
pub fn parse_ino(node: &[u8], nodes: &mut UbifsNodes)
    requires
        old(nodes).wf(),
    ensures
        final(nodes).wf(),
        final(nodes).model() == spec_parse_ino(node@, old(nodes).model()),
{
    if node.len() < 160 {
        return;
    }
    let ino = le32(node, KEY_OFF);
    let size = le64(node, 48);
    let mode = le32(node, 104);
    let data_len = le32(node, 112) as usize;
    let itype = mode_to_itype(mode);
    let mut inline: Vec<u8> = Vec::new();
    if itype == ITYPE_LNK && data_len > 0 && data_len <= node.len() - 160 {
        inline = copy_range(node, 160, 160 + data_len);
    }
    let ghost m0 = nodes.model();
    let ghost il = inline@;
    nodes.inodes.insert(ino, Inode { size, inline });
    assert(nodes.model().inodes =~= m0.inodes.insert(ino, (size, il)));
    assert(nodes.model().dents =~= m0.dents);
}

/// Parses a directory-entry node into `nodes`.
pub fn parse_dent(node: &[u8], nodes: &mut UbifsNodes)
    requires
        old(nodes).wf(),
    ensures
        final(nodes).wf(),
        final(nodes).model() == spec_parse_dent(node@, old(nodes).model()),
{
    if node.len() < 56 {
        return;
    }
    let parent = le32(node, KEY_OFF);
    let target = le32(node, 40);
    let itype = node[49];
    let nlen = le16(node, 50) as usize;
    if nlen > node.len() - 56 {
        return;
    }
    let raw = copy_range(node, 56, 56 + nlen);
    let name = lossy_string(raw.as_slice());
    if name.as_str().is_empty() {
        return;
    }
    let ghost m0 = nodes.model();
    let ghost nm = name@;
    nodes.dents.push(Dent { parent, target, itype, name });
    assert(nodes.model().dents =~= m0.dents.push((parent, target, itype, nm)));
}

/// Parses a data node into `nodes`, decoding its block.
pub fn parse_data(node: &[u8], nodes: &mut UbifsNodes, lzo: &Option<minilzo_rs::LZO>)
    requires
        old(nodes).wf(),
    ensures
        final(nodes).wf(),
        final(nodes).model() == spec_parse_data(node@, old(nodes).model(), lzo.is_some()),
{
    if node.len() < DATA_NODE_SZ {
        return;
    }
    let ino = le32(node, KEY_OFF);
    let block_no = le32(node, KEY_OFF + 4) & 0x1FFF_FFFF;
    let out_len = le32(node, 40) as usize;
    let compr = le16(node, 44);
    let payload = copy_range(node, DATA_NODE_SZ, node.len());
    assert(payload@ =~= node@.skip(48));
    let decoded = match decompress_block(payload.as_slice(), compr, out_len, lzo) {
        Some(d) => d,
        None => {
            return;
        },
    };
    let ghost m0 = nodes.model();
    let ghost d = decoded@;
    let mut blocks = match nodes.data.remove(ino) {
        Some(b) => b,
        None => KeyMap::new(),
    };
    assert(blocks_model(blocks) == (if m0.data.contains_key(ino) {
        m0.data[ino]
    } else {
        Map::<u32, Seq<u8>>::empty()
    }));
    let ghost bm0 = blocks_model(blocks);
    blocks.insert(block_no, decoded);
    assert(blocks_model(blocks) =~= bm0.insert(block_no, d));
    let ghost bm = blocks_model(blocks);
    nodes.data.insert(ino, blocks);
    assert(nodes.model().data =~= m0.data.insert(ino, bm));
    assert(nodes.model().inodes =~= m0.inodes);
    assert(nodes.model().dents =~= m0.dents);
}

/// `m` after the node `node`, by its type.
pub open spec fn spec_apply_node(node: Seq<u8>, m: FsModel, lzo_ready: bool) -> FsModel {
    if node[20] == INO_NODE {
        spec_parse_ino(node, m)
    } else if node[20] == DENT_NODE {
        spec_parse_dent(node, m)
    } else if node[20] == DATA_NODE {
        spec_parse_data(node, m, lzo_ready)
    } else {
        m
    }
}

/// `len` rounded up to a multiple of 8.
pub open spec fn round_up8(len: int) -> int {
    (len + 7) / 8 * 8
}

/// A node starts at `off`: magic, a length that fits in the image, and a
/// CRC-32 of everything after the CRC field that matches the stored one
/// (UBIFS stores the complement of zlib's CRC-32).
pub open spec fn valid_node_at(image: Seq<u8>, off: int) -> bool {
    let len = spec_le32(image, off + 16);
    &&& 0 <= off
    &&& off + 24 <= image.len()
    &&& spec_le32(image, off) == UBIFS_NODE_MAGIC
    &&& len >= 24
    &&& off + len <= image.len()
    &&& (crc32_ieee(image.subrange(off + 8, off + len)) ^ 0xFFFF_FFFFu32) == spec_le32(
        image,
        off + 4,
    ) as u32
}

/// `m` after every node found from `off` on: a valid node is applied and
/// the scan goes on at its 8-byte aligned end; anywhere else it moves on 8
/// bytes.
pub open spec fn spec_scan_nodes_from(image: Seq<u8>, off: int, m: FsModel, lzo_ready: bool) -> FsModel
    decreases image.len() + 8 - off,
{
    if off < 0 || off + 24 > image.len() {
        m
    } else if valid_node_at(image, off) {
        let len = spec_le32(image, off + 16);
        proof {
            assert(len <= round_up8(len) <= len + 7) by (nonlinear_arith)
                requires
                    len >= 24,
            ;
        }
        spec_scan_nodes_from(
            image,
            off + round_up8(len),
            spec_apply_node(image.subrange(off, off + len), m, lzo_ready),
            lzo_ready,
        )
    } else {
        spec_scan_nodes_from(image, off + 8, m, lzo_ready)
    }
}

/// Nothing found yet.
pub open spec fn empty_model() -> FsModel {
    FsModel { inodes: Map::empty(), dents: Seq::empty(), data: Map::empty() }
}

/// What the nodes of `image` describe.
pub open spec fn spec_scan_nodes(image: Seq<u8>, lzo_ready: bool) -> FsModel {
    spec_scan_nodes_from(image, 0, empty_model(), lzo_ready)
}

/// Scans `image` linearly for nodes and gathers them.
pub fn scan_nodes(image: &[u8], lzo: &Option<minilzo_rs::LZO>) -> (r: UbifsNodes)
    requires
        image@.len() + 8 <= usize::MAX,
    ensures
        r.wf(),
        r.model() == spec_scan_nodes(image@, lzo.is_some()),
{
    let mut nodes = UbifsNodes { inodes: KeyMap::new(), dents: Vec::new(), data: KeyMap::new() };
    assert(nodes.model().inodes =~= empty_model().inodes);
    assert(nodes.model().dents =~= empty_model().dents);
    assert(nodes.model().data =~= empty_model().data);
    let n = image.len();
    let mut off: usize = 0;
    while off <= n && n - off >= CH_SZ
        invariant
            n == image@.len(),
            n + 8 <= usize::MAX,
            off <= n + 8,
            nodes.wf(),
            spec_scan_nodes_from(image@, off as int, nodes.model(), lzo.is_some()) == spec_scan_nodes(
                image@,
                lzo.is_some(),
            ),
        decreases n + 8 - off,
    {
        let magic = le32(image, off);
        let stored = le32(image, off + 4);
        let len = le32(image, off + 16) as usize;
        if magic != UBIFS_NODE_MAGIC || len < CH_SZ || len > n - off {
            off += 8;
            continue;
        }
        let body = copy_range(image, off + 8, off + len);
        let sum = crc32(body.as_slice());
        if (sum ^ 0xFFFF_FFFF) != stored {
            off += 8;
            continue;
        }
        let node = copy_range(image, off, off + len);
        let node_type = image[off + 20];
        assert(node@[20] == node_type);
        if node_type == INO_NODE {
            parse_ino(node.as_slice(), &mut nodes);
        } else if node_type == DENT_NODE {
            parse_dent(node.as_slice(), &mut nodes);
        } else if node_type == DATA_NODE {
            parse_data(node.as_slice(), &mut nodes, lzo);
        }
        off += (len + 7) / 8 * 8;
    }
    nodes
}

/// The bytes of a regular file from its blocks in increasing block order:
/// each block is written at the end of what came before, after zero bytes
/// that bring the file up to the block's offset when it falls short of it.
pub open spec fn assemble_blocks(blocks: Seq<(u32, Vec<u8>)>) -> Seq<u8>
    decreases blocks.len(),
{
    if blocks.len() == 0 {
        Seq::empty()
    } else {
        let prev = assemble_blocks(blocks.drop_last());
        let off = blocks.last().0 * 4096;
        if off > prev.len() {
            prev + Seq::new((off - prev.len()) as nat, |i: int| 0u8) + blocks.last().1@
        } else {
            prev + blocks.last().1@
        }
    }
}

/// The bytes written for inode `ino` before its length is set.
pub open spec fn spec_file_content(nodes: UbifsNodes, ino: u32) -> Seq<u8> {
    if nodes.data.map().contains_key(ino) {
        assemble_blocks(nodes.data.map()[ino].pairs())
    } else {
        Seq::empty()
    }
}

/// The size recorded for inode `ino`, 0 when there is no inode node.
pub open spec fn spec_file_size(nodes: UbifsNodes, ino: u32) -> u64 {
    if nodes.inodes.map().contains_key(ino) {
        nodes.inodes.map()[ino].size
    } else {
        0
    }
}

/// Assembles the bytes of a regular file from its data blocks, padding
/// holes with zero bytes; returns them with the size that the file is then
/// cut or extended to when it is not 0.
pub fn write_regular_file(nodes: &UbifsNodes, ino: u32) -> (r: (Vec<u8>, u64))
    requires
        nodes.wf(),
    ensures
        r.0@ == spec_file_content(*nodes, ino),
        r.1 == spec_file_size(*nodes, ino),
{
    let size = match nodes.inodes.get(ino) {
        Some(i) => i.size,
        None => 0,
    };
    let mut out: Vec<u8> = Vec::new();
    match nodes.data.get(ino) {
        None => {},
        Some(blocks) => {
            let n = blocks.entries.len();
            let mut i: usize = 0;
            while i < n
                invariant
                    n == blocks.pairs().len(),
                    i <= n,
                    out@ == assemble_blocks(blocks.pairs().take(i as int)),
                decreases n - i,
            {
                let ghost prev = out@;
                let bn = blocks.entries[i].0;
                let off: u64 = bn as u64 * 4096;
                while (out.len() as u64) < off
                    invariant
                        prev.len() <= out@.len(),
                        out@.len() <= off || out@.len() == prev.len(),
                        out@ == prev + Seq::new((out@.len() - prev.len()) as nat, |j: int| 0u8),
                    decreases off - out@.len(),
                {
                    out.push(0);
                    assert(out@ =~= prev + Seq::new((out@.len() - prev.len()) as nat, |j: int| 0u8));
                }
                let d = &blocks.entries[i].1;
                let mut k: usize = 0;
                let ghost mid = out@;
                while k < d.len()
                    invariant
                        k <= d@.len(),
                        out@ == mid + d@.take(k as int),
                    decreases d@.len() - k,
                {
                    out.push(d[k]);
                    k += 1;
                    assert(out@ =~= mid + d@.take(k as int));
                }
                proof {
                    let s = blocks.pairs().take(i + 1);
                    assert(s.drop_last() =~= blocks.pairs().take(i as int));
                    assert(s.last() == blocks.pairs()[i as int]);
                    assert(d@.take(d@.len() as int) =~= d@);
                    if off > prev.len() {
                        assert(mid.len() == off);
                        assert(out@ =~= prev + Seq::new((off - prev.len()) as nat, |j: int| 0u8) + d@);
                    } else {
                        assert(mid =~= prev);
                        assert(out@ =~= prev + d@);
                    }
                }
                i += 1;
            }
            assert(blocks.pairs().take(n as int) =~= blocks.pairs());
        },
    }
    (out, size)
}

/// One file-system operation of an extraction, on a path of components
/// below the output directory.
pub enum FsOp {
    /// Create the directory (and its parents); report whether it succeeded.
    MakeDir { path: Vec<String> },
    /// Write `content`, then set the file length to `size` when it is not
    /// 0; report whether the file could be created.
    WriteFile { path: Vec<String>, content: Vec<u8>, size: u64 },
    /// Write `text` (a symbolic link recorded as a text file); report
    /// whether it succeeded.
    WriteText { path: Vec<String>, text: String },
    /// Create an empty placeholder for a special file.
    CreateEmpty { path: Vec<String> },
}

/// An operation with its strings and bytes taken as sequences.
pub ghost enum OpModel {
    MakeDir { path: Seq<Seq<char>> },
    WriteFile { path: Seq<Seq<char>>, content: Seq<u8>, size: u64 },
    WriteText { path: Seq<Seq<char>>, text: Seq<char> },
    CreateEmpty { path: Seq<Seq<char>> },
}

/// The model of an optional operation.
pub open spec fn opt_op_view(r: Option<FsOp>) -> Option<OpModel> {
    match r {
        Some(op) => Some(op@),
        None => None,
    }
}

/// The components of a path.
pub open spec fn path_view(p: Seq<String>) -> Seq<Seq<char>> {
    Seq::new(p.len(), |i: int| p[i]@)
}

impl View for FsOp {
    type V = OpModel;

    open spec fn view(&self) -> OpModel {
        match self {
            FsOp::MakeDir { path } => OpModel::MakeDir { path: path_view(path@) },
            FsOp::WriteFile { path, content, size } => OpModel::WriteFile {
                path: path_view(path@),
                content: content@,
                size: *size,
            },
            FsOp::WriteText { path, text } => OpModel::WriteText { path: path_view(path@), text: text@ },
            FsOp::CreateEmpty { path } => OpModel::CreateEmpty { path: path_view(path@) },
        }
    }
}

/// The operation for entry `d` of the directory at `dir`: a directory is
/// created, a regular file written from its blocks, a link recorded as the
/// text `SYMLINK -> ` and its target (nothing when the link has no inode),
/// and anything else left as an empty file.
pub open spec fn spec_entry_op(nodes: UbifsNodes, d: Dent, dir: Seq<Seq<char>>) -> Option<OpModel> {
    let path = dir.push(spec_sanitize_component(d.name@));
    if d.itype == ITYPE_DIR {
        Some(OpModel::MakeDir { path })
    } else if d.itype == ITYPE_REG {
        Some(
            OpModel::WriteFile {
                path,
                content: spec_file_content(nodes, d.target),
                size: spec_file_size(nodes, d.target),
            },
        )
    } else if d.itype == ITYPE_LNK {
        if nodes.inodes.map().contains_key(d.target) {
            Some(
                OpModel::WriteText {
                    path,
                    text: "SYMLINK -> "@ + utf8_lossy(nodes.inodes.map()[d.target].inline@),
                },
            )
        } else {
            None
        }
    } else {
        Some(OpModel::CreateEmpty { path })
    }
}

fn clone_path(p: &Vec<String>) -> (r: Vec<String>)
    ensures
        path_view(r@) == path_view(p@),
{
    let mut r: Vec<String> = Vec::new();
    let mut i: usize = 0;
    while i < p.len()
        invariant
            i <= p@.len(),
            r@.len() == i,
            path_view(r@) == path_view(p@.take(i as int)),
        decreases p@.len() - i,
    {
        let s: &String = &p[i];
        let c = s.clone();
        assert(c == p@[i as int]);
        let ghost r0 = r@;
        r.push(c);
        proof {
            assert(r@[i as int]@ == p@[i as int]@);
            assert forall|j: int| 0 <= j < i implies r@[j]@ == p@[j]@ by {
                assert(r@[j] == r0[j]);
                assert(path_view(r0)[j] == path_view(p@.take(i as int))[j]);
            }
        }
        i += 1;
        assert(path_view(r@) =~= path_view(p@.take(i as int)));
    }
    assert(p@.take(p@.len() as int) =~= p@);
    r
}

fn child_path(dir: &Vec<String>, name: &String) -> (r: Vec<String>)
    ensures
        path_view(r@) == path_view(dir@).push(spec_sanitize_component(name@)),
{
    let mut r = clone_path(dir);
    let ghost r0 = r@;
    r.push(sanitize_component(name.as_str()));
    assert(path_view(r@) =~= path_view(r0).push(spec_sanitize_component(name@)));
    r
}

/// The operation for entry `d` of the directory at `dir`.
pub fn entry_op(nodes: &UbifsNodes, d: &Dent, dir: &Vec<String>) -> (r: Option<FsOp>)
    requires
        nodes.wf(),
    ensures
        opt_op_view(r) == spec_entry_op(*nodes, *d, path_view(dir@)),
{
    let path = child_path(dir, &d.name);
    if d.itype == ITYPE_DIR {
        Some(FsOp::MakeDir { path })
    } else if d.itype == ITYPE_REG {
        let (content, size) = write_regular_file(nodes, d.target);
        Some(FsOp::WriteFile { path, content, size })
    } else if d.itype == ITYPE_LNK {
        match nodes.inodes.get(d.target) {
            Some(ino) => {
                let mut text = chars_of("SYMLINK -> ");
                let target = lossy_string(ino.inline.as_slice());
                crate::text::push_str(&mut text, target.as_str());
                Some(FsOp::WriteText { path, text: string_from_chars(text.as_slice()) })
            },
            None => None,
        }
    } else {
        Some(FsOp::CreateEmpty { path })
    }
}

/// The state of a walk over the directory tree: directories still to list
/// (inode and path), the inodes already listed, the directory being listed
/// and the next entry to look at, the entry whose operation awaits its
/// outcome, and the number of objects created.
#[verifier::ext_equal]
pub ghost struct WalkModel {
    pub stack: Seq<(u32, Seq<Seq<char>>)>,
    pub visited: Set<u32>,
    pub cur: Option<(u32, Seq<Seq<char>>)>,
    pub idx: int,
    pub pending: Option<(u8, u32, Seq<Seq<char>>)>,
    pub count: int,
}

/// Entries left to look at in the directory being listed.
pub open spec fn entries_left(m: WalkModel, nodes: UbifsNodes) -> int {
    if m.cur is Some && 0 <= m.idx < nodes.dents@.len() {
        nodes.dents@.len() - m.idx
    } else {
        0
    }
}

/// The next step of a walk: the next entry of the directory being listed
/// that yields an operation, in the order the entries were found; when the
/// directory is done, the last directory pushed that was not listed yet.
/// Returns the new state and the operation, or no operation when the walk
/// is over.
pub open spec fn spec_next(m: WalkModel, nodes: UbifsNodes) -> (WalkModel, Option<OpModel>)
    decreases m.stack.len(), entries_left(m, nodes),
{
    if m.cur is Some && 0 <= m.idx < nodes.dents@.len() {
        let ino = m.cur.unwrap().0;
        let dir = m.cur.unwrap().1;
        let d = nodes.dents@[m.idx];
        let m1 = WalkModel { idx: m.idx + 1, ..m };
        if d.parent != ino {
            spec_next(m1, nodes)
        } else {
            match spec_entry_op(nodes, d, dir) {
                None => spec_next(m1, nodes),
                Some(op) => (
                    WalkModel {
                        pending: Some((d.itype, d.target, dir.push(spec_sanitize_component(d.name@)))),
                        ..m1
                    },
                    Some(op),
                ),
            }
        }
    } else if m.stack.len() == 0 {
        (WalkModel { cur: None, ..m }, None)
    } else {
        let top = m.stack.last();
        if m.visited.contains(top.0) {
            spec_next(WalkModel { stack: m.stack.drop_last(), cur: None, ..m }, nodes)
        } else {
            spec_next(
                WalkModel {
                    stack: m.stack.drop_last(),
                    visited: m.visited.insert(top.0),
                    cur: Some(top),
                    idx: 0,
                    ..m
                },
                nodes,
            )
        }
    }
}

/// A walk after the outcome `ok` of the pending operation: a created
/// directory is counted and queued for listing, a written file or link is
/// counted, and a special file is counted whatever happened.
pub open spec fn spec_report(m: WalkModel, ok: bool) -> WalkModel {
    match m.pending {
        None => m,
        Some((kind, target, path)) => {
            let counted = if kind == ITYPE_DIR || kind == ITYPE_REG || kind == ITYPE_LNK {
                ok
            } else {
                true
            };
            WalkModel {
                stack: if kind == ITYPE_DIR && ok {
                    m.stack.push((target, path))
                } else {
                    m.stack
                },
                count: if counted {
                    m.count + 1
                } else {
                    m.count
                },
                pending: None,
                ..m
            }
        },
    }
}

/// A walk over the directory tree of the gathered nodes, from the root.
/// The caller performs each operation that `next_op` hands out and tells
/// `report` whether it succeeded.
pub struct UbifsWalk {
    stack: Vec<(u32, Vec<String>)>,
    visited: KeyMap<bool>,
    cur: Option<(u32, Vec<String>)>,
    idx: usize,
    pending: Option<(u8, u32, Vec<String>)>,
    count: usize,
}

impl View for UbifsWalk {
    type V = WalkModel;

    closed spec fn view(&self) -> WalkModel {
        WalkModel {
            stack: Seq::new(
                self.stack@.len(),
                |i: int| (self.stack@[i].0, path_view(self.stack@[i].1@)),
            ),
            visited: self.visited.map().dom(),
            cur: match self.cur {
                Some(c) => Some((c.0, path_view(c.1@))),
                None => None,
            },
            idx: self.idx as int,
            pending: match self.pending {
                Some(p) => Some((p.0, p.1, path_view(p.2@))),
                None => None,
            },
            count: self.count as int,
        }
    }
}

impl UbifsWalk {
    /// The state's own invariant.
    pub closed spec fn wf(&self) -> bool {
        self.visited.wf()
    }

    /// A walk that starts at the root directory.
    pub fn new() -> (w: Self)
        ensures
            w.wf(),
            w@.stack == seq![(ROOT_INO, Seq::<Seq<char>>::empty())],
            w@.visited == Set::<u32>::empty(),
            w@.cur is None,
            w@.pending is None,
            w@.count == 0,
    {
        let mut stack: Vec<(u32, Vec<String>)> = Vec::new();
        stack.push((ROOT_INO, Vec::new()));
        let w = UbifsWalk {
            stack,
            visited: KeyMap::new(),
            cur: None,
            idx: 0,
            pending: None,
            count: 0,
        };
        assert(w@.stack =~= seq![(ROOT_INO, Seq::<Seq<char>>::empty())]) by {
            assert(path_view(w.stack@[0].1@) =~= Seq::<Seq<char>>::empty());
        }
        assert(w@.visited =~= Set::<u32>::empty());
        w
    }

    /// The number of objects counted as created.
    pub fn count(&self) -> (n: usize)
        ensures
            n == self@.count,
    {
        self.count
    }

    /// Hands out the next operation of the walk, or `None` when it is over.
    pub fn next_op(&mut self, nodes: &UbifsNodes) -> (r: Option<FsOp>)
        requires
            old(self).wf(),
            nodes.wf(),
        ensures
            final(self).wf(),
            (final(self)@, opt_op_view(r)) == spec_next(old(self)@, *nodes),
    {
        loop
            invariant
                self.wf(),
                nodes.wf(),
                spec_next(self@, *nodes) == spec_next(old(self)@, *nodes),
            decreases self@.stack.len(), entries_left(self@, *nodes),
        {
            let listing = match &self.cur {
                Some(_) => self.idx < nodes.dents.len(),
                None => false,
            };
            if listing {
                let (ino, dir) = match &self.cur {
                    Some(c) => (c.0, clone_path(&c.1)),
                    None => (0, Vec::new()),
                };
                let d = &nodes.dents[self.idx];
                let ghost m0 = self@;
                self.idx = self.idx + 1;
                if d.parent != ino {
                    assert(self@ == WalkModel { idx: m0.idx + 1, ..m0 });
                    continue;
                }
                match entry_op(nodes, d, &dir) {
                    None => {
                        assert(self@ == WalkModel { idx: m0.idx + 1, ..m0 });
                        continue;
                    },
                    Some(op) => {
                        let path = child_path(&dir, &d.name);
                        self.pending = Some((d.itype, d.target, path));
                        return Some(op);
                    },
                }
            } else if self.stack.len() == 0 {
                self.cur = None;
                return None;
            } else {
                let ghost m0 = self@;
                let top = self.stack.pop();
                match top {
                    Some((ino, path)) => {
                        let ghost t = (ino, path_view(path@));
                        assert(t == m0.stack.last());
                        self.cur = None;
                        assert(self@.stack =~= m0.stack.drop_last());
                        if self.visited.get(ino).is_some() {
                            assert(self@ =~= WalkModel { stack: m0.stack.drop_last(), cur: None, ..m0 });
                            continue;
                        }
                        self.visited.insert(ino, true);
                        self.cur = Some((ino, path));
                        self.idx = 0;
                        assert(self@.visited =~= m0.visited.insert(ino));
                        assert(self@ =~= WalkModel {
                            stack: m0.stack.drop_last(),
                            visited: m0.visited.insert(ino),
                            cur: Some(t),
                            idx: 0,
                            ..m0
                        });
                    },
                    None => {
                        return None;
                    },
                }
            }
        }
    }

    /// Records the outcome of the operation last handed out.
    pub fn report(&mut self, ok: bool)
        requires
            old(self).wf(),
            old(self)@.count < usize::MAX,
        ensures
            final(self).wf(),
            final(self)@ == spec_report(old(self)@, ok),
    {
        let ghost m0 = self@;
        let pending = self.pending.take();
        match pending {
            None => {
                assert(self@ =~= m0);
            },
            Some((kind, target, path)) => {
                let counted = if kind == ITYPE_DIR || kind == ITYPE_REG || kind == ITYPE_LNK {
                    ok
                } else {
                    true
                };
                if kind == ITYPE_DIR && ok {
                    self.stack.push((target, path));
                }
                if counted {
                    self.count = self.count + 1;
                }
            },
        }
    }
}

/// Scans a UBIFS volume image for its nodes. The LZO engine is prepared
/// first; LZO blocks decode only when that succeeds. Returns `None` when the
/// image holds neither an inode nor a directory entry.
pub fn extract_ubifs(image: &[u8]) -> (r: Option<UbifsNodes>)
    requires
        image@.len() + 8 <= usize::MAX,
    ensures
        exists|lzo_ready: bool|
            {
                let m = #[trigger] spec_scan_nodes(image@, lzo_ready);
                match r {
                    Some(n) => n.wf() && n.model() == m && !(m.inodes.dom().is_empty()
                        && m.dents.len() == 0),
                    None => m.inodes.dom().is_empty() && m.dents.len() == 0,
                }
            },
{
    let lzo = lzo_init();
    let nodes = scan_nodes(image, &lzo);
    let ghost m = nodes.model();
    proof {
        if nodes.inodes.pairs().len() > 0 {
            crate::keymap::lemma_entry_in_map(nodes.inodes.pairs(), 0);
            assert(m.inodes.contains_key(nodes.inodes.pairs()[0].0));
        } else {
            assert(m.inodes.dom() =~= Set::<u32>::empty());
        }
    }
    if nodes.inodes.len() == 0 && nodes.dents.len() == 0 {
        assert(spec_scan_nodes(image@, lzo.is_some()) == m);
        None
    } else {
        assert(spec_scan_nodes(image@, lzo.is_some()) == m);
        Some(nodes)
    }
}

/// Zero padding keeps every block at its offset: when the blocks come in
/// increasing block order and none is longer than a block, byte `k` of
/// block `b` lands at offset `b * 4096 + k`, and the bytes end with the
/// last block.
pub proof fn lemma_blocks_at_their_offsets(blocks: Seq<(u32, Vec<u8>)>)
    requires
        crate::keymap::keys_increasing(blocks),
        forall|i: int| 0 <= i < blocks.len() ==> (#[trigger] blocks[i]).1@.len() <= 4096,
    ensures
        blocks.len() == 0 ==> assemble_blocks(blocks).len() == 0,
        blocks.len() > 0 ==> assemble_blocks(blocks).len() == blocks.last().0 * 4096
            + blocks.last().1@.len(),
        forall|i: int, k: int|
            0 <= i < blocks.len() && 0 <= k < blocks[i].1@.len() ==> #[trigger] assemble_blocks(
                blocks,
            )[blocks[i].0 * 4096 + k] == #[trigger] blocks[i].1@[k],
    decreases blocks.len(),
{
    if blocks.len() > 0 {
        let init = blocks.drop_last();
        assert(crate::keymap::keys_increasing(init)) by {
            assert forall|i: int, j: int| 0 <= i < j < init.len() implies #[trigger] init[i].0
                < #[trigger] init[j].0 by {
                assert(blocks[i].0 < blocks[j].0);
            }
        }
        assert forall|i: int| 0 <= i < init.len() implies (#[trigger] init[i]).1@.len() <= 4096 by {
            assert(init[i] == blocks[i]);
        }
        lemma_blocks_at_their_offsets(init);
        let prev = assemble_blocks(init);
        let last = blocks.last();
        let off = last.0 * 4096;
        if init.len() > 0 {
            assert(init.last() == blocks[blocks.len() - 2]);
            assert(blocks[blocks.len() - 2].0 < blocks[blocks.len() - 1].0);
            assert(blocks[blocks.len() - 2].1@.len() <= 4096);
            assert(prev.len() <= off);
        }
        let pad = Seq::new((off - prev.len()) as nat, |i: int| 0u8);
        let whole = assemble_blocks(blocks);
        if off > prev.len() {
            assert(whole == prev + pad + last.1@);
        } else {
            assert(whole == prev + last.1@);
            assert(off == prev.len());
        }
        assert forall|i: int, k: int|
            0 <= i < blocks.len() && 0 <= k < blocks[i].1@.len() implies #[trigger] whole[blocks[i].0
                * 4096 + k] == #[trigger] blocks[i].1@[k] by {
            if i < blocks.len() - 1 {
                assert(blocks[i] == init[i]);
                assert(prev[init[i].0 * 4096 + k] == init[i].1@[k]);
                if init.len() > 0 {
                    assert(init[i].0 <= init.last().0) by {
                        if i < init.len() - 1 {
                            assert(init[i].0 < init[init.len() - 1].0);
                        }
                    }
                }
                assert(blocks[i].0 * 4096 + k < prev.len());
            } else {
                assert(blocks[i] == last);
            }
        }
    }
}

/// The directory inode being listed, if any.
pub open spec fn listed(m: WalkModel) -> Option<u32> {
    match m.cur {
        Some(c) => Some(c.0),
        None => None,
    }
}

/// The cycle guard of the walk: a step never forgets a listed directory,
/// and when it turns to another directory, that directory was not listed
/// before, so no directory is listed twice however the entries link.
pub proof fn lemma_walk_lists_each_directory_once(m: WalkModel, nodes: UbifsNodes)
    ensures
        m.visited.subset_of(spec_next(m, nodes).0.visited),
        spec_next(m, nodes).0.cur == m.cur || spec_next(m, nodes).0.cur is None || (listed(
            spec_next(m, nodes).0,
        ) matches Some(ino) && !m.visited.contains(ino) && spec_next(m, nodes).0.visited.contains(
            ino,
        )),
    decreases m.stack.len(), entries_left(m, nodes),
{
    if m.cur is Some && 0 <= m.idx < nodes.dents@.len() {
        let m1 = WalkModel { idx: m.idx + 1, ..m };
        let d = nodes.dents@[m.idx];
        if d.parent != m.cur.unwrap().0 {
            lemma_walk_lists_each_directory_once(m1, nodes);
        } else {
            match spec_entry_op(nodes, d, m.cur.unwrap().1) {
                None => lemma_walk_lists_each_directory_once(m1, nodes),
                Some(_) => {},
            }
        }
    } else if m.stack.len() == 0 {
    } else {
        let top = m.stack.last();
        if m.visited.contains(top.0) {
            let m1 = WalkModel { stack: m.stack.drop_last(), cur: None, ..m };
            lemma_walk_lists_each_directory_once(m1, nodes);
        } else {
            let m1 = WalkModel {
                stack: m.stack.drop_last(),
                visited: m.visited.insert(top.0),
                cur: Some(top),
                idx: 0,
                ..m
            };
            lemma_walk_lists_each_directory_once(m1, nodes);
        }
    }
}

/// Reporting an outcome does not change which directories were listed.
pub proof fn lemma_report_keeps_visited(m: WalkModel, ok: bool)
    ensures
        spec_report(m, ok).visited == m.visited,
        spec_report(m, ok).cur == m.cur,
{
}

} // verus!

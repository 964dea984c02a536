use std::io::Write;
use unixtract::ubifs::{
    decompress_block, extract_ubifs, inflate_raw, mode_to_itype, sanitize_component, scan_nodes,
    write_regular_file, FsOp, UbifsWalk,
};

fn node(node_type: u8, body: &[u8]) -> Vec<u8> {
    let len = 24 + body.len();
    let mut n = vec![0u8; len];
    n[0..4].copy_from_slice(&0x0610_1831u32.to_le_bytes());
    n[16..20].copy_from_slice(&(len as u32).to_le_bytes());
    n[20] = node_type;
    n[24..].copy_from_slice(body);
    let mut c = flate2::Crc::new();
    c.update(&n[8..]);
    let crc = c.sum() ^ 0xFFFF_FFFF;
    n[4..8].copy_from_slice(&crc.to_le_bytes());
    while n.len() % 8 != 0 {
        n.push(0);
    }
    n
}

fn ino(inum: u32, size: u64, mode: u32, inline: &[u8]) -> Vec<u8> {
    let mut b = vec![0u8; 160 - 24 + inline.len()];
    b[0..4].copy_from_slice(&inum.to_le_bytes());
    b[24..32].copy_from_slice(&size.to_le_bytes());
    b[80..84].copy_from_slice(&mode.to_le_bytes());
    b[88..92].copy_from_slice(&(inline.len() as u32).to_le_bytes());
    b[136..].copy_from_slice(inline);
    node(0, &b)
}

fn dent(parent: u32, target: u32, itype: u8, name: &str) -> Vec<u8> {
    let mut b = vec![0u8; 56 - 24 + name.len()];
    b[0..4].copy_from_slice(&parent.to_le_bytes());
    b[16..24].copy_from_slice(&(target as u64).to_le_bytes());
    b[25] = itype;
    b[26..28].copy_from_slice(&(name.len() as u16).to_le_bytes());
    b[32..].copy_from_slice(name.as_bytes());
    node(2, &b)
}

fn data(inum: u32, block: u32, out_len: u32, compr: u16, payload: &[u8]) -> Vec<u8> {
    let mut b = vec![0u8; 48 - 24 + payload.len()];
    b[0..4].copy_from_slice(&inum.to_le_bytes());
    b[4..8].copy_from_slice(&(block | 0x2000_0000).to_le_bytes());
    b[16..20].copy_from_slice(&out_len.to_le_bytes());
    b[20..22].copy_from_slice(&compr.to_le_bytes());
    b[24..].copy_from_slice(payload);
    node(1, &b)
}

fn deflate(d: &[u8]) -> Vec<u8> {
    let mut e = flate2::write::DeflateEncoder::new(Vec::new(), flate2::Compression::default());
    e.write_all(d).unwrap();
    e.finish().unwrap()
}

fn image() -> Vec<u8> {
    let mut img = vec![0u8; 16];
    img.extend(ino(1, 0, 0o040755, &[]));
    img.extend(dent(1, 2, 0, "hello.txt"));
    img.extend(ino(2, 10, 0o100644, &[]));
    img.extend(data(2, 0, 5, 0, b"hello"));
    img.extend(data(2, 1, 5, 0, b"world"));
    img.extend(dent(1, 3, 1, "sub"));
    img.extend(dent(3, 4, 2, "link"));
    img.extend(ino(4, 6, 0o120777, b"target"));
    img.extend(dent(3, 1, 1, "loop"));
    img.extend(dent(1, 9, 5, "dev:null"));
    let mut bad = dent(1, 8, 0, "ignored");
    bad[30] ^= 0xFF;
    img.extend(bad);
    img.extend(dent(1, 5, 0, "z.bin"));
    img.extend(data(5, 0, 2000, 2, &deflate(&[b'z'; 2000])));
    img.extend(dent(1, 6, 0, "zs.bin"));
    img.extend(data(6, 0, 300, 3, &zstd::stream::encode_all(&[b's'; 300][..], 3).unwrap()));
    img
}

fn path(p: &[String]) -> String {
    p.join("/")
}

#[test]
fn nodes_and_file_contents() {
    let img = image();
    let nodes = scan_nodes(&img, &None);
    assert_eq!(nodes.dents.len(), 7);
    let (content, size) = write_regular_file(&nodes, 2);
    assert_eq!(size, 10);
    assert_eq!(content.len(), 4096 + 5);
    assert_eq!(&content[..5], b"hello");
    assert!(content[5..4096].iter().all(|&b| b == 0));
    assert_eq!(&content[4096..], b"world");
    assert_eq!(write_regular_file(&nodes, 5).0, vec![b'z'; 2000]);
    assert_eq!(write_regular_file(&nodes, 6).0, vec![b's'; 300]);
    assert_eq!(write_regular_file(&nodes, 77), (Vec::new(), 0));
}

#[test]
fn walk_lists_every_directory_once() {
    let nodes = extract_ubifs(&image()).unwrap();
    let mut walk = UbifsWalk::new();
    let mut seen = Vec::new();
    while let Some(op) = walk.next_op(&nodes) {
        let desc = match op {
            FsOp::MakeDir { path: p } => format!("dir {}", path(&p)),
            FsOp::WriteFile { path: p, content, size } => format!("file {} {} {}", path(&p), content.len(), size),
            FsOp::WriteText { path: p, text } => format!("text {} {}", path(&p), text),
            FsOp::CreateEmpty { path: p } => format!("empty {}", path(&p)),
        };
        seen.push(desc);
        walk.report(true);
    }
    assert_eq!(
        seen,
        vec![
            "file hello.txt 4101 10",
            "dir sub",
            "empty dev_null",
            "file z.bin 2000 0",
            "file zs.bin 300 0",
            "text sub/link SYMLINK -> target",
            "dir sub/loop",
        ]
    );
    assert_eq!(walk.count(), 7);
}

#[test]
fn failed_directories_are_not_descended() {
    let nodes = extract_ubifs(&image()).unwrap();
    let mut walk = UbifsWalk::new();
    let mut n = 0;
    while let Some(op) = walk.next_op(&nodes) {
        let ok = !matches!(op, FsOp::MakeDir { .. });
        walk.report(ok);
        n += 1;
    }
    assert_eq!(n, 5);
    assert_eq!(walk.count(), 4);
}

#[test]
fn empty_images_have_no_tree() {
    assert!(extract_ubifs(&[0u8; 4096]).is_none());
}

#[test]
fn block_decoding() {
    let payload = deflate(b"abcabcabc");
    assert_eq!(inflate_raw(&payload, 9), Some(b"abcabcabc".to_vec()));
    assert_eq!(decompress_block(b"abcdef", 0, 3, &None), Some(b"abc".to_vec()));
    assert_eq!(decompress_block(b"ab", 0, 10, &None), Some(b"ab".to_vec()));
    assert_eq!(decompress_block(b"ab", 9, 10, &None), None);
    assert_eq!(decompress_block(b"ab", 1, 10, &None), None);
    let lzo = minilzo_rs::LZO::init().ok();
    let mut engine = minilzo_rs::LZO::init().unwrap();
    let packed = engine.compress(&[b'q'; 1000]).unwrap();
    assert_eq!(decompress_block(&packed, 1, 1000, &lzo), Some(vec![b'q'; 1000]));
    let z = zstd::stream::encode_all(&b"zstd block"[..], 1).unwrap();
    assert_eq!(decompress_block(&z, 3, 10, &None), Some(b"zstd block".to_vec()));
}

#[test]
fn modes_and_component_names() {
    assert_eq!(mode_to_itype(0o040755), 1);
    assert_eq!(mode_to_itype(0o120777), 2);
    assert_eq!(mode_to_itype(0o100644), 0);
    assert_eq!(mode_to_itype(0o020644), 0xFF);
    assert_eq!(sanitize_component("a/b:c"), "a_b_c");
    assert_eq!(sanitize_component("  .. "), "_");
    assert_eq!(sanitize_component(""), "_");
    assert_eq!(sanitize_component(" name\u{7} "), "name_");
}

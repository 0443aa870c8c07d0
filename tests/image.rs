use erofs_reader::bytes::{u16_le, u32_le, u64_le};
use erofs_reader::dirent::{decode_dirents, get_dirent, MyDirEnt};
use erofs_reader::error::{FormatError, SbField};
use erofs_reader::inode::{decode_inode, Inode, InodeDataLayout};
use erofs_reader::layout::ContentLocation;
use erofs_reader::sb::{
    assert_header, assert_superblock, decode_superblock, decode_superblock_region, get_inode_offset,
};
use erofs_reader::walk::{read_directory, walk};

const BLOCK: usize = 4096;
const DIR_MODE: u16 = 0o040755;
const FILE_MODE: u16 = 0o100644;

fn put16(b: &mut [u8], at: usize, v: u16) {
    b[at..at + 2].copy_from_slice(&v.to_le_bytes());
}

fn put32(b: &mut [u8], at: usize, v: u32) {
    b[at..at + 4].copy_from_slice(&v.to_le_bytes());
}

fn put64(b: &mut [u8], at: usize, v: u64) {
    b[at..at + 8].copy_from_slice(&v.to_le_bytes());
}

/// An image of `blocks` blocks with a valid outer header and superblock; the inode
/// metadata region starts at block 1.
fn image(blocks: usize) -> Vec<u8> {
    let mut img = vec![0u8; blocks * BLOCK];
    put32(&mut img, 0, 0xd078629a);
    put32(&mut img, 4, 1);
    put32(&mut img, 8, 0);
    put32(&mut img, 12, 2);
    let s = 1024;
    put32(&mut img, s, 0xE0F5E1E2);
    put32(&mut img, s + 4, 0);
    put32(&mut img, s + 8, 6);
    img[s + 12] = 12;
    img[s + 13] = 0;
    put16(&mut img, s + 14, 36);
    put64(&mut img, s + 16, 3);
    put64(&mut img, s + 24, 1_700_000_000);
    put32(&mut img, s + 32, 7);
    put32(&mut img, s + 36, blocks as u32);
    put32(&mut img, s + 40, 1);
    put32(&mut img, s + 44, 0);
    for i in 0..16 {
        img[s + 48 + i] = i as u8;
        img[s + 64 + i] = b'v';
    }
    put32(&mut img, s + 80, 0);
    put16(&mut img, s + 84, 0);
    put16(&mut img, s + 86, 0);
    put16(&mut img, s + 88, 0);
    img[s + 90] = 0;
    img[s + 91] = 0;
    put32(&mut img, s + 92, 0);
    put64(&mut img, s + 96, 0);
    img
}

fn nid_offset(nid: u64) -> usize {
    BLOCK + 32 * nid as usize
}

/// Directory content for the given (nid, name) entries.
fn dir_content(entries: &[(u64, &str)]) -> Vec<u8> {
    let mut table = vec![0u8; 12 * entries.len()];
    let mut names = Vec::new();
    let mut off = table.len();
    for (i, (nid, name)) in entries.iter().enumerate() {
        put64(&mut table, 12 * i, *nid);
        put16(&mut table, 12 * i + 8, off as u16);
        table[12 * i + 10] = 2;
        names.extend_from_slice(name.as_bytes());
        off += name.len();
    }
    table.extend_from_slice(&names);
    table
}

/// Writes a compact inode at `nid` with the given mode, layout tag and inline content.
fn put_compact(img: &mut [u8], nid: u64, mode: u16, layout: u16, u: u32, content: &[u8]) {
    let at = nid_offset(nid);
    put16(img, at, layout << 1);
    put16(img, at + 2, 0);
    put16(img, at + 4, mode);
    put16(img, at + 6, 1);
    put32(img, at + 8, content.len() as u32);
    put32(img, at + 16, u);
    img[at + 32..at + 32 + content.len()].copy_from_slice(content);
}

fn names(v: &[MyDirEnt]) -> Vec<&str> {
    v.iter().map(|e| e.name.as_str()).collect()
}

#[test]
fn le_reads_values() {
    let b = [0x01, 0x02, 0x03, 0x04, 0x05, 0x06, 0x07, 0x08];
    assert_eq!(u16_le(&b), Ok(0x0201));
    assert_eq!(u32_le(&b), Ok(0x04030201));
    assert_eq!(u64_le(&b), Ok(0x0807060504030201));
}

#[test]
fn le_reads_truncated() {
    assert_eq!(u16_le(&[1]), Err(FormatError::Truncated));
    assert_eq!(u32_le(&[1, 2, 3]), Err(FormatError::Truncated));
    assert_eq!(u64_le(&[1, 2, 3, 4, 5, 6, 7]), Err(FormatError::Truncated));
}

#[test]
fn header_accepts_valid() {
    let img = image(3);
    assert_eq!(assert_header(&img[..1024]), Ok(()));
}

#[test]
fn header_rejects_each_field() {
    let mut img = image(3);
    put32(&mut img, 4, 9);
    assert_eq!(
        assert_header(&img[..1024]),
        Err(FormatError::InvalidSuperblock { field: SbField::HeaderVersion, expected: 1, actual: 9 })
    );
    let mut img = image(3);
    put32(&mut img, 0, 5);
    assert_eq!(
        assert_header(&img[..1024]),
        Err(FormatError::InvalidSuperblock {
            field: SbField::HeaderMagic,
            expected: 0xd078629a,
            actual: 5
        })
    );
    let mut img = image(3);
    put32(&mut img, 8, 1);
    assert_eq!(
        assert_header(&img[..1024]),
        Err(FormatError::InvalidSuperblock { field: SbField::HeaderFlags, expected: 0, actual: 1 })
    );
    let mut img = image(3);
    put32(&mut img, 12, 3);
    assert_eq!(
        assert_header(&img[..1024]),
        Err(FormatError::InvalidSuperblock {
            field: SbField::HeaderFormatVersion,
            expected: 2,
            actual: 3
        })
    );
    assert_eq!(assert_header(&img[..10]), Err(FormatError::Truncated));
}

#[test]
fn superblock_rejects_fixed_fields() {
    let img = image(3);
    let s = &img[1024..2048];
    assert_eq!(assert_superblock(s), Ok(()));
    let mut bad = s.to_vec();
    bad[12] = 10;
    assert_eq!(
        assert_superblock(&bad),
        Err(FormatError::InvalidSuperblock { field: SbField::BlkSzBits, expected: 12, actual: 10 })
    );
    let mut bad = s.to_vec();
    put32(&mut bad, 4, 77);
    assert_eq!(
        assert_superblock(&bad),
        Err(FormatError::InvalidSuperblock { field: SbField::Checksum, expected: 0, actual: 77 })
    );
    let mut bad = s.to_vec();
    put32(&mut bad, 8, 2);
    assert_eq!(
        assert_superblock(&bad),
        Err(FormatError::InvalidSuperblock { field: SbField::FeatureCompat, expected: 6, actual: 2 })
    );
    let mut bad = s.to_vec();
    bad[13] = 1;
    assert_eq!(
        assert_superblock(&bad),
        Err(FormatError::InvalidSuperblock { field: SbField::ExtSlots, expected: 0, actual: 1 })
    );
    let mut bad = s.to_vec();
    put16(&mut bad, 14, 37);
    assert_eq!(
        assert_superblock(&bad),
        Err(FormatError::InvalidSuperblock { field: SbField::RootNid, expected: 36, actual: 37 })
    );
    let mut bad = s.to_vec();
    put32(&mut bad, 0, 1);
    assert_eq!(
        assert_superblock(&bad),
        Err(FormatError::InvalidSuperblock { field: SbField::Magic, expected: 0xE0F5E1E2, actual: 1 })
    );
    assert_eq!(assert_superblock(&s[..100]), Err(FormatError::Truncated));
}

#[test]
fn superblock_round_trip() {
    let img = image(3);
    let sb = decode_superblock(&img).unwrap();
    assert_eq!(sb.magic, 0xE0F5E1E2);
    assert_eq!(sb.checksum, 0);
    assert_eq!(sb.feature_compat, 6);
    assert_eq!(sb.blkszbits, 12);
    assert_eq!(sb.extslots, 0);
    assert_eq!(sb.root_nid, 36);
    assert_eq!(sb.inos, 3);
    assert_eq!(sb.build_time, 1_700_000_000);
    assert_eq!(sb.build_time_nsec, 7);
    assert_eq!(sb.blocks, 3);
    assert_eq!(sb.meta_blkaddr, 1);
    let uuid: Vec<u8> = (0..16).collect();
    assert_eq!(sb.uuid.to_vec(), uuid);
    assert_eq!(sb.volume_name, [b'v'; 16]);
    assert_eq!(sb.packed_nid, 0);
}

#[test]
fn superblock_short_image_is_truncated() {
    let img = image(3);
    assert_eq!(decode_superblock(&img[..500]).unwrap_err(), FormatError::Truncated);
    assert_eq!(decode_superblock(&img[..1500]).unwrap_err(), FormatError::Truncated);
}

#[test]
fn inode_offset_formula() {
    let img = image(3);
    let sb = decode_superblock(&img).unwrap();
    assert_eq!(get_inode_offset(&sb, 36), Some(4096 + 32 * 36));
    assert_eq!(get_inode_offset(&sb, 0), Some(4096));
    assert_eq!(get_inode_offset(&sb, u64::MAX), None);
}

#[test]
fn decode_compact_and_extended() {
    let mut img = image(3);
    put_compact(&mut img, 36, DIR_MODE, 2, 9, b"");
    match decode_inode(&img, nid_offset(36)).unwrap() {
        Inode::Compact(c) => {
            assert_eq!(c.mode, DIR_MODE);
            assert_eq!(c.u, 9);
        }
        Inode::Extended(_) => panic!("expected a compact inode"),
    }
    let at = nid_offset(40);
    put16(&mut img, at, 1 | (2 << 1));
    put16(&mut img, at + 4, FILE_MODE);
    put64(&mut img, at + 8, 1 << 40);
    put32(&mut img, at + 16, 5);
    let ino = decode_inode(&img, at).unwrap();
    assert!(matches!(ino, Inode::Extended(_)));
    assert_eq!(ino.size(), 1 << 40);
    assert_eq!(ino.u(), 5);
    assert!(!ino.is_dir());
    assert_eq!(ino.header_size(), 64);
    assert_eq!(ino.data_layout(), Ok(InodeDataLayout::FlatInline));
}

#[test]
fn decode_inode_truncated() {
    let img = image(3);
    assert_eq!(decode_inode(&img, img.len()).unwrap_err(), FormatError::Truncated);
    assert_eq!(decode_inode(&img, img.len() - 20).unwrap_err(), FormatError::Truncated);
    let mut img = image(3);
    let at = img.len() - 40;
    img[at] = 1;
    assert_eq!(decode_inode(&img, at).unwrap_err(), FormatError::Truncated);
}

#[test]
fn data_layout_tags() {
    let mut img = image(3);
    let expect = [
        InodeDataLayout::FlatPlain,
        InodeDataLayout::CompressedFull,
        InodeDataLayout::FlatInline,
        InodeDataLayout::CompressedCompact,
        InodeDataLayout::ChunkBased,
    ];
    for (tag, layout) in expect.iter().enumerate() {
        put_compact(&mut img, 36, FILE_MODE, tag as u16, 0, b"");
        let ino = decode_inode(&img, nid_offset(36)).unwrap();
        assert_eq!(ino.data_layout(), Ok(*layout));
    }
    put_compact(&mut img, 36, FILE_MODE, 5, 0, b"");
    let ino = decode_inode(&img, nid_offset(36)).unwrap();
    assert_eq!(ino.data_layout(), Err(FormatError::UnknownLayout(5)));
    assert_eq!(InodeDataLayout::from_tag(7), Err(FormatError::UnknownLayout(7)));
}

#[test]
fn xattrs_none_without_count() {
    let mut img = image(3);
    put_compact(&mut img, 36, FILE_MODE, 2, 0, b"");
    let at = nid_offset(36);
    let ino = decode_inode(&img, at).unwrap();
    assert!(ino.get_xattrs(&img[at..]).unwrap().is_none());
    assert_eq!(ino.xattrs(&img[at..]).unwrap().len(), 0);
}

#[test]
fn xattrs_block_length() {
    let mut img = image(3);
    put_compact(&mut img, 36, FILE_MODE, 2, 0, b"");
    let at = nid_offset(36);
    put16(&mut img, at + 2, 3);
    put32(&mut img, at + 32, 0xfffffff0);
    img[at + 36] = 1;
    img[at + 44] = 0xaa;
    let ino = decode_inode(&img, at).unwrap();
    assert_eq!(ino.xattr_count(), 3);
    assert_eq!(ino.xattrs(&img[at..]).unwrap().len(), 20);
    let x = ino.get_xattrs(&img[at..]).unwrap().unwrap();
    assert_eq!(x.header.name_filter, 0xfffffff0);
    assert_eq!(x.header.shared_count, 1);
    assert_eq!(x.data.len(), 8);
    assert_eq!(x.data[0], 0xaa);

    put16(&mut img, at + 2, 1);
    let ino = decode_inode(&img, at).unwrap();
    let x = ino.get_xattrs(&img[at..]).unwrap().unwrap();
    assert_eq!(x.data.len(), 0);
}

#[test]
fn xattrs_truncated() {
    let mut img = image(3);
    put_compact(&mut img, 36, FILE_MODE, 2, 0, b"");
    let at = nid_offset(36);
    put16(&mut img, at + 2, 3);
    let ino = decode_inode(&img, at).unwrap();
    assert_eq!(ino.get_xattrs(&img[at..at + 40]).unwrap_err(), FormatError::Truncated);
}

#[test]
fn dirents_dot_entries_and_children() {
    let c = dir_content(&[(36, "."), (36, ".."), (40, "a"), (41, "bc"), (42, "def")]);
    let v = decode_dirents(&c).unwrap();
    assert_eq!(names(&v), vec![".", "..", "a", "bc", "def"]);
    assert_eq!(v[2].dirent.nid, 40);
    assert_eq!(v[4].dirent.nid, 42);
    assert_eq!(v[3].dirent.name_offset, 60 + 4);
}

#[test]
fn dirents_last_name_stops_at_nul() {
    let mut c = dir_content(&[(36, "."), (36, ".."), (40, "abc")]);
    c.extend_from_slice(&[0, 0, b'x']);
    let v = decode_dirents(&c).unwrap();
    assert_eq!(names(&v), vec![".", "..", "abc"]);
}

#[test]
fn dirents_misaligned() {
    let mut c = dir_content(&[(36, "."), (36, "..")]);
    put16(&mut c, 8, 25);
    assert_eq!(decode_dirents(&c).unwrap_err(), FormatError::Misaligned);
}

#[test]
fn dirents_empty_table() {
    let c = vec![0u8; 12];
    assert_eq!(decode_dirents(&c).unwrap().len(), 0);
}

#[test]
fn dirents_truncated() {
    assert_eq!(decode_dirents(&[0u8; 5]).unwrap_err(), FormatError::Truncated);
    let c = dir_content(&[(36, "."), (36, "..")]);
    assert_eq!(decode_dirents(&c[..20]).unwrap_err(), FormatError::Truncated);
    let mut c = dir_content(&[(36, "."), (36, ".."), (40, "a")]);
    put16(&mut c, 20, 200);
    assert_eq!(decode_dirents(&c).unwrap_err(), FormatError::Truncated);
}

#[test]
fn dirents_invalid_name() {
    let mut c = dir_content(&[(36, "."), (36, ".."), (40, "ab")]);
    let n = c.len();
    c[n - 1] = 0xff;
    assert_eq!(decode_dirents(&c).unwrap_err(), FormatError::InvalidName);
}

#[test]
fn dirents_utf8_name() {
    let c = dir_content(&[(36, "."), (36, ".."), (40, "\u{e9}t\u{e9}")]);
    let v = decode_dirents(&c).unwrap();
    assert_eq!(v[2].name, "\u{e9}t\u{e9}");
    assert_eq!(v[2].name.chars().count(), 3);
}

#[test]
fn get_dirent_bounds() {
    let c = dir_content(&[(36, "."), (37, "..")]);
    assert_eq!(get_dirent(&c, 1).unwrap().nid, 37);
    assert!(get_dirent(&c, 2).is_none());
}

#[test]
fn unsupported_layouts_are_reported() {
    let mut img = image(3);
    let sb = decode_superblock(&img).unwrap();
    for tag in [1u16, 3, 4] {
        put_compact(&mut img, 36, DIR_MODE, tag, 1_000_000, b"");
        let at = nid_offset(36);
        let ino = decode_inode(&img, at).unwrap();
        let layout = ino.data_layout().unwrap();
        match ino.parse_inode(layout, &img[at..], &img, &sb).unwrap() {
            ContentLocation::Unsupported(l) => assert_eq!(l, layout),
            other => panic!("unexpected {:?}", other),
        }
    }
}

#[test]
fn flat_plain_file_is_one_block() {
    let mut img = image(3);
    let sb = decode_superblock(&img).unwrap();
    put_compact(&mut img, 36, FILE_MODE, 0, 2, b"");
    let at = nid_offset(36);
    let ino = decode_inode(&img, at).unwrap();
    match ino.parse_inode(InodeDataLayout::FlatPlain, &img[at..], &img, &sb).unwrap() {
        ContentLocation::Blocks { start, end } => {
            assert_eq!(start, 2 * BLOCK);
            assert_eq!(end, 3 * BLOCK);
        }
        other => panic!("unexpected {:?}", other),
    }
    put_compact(&mut img, 36, FILE_MODE, 0, 3, b"");
    let ino = decode_inode(&img, at).unwrap();
    assert_eq!(
        ino.parse_inode(InodeDataLayout::FlatPlain, &img[at..], &img, &sb).unwrap_err(),
        FormatError::Truncated
    );
}

#[test]
fn flat_inline_file_range() {
    let mut img = image(3);
    let sb = decode_superblock(&img).unwrap();
    put_compact(&mut img, 36, FILE_MODE, 2, 0, b"hello");
    let at = nid_offset(36);
    let ino = decode_inode(&img, at).unwrap();
    match ino.parse_inode(InodeDataLayout::FlatInline, &img[at..], &img, &sb).unwrap() {
        ContentLocation::Inline { start, end } => {
            assert_eq!((start, end), (32, 37));
            assert_eq!(&img[at + start..at + end], b"hello");
        }
        other => panic!("unexpected {:?}", other),
    }
}

#[test]
fn flat_plain_directory_entries() {
    let mut img = image(3);
    let sb = decode_superblock(&img).unwrap();
    put_compact(&mut img, 36, DIR_MODE, 0, 2, b"");
    let c = dir_content(&[(36, "."), (36, ".."), (50, "x")]);
    img[2 * BLOCK..2 * BLOCK + c.len()].copy_from_slice(&c);
    let listing = read_directory(&img, &sb, 36).unwrap().unwrap();
    assert_eq!(names(&listing), vec![".", "..", "x"]);
}

#[test]
fn read_directory_skips_files() {
    let mut img = image(3);
    let sb = decode_superblock(&img).unwrap();
    put_compact(&mut img, 44, FILE_MODE, 2, 0, b"data");
    assert!(read_directory(&img, &sb, 44).is_none());
    put_compact(&mut img, 36, DIR_MODE, 1, 0, b"");
    assert_eq!(
        read_directory(&img, &sb, 36).unwrap().unwrap_err(),
        FormatError::Unsupported(InodeDataLayout::CompressedFull)
    );
}

#[test]
fn walk_root_only() {
    let mut img = image(3);
    let sb = decode_superblock(&img).unwrap();
    let c = dir_content(&[(36, "."), (36, "..")]);
    put_compact(&mut img, 36, DIR_MODE, 2, 0, &c);
    let ino = decode_inode(&img, nid_offset(36)).unwrap();
    assert!(matches!(ino, Inode::Compact(_)));
    assert!(ino.is_dir());
    assert_eq!(ino.data_layout(), Ok(InodeDataLayout::FlatInline));
    let visits = walk(&img, &sb);
    assert_eq!(visits.len(), 1);
    assert_eq!(visits[0].nid, 36);
    let entries = visits[0].entries.as_ref().unwrap();
    assert_eq!(names(entries), vec![".", ".."]);
}

#[test]
fn walk_three_levels() {
    let mut img = image(3);
    let sb = decode_superblock(&img).unwrap();
    put_compact(&mut img, 36, DIR_MODE, 2, 0, &dir_content(&[(36, "."), (36, ".."), (40, "a")]));
    put_compact(&mut img, 40, DIR_MODE, 2, 0, &dir_content(&[(40, "."), (36, ".."), (44, "b")]));
    put_compact(&mut img, 44, FILE_MODE, 2, 0, b"content");
    let visits = walk(&img, &sb);
    let nids: Vec<u64> = visits.iter().map(|v| v.nid).collect();
    assert_eq!(nids, vec![36, 40]);
    assert_eq!(names(visits[0].entries.as_ref().unwrap()), vec![".", "..", "a"]);
    assert_eq!(names(visits[1].entries.as_ref().unwrap()), vec![".", "..", "b"]);
}

#[test]
fn walk_terminates_on_cycle() {
    let mut img = image(3);
    let sb = decode_superblock(&img).unwrap();
    put_compact(&mut img, 36, DIR_MODE, 2, 0, &dir_content(&[(36, "."), (36, ".."), (40, "a")]));
    put_compact(
        &mut img,
        40,
        DIR_MODE,
        2,
        0,
        &dir_content(&[(40, "."), (36, ".."), (36, "up"), (40, "self")]),
    );
    let visits = walk(&img, &sb);
    let nids: Vec<u64> = visits.iter().map(|v| v.nid).collect();
    assert_eq!(nids, vec![36, 40]);
}

#[test]
fn walk_reports_bad_node() {
    let mut img = image(3);
    let sb = decode_superblock(&img).unwrap();
    put_compact(&mut img, 36, DIR_MODE, 2, 0, &dir_content(&[(36, "."), (36, ".."), (40, "a")]));
    let mut bad = dir_content(&[(40, "."), (36, "..")]);
    put16(&mut bad, 8, 30);
    put_compact(&mut img, 40, DIR_MODE, 2, 0, &bad);
    let visits = walk(&img, &sb);
    assert_eq!(visits.len(), 2);
    assert_eq!(visits[1].nid, 40);
    assert_eq!(visits[1].entries.as_ref().unwrap_err(), &FormatError::Misaligned);
}

#[test]
fn superblock_bad_magic_in_image() {
    let mut img = image(3);
    put32(&mut img, 1024, 0x12345678);
    assert_eq!(
        decode_superblock(&img).unwrap_err(),
        FormatError::InvalidSuperblock { field: SbField::Magic, expected: 0xE0F5E1E2, actual: 0x12345678 }
    );
    let mut img = image(3);
    put32(&mut img, 0, 0);
    assert_eq!(
        decode_superblock(&img).unwrap_err(),
        FormatError::InvalidSuperblock { field: SbField::HeaderMagic, expected: 0xd078629a, actual: 0 }
    );
}

#[test]
fn superblock_short_region_is_truncated() {
    let img = image(3);
    assert_eq!(assert_superblock(&img[1024..1224]), Err(FormatError::Truncated));
    assert_eq!(assert_superblock(&img[1024..2047]), Err(FormatError::Truncated));
    assert!(decode_superblock_region(&img[1024..1224]).is_err());
}

#[test]
fn superblock_region_round_trip() {
    let img = image(3);
    let sb = decode_superblock_region(&img[1024..2048]).unwrap();
    assert_eq!(sb.root_nid, 36);
    assert_eq!(sb.meta_blkaddr, 1);
    assert_eq!(sb.inos, 3);
    assert_eq!(sb.build_time, 1_700_000_000);
    assert_eq!(sb.blocks, 3);
}

#[test]
fn walk_is_breadth_first() {
    let mut img = image(3);
    let sb = decode_superblock(&img).unwrap();
    put_compact(
        &mut img,
        36,
        DIR_MODE,
        2,
        0,
        &dir_content(&[(36, "."), (36, ".."), (40, "a"), (44, "b")]),
    );
    put_compact(&mut img, 40, DIR_MODE, 2, 0, &dir_content(&[(40, "."), (36, ".."), (48, "c")]));
    put_compact(&mut img, 44, DIR_MODE, 2, 0, &dir_content(&[(44, "."), (36, "..")]));
    put_compact(&mut img, 48, DIR_MODE, 2, 0, &dir_content(&[(48, "."), (40, "..")]));
    let visits = walk(&img, &sb);
    let nids: Vec<u64> = visits.iter().map(|v| v.nid).collect();
    assert_eq!(nids, vec![36, 40, 44, 48]);
}

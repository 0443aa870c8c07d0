use vstd::prelude::*;
use vstd::bytes::{
    lemma_auto_spec_u16_to_from_le_bytes, lemma_auto_spec_u32_to_from_le_bytes,
    lemma_auto_spec_u64_to_from_le_bytes, spec_u16_to_le_bytes, spec_u32_to_le_bytes,
    spec_u64_to_le_bytes,
};
use vstd::slice::slice_subrange;
use crate::bytes::{le16, le32, le64, read16, read32, read64, read_array};
use crate::error::{FormatError, SbField};

verus! {

/// Magic number of the outer header that wraps the filesystem image.
pub const COMPOSEFS_MAGIC: u32 = 0xd078629a;
/// Version of the outer header.
pub const COMPOSEFS_HEADER_VERSION: u32 = 1;
/// Format version that the outer header must announce.
pub const COMPOSEFS_VERSION: u32 = 2;
/// Magic number of the superblock.
pub const MAGIC_V1: u32 = 0xE0F5E1E2;
/// log2 of the block size the images are built with.
pub const BLOCK_BITS: u8 = 12;
/// Compat feature bit: inodes carry modification times.
pub const FEATURE_COMPAT_MTIME: u32 = 2;
/// Compat feature bit: xattr name filters are present.
pub const FEATURE_COMPAT_XATTR_FILTER: u32 = 4;
/// The compat feature set this reader understands, exactly.
pub const FEATURE_COMPAT: u32 = FEATURE_COMPAT_MTIME | FEATURE_COMPAT_XATTR_FILTER;
/// Node identifier the image builder gives the root directory.
pub const ROOT_NID: u16 = 36;
/// Size of the outer header region and of the superblock region.
pub const REGION_SIZE: usize = 1024;
/// Number of bytes of the superblock record inside its region.
pub const SUPERBLOCK_SIZE: usize = 128;
/// Number of bytes of the outer header that are checked.
pub const HEADER_SIZE: usize = 16;

/// The decoded superblock.
#[derive(Debug, Clone, Copy)]
pub struct Superblock {
    pub magic: u32,
    pub checksum: u32,
    pub feature_compat: u32,
    pub blkszbits: u8,
    pub extslots: u8,
    pub root_nid: u16,
    pub inos: u64,
    pub build_time: u64,
    pub build_time_nsec: u32,
    pub blocks: u32,
    pub meta_blkaddr: u32,
    pub xattr_blkaddr: u32,
    pub uuid: [u8; 16],
    pub volume_name: [u8; 16],
    pub feature_incompat: u32,
    pub available_compr_algs: u16,
    pub extra_devices: u16,
    pub devt_slotoff: u16,
    pub dirblkbits: u8,
    pub xattr_prefix_count: u8,
    pub xattr_prefix_start: u32,
    pub packed_nid: u64,
    pub xattr_filter_reserved: u8,
    pub reserved2: [u8; 23],
}

/// The error for a fixed field that does not hold its expected value.
pub open spec fn mismatch(field: SbField, expected: u64, actual: u64) -> FormatError {
    FormatError::InvalidSuperblock { field, expected, actual }
}

/// Outcome of checking the outer header `h`: its magic, version, flags and format
/// version, in this order.
pub open spec fn header_check(h: Seq<u8>) -> Result<(), FormatError> {
    if h.len() < HEADER_SIZE {
        Err(FormatError::Truncated)
    } else if le32(h, 0) != COMPOSEFS_MAGIC {
        Err(mismatch(SbField::HeaderMagic, COMPOSEFS_MAGIC as u64, le32(h, 0) as u64))
    } else if le32(h, 4) != COMPOSEFS_HEADER_VERSION {
        Err(mismatch(SbField::HeaderVersion, COMPOSEFS_HEADER_VERSION as u64, le32(h, 4) as u64))
    } else if le32(h, 8) != 0 {
        Err(mismatch(SbField::HeaderFlags, 0, le32(h, 8) as u64))
    } else if le32(h, 12) != COMPOSEFS_VERSION {
        Err(mismatch(SbField::HeaderFormatVersion, COMPOSEFS_VERSION as u64, le32(h, 12) as u64))
    } else {
        Ok(())
    }
}

/// Outcome of checking the superblock region `s`: it must span the whole 1KiB region, then
/// its fixed fields are checked in on-disk order.
pub open spec fn superblock_check(s: Seq<u8>) -> Result<(), FormatError> {
    if s.len() < REGION_SIZE {
        Err(FormatError::Truncated)
    } else if le32(s, 0) != MAGIC_V1 {
        Err(mismatch(SbField::Magic, MAGIC_V1 as u64, le32(s, 0) as u64))
    } else if le32(s, 4) != 0 {
        Err(mismatch(SbField::Checksum, 0, le32(s, 4) as u64))
    } else if le32(s, 8) != FEATURE_COMPAT {
        Err(mismatch(SbField::FeatureCompat, FEATURE_COMPAT as u64, le32(s, 8) as u64))
    } else if s[12] != BLOCK_BITS {
        Err(mismatch(SbField::BlkSzBits, BLOCK_BITS as u64, s[12] as u64))
    } else if s[13] != 0 {
        Err(mismatch(SbField::ExtSlots, 0, s[13] as u64))
    } else if le16(s, 14) != ROOT_NID {
        Err(mismatch(SbField::RootNid, ROOT_NID as u64, le16(s, 14) as u64))
    } else {
        Ok(())
    }
}

/// `sb` holds exactly the fields stored in the superblock region `s`.
pub open spec fn superblock_fields(sb: Superblock, s: Seq<u8>) -> bool {
    &&& sb.magic == le32(s, 0)
    &&& sb.checksum == le32(s, 4)
    &&& sb.feature_compat == le32(s, 8)
    &&& sb.blkszbits == s[12]
    &&& sb.extslots == s[13]
    &&& sb.root_nid == le16(s, 14)
    &&& sb.inos == le64(s, 16)
    &&& sb.build_time == le64(s, 24)
    &&& sb.build_time_nsec == le32(s, 32)
    &&& sb.blocks == le32(s, 36)
    &&& sb.meta_blkaddr == le32(s, 40)
    &&& sb.xattr_blkaddr == le32(s, 44)
    &&& sb.uuid@ == s.subrange(48, 64)
    &&& sb.volume_name@ == s.subrange(64, 80)
    &&& sb.feature_incompat == le32(s, 80)
    &&& sb.available_compr_algs == le16(s, 84)
    &&& sb.extra_devices == le16(s, 86)
    &&& sb.devt_slotoff == le16(s, 88)
    &&& sb.dirblkbits == s[90]
    &&& sb.xattr_prefix_count == s[91]
    &&& sb.xattr_prefix_start == le32(s, 92)
    &&& sb.packed_nid == le64(s, 96)
    &&& sb.xattr_filter_reserved == s[104]
    &&& sb.reserved2@ == s.subrange(105, 128)
}

/// The error that decoding the superblock of `img` meets first, if any.
pub open spec fn image_error(img: Seq<u8>) -> Option<FormatError> {
    if img.len() < REGION_SIZE {
        Some(FormatError::Truncated)
    } else if header_check(img.subrange(0, REGION_SIZE as int)) is Err {
        Some(header_check(img.subrange(0, REGION_SIZE as int))->Err_0)
    } else if img.len() < 2 * REGION_SIZE {
        Some(FormatError::Truncated)
    } else if superblock_check(superblock_region(img)) is Err {
        Some(superblock_check(superblock_region(img))->Err_0)
    } else {
        None
    }
}

/// The superblock region of an image: the second 1KiB.
pub open spec fn superblock_region(img: Seq<u8>) -> Seq<u8> {
    img.subrange(REGION_SIZE as int, 2 * REGION_SIZE as int)
}

/// Checks the outer header that precedes the superblock.
pub fn assert_header(header: &[u8]) -> (r: Result<(), FormatError>)
    ensures
        r == header_check(header@),
{
    if header.len() < HEADER_SIZE {
        return Err(FormatError::Truncated);
    }
    let magic = read32(header, 0);
    if magic != COMPOSEFS_MAGIC {
        return Err(FormatError::InvalidSuperblock {
            field: SbField::HeaderMagic,
            expected: COMPOSEFS_MAGIC as u64,
            actual: magic as u64,
        });
    }
    let version = read32(header, 4);
    if version != COMPOSEFS_HEADER_VERSION {
        return Err(FormatError::InvalidSuperblock {
            field: SbField::HeaderVersion,
            expected: COMPOSEFS_HEADER_VERSION as u64,
            actual: version as u64,
        });
    }
    let flags = read32(header, 8);
    if flags != 0 {
        return Err(FormatError::InvalidSuperblock {
            field: SbField::HeaderFlags,
            expected: 0,
            actual: flags as u64,
        });
    }
    let format_version = read32(header, 12);
    if format_version != COMPOSEFS_VERSION {
        return Err(FormatError::InvalidSuperblock {
            field: SbField::HeaderFormatVersion,
            expected: COMPOSEFS_VERSION as u64,
            actual: format_version as u64,
        });
    }
    Ok(())
}

/// Checks the fixed fields of a superblock region.
pub fn assert_superblock(superblock: &[u8]) -> (r: Result<(), FormatError>)
    ensures
        r == superblock_check(superblock@),
{
    if superblock.len() < REGION_SIZE {
        return Err(FormatError::Truncated);
    }
    let magic = read32(superblock, 0);
    if magic != MAGIC_V1 {
        return Err(FormatError::InvalidSuperblock {
            field: SbField::Magic,
            expected: MAGIC_V1 as u64,
            actual: magic as u64,
        });
    }
    let checksum = read32(superblock, 4);
    if checksum != 0 {
        return Err(FormatError::InvalidSuperblock {
            field: SbField::Checksum,
            expected: 0,
            actual: checksum as u64,
        });
    }
    let compat = read32(superblock, 8);
    if compat != FEATURE_COMPAT {
        return Err(FormatError::InvalidSuperblock {
            field: SbField::FeatureCompat,
            expected: FEATURE_COMPAT as u64,
            actual: compat as u64,
        });
    }
    let blkszbits = superblock[12];
    if blkszbits != BLOCK_BITS {
        return Err(FormatError::InvalidSuperblock {
            field: SbField::BlkSzBits,
            expected: BLOCK_BITS as u64,
            actual: blkszbits as u64,
        });
    }
    let extslots = superblock[13];
    if extslots != 0 {
        return Err(FormatError::InvalidSuperblock {
            field: SbField::ExtSlots,
            expected: 0,
            actual: extslots as u64,
        });
    }
    let root_nid = read16(superblock, 14);
    if root_nid != ROOT_NID {
        return Err(FormatError::InvalidSuperblock {
            field: SbField::RootNid,
            expected: ROOT_NID as u64,
            actual: root_nid as u64,
        });
    }
    Ok(())
}

/// Reads every field of the superblock record at the start of `s`.
fn read_fields(s: &[u8]) -> (sb: Superblock)
    requires
        s@.len() >= SUPERBLOCK_SIZE,
    ensures
        superblock_fields(sb, s@),
{
    Superblock {
        magic: read32(s, 0),
        checksum: read32(s, 4),
        feature_compat: read32(s, 8),
        blkszbits: s[12],
        extslots: s[13],
        root_nid: read16(s, 14),
        inos: read64(s, 16),
        build_time: read64(s, 24),
        build_time_nsec: read32(s, 32),
        blocks: read32(s, 36),
        meta_blkaddr: read32(s, 40),
        xattr_blkaddr: read32(s, 44),
        uuid: read_array(s, 48),
        volume_name: read_array(s, 64),
        feature_incompat: read32(s, 80),
        available_compr_algs: read16(s, 84),
        extra_devices: read16(s, 86),
        devt_slotoff: read16(s, 88),
        dirblkbits: s[90],
        xattr_prefix_count: s[91],
        xattr_prefix_start: read32(s, 92),
        packed_nid: read64(s, 96),
        xattr_filter_reserved: s[104],
        reserved2: read_array(s, 105),
    }
}

/// Validates a 1KiB superblock region and decodes the superblock it holds.
pub fn decode_superblock_region(region: &[u8]) -> (r: Result<Superblock, FormatError>)
    ensures
        match r {
            Ok(sb) => superblock_check(region@) is Ok && superblock_fields(sb, region@),
            Err(e) => superblock_check(region@) == Err::<(), FormatError>(e),
        },
{
    match assert_superblock(region) {
        Ok(()) => {},
        Err(e) => return Err(e),
    }
    Ok(read_fields(region))
}

/// Validates the outer header and the superblock of an image and decodes the superblock.
pub fn decode_superblock(image: &[u8]) -> (r: Result<Superblock, FormatError>)
    ensures
        match r {
            Ok(sb) => image_error(image@) is None && superblock_fields(sb, superblock_region(image@)),
            Err(e) => image_error(image@) == Some(e),
        },
{
    if image.len() < REGION_SIZE {
        return Err(FormatError::Truncated);
    }
    let header = slice_subrange(image, 0, REGION_SIZE);
    match assert_header(header) {
        Ok(()) => {},
        Err(e) => return Err(e),
    }
    if image.len() < 2 * REGION_SIZE {
        return Err(FormatError::Truncated);
    }
    decode_superblock_region(slice_subrange(image, REGION_SIZE, 2 * REGION_SIZE))
}

impl Superblock {
    /// Block size in bytes, for a block-size exponent below 64.
    pub open spec fn spec_block_size(&self) -> int {
        (1u64 << self.blkszbits) as int
    }

    /// Byte offset of the inode with node identifier `nid`.
    pub open spec fn spec_inode_offset(&self, nid: u64) -> int {
        self.meta_blkaddr * self.spec_block_size() + 32 * nid
    }

    /// Block size in bytes; `None` where `1 << blkszbits` does not fit in 64 bits.
    pub fn block_size(&self) -> (r: Option<u64>)
        ensures
            r == (if self.blkszbits < 64 {
                Some(1u64 << self.blkszbits)
            } else {
                None::<u64>
            }),
    {
        if self.blkszbits < 64 {
            Some(1u64 << self.blkszbits)
        } else {
            None
        }
    }
}

/// Byte offset of the inode with node identifier `nid`:
/// `meta_blkaddr * block_size + 32 * nid`, or `None` where that does not fit in a `usize`.
pub fn get_inode_offset(superblock: &Superblock, nid: u64) -> (r: Option<usize>)
    ensures
        r == (if superblock.blkszbits < 64 && superblock.spec_inode_offset(nid) <= usize::MAX {
            Some(superblock.spec_inode_offset(nid) as usize)
        } else {
            None::<usize>
        }),
{
    let block_size = match superblock.block_size() {
        Some(b) => b,
        None => return None,
    };
    let base = match (superblock.meta_blkaddr as u64).checked_mul(block_size) {
        Some(b) => b,
        None => return None,
    };
    let slots = match nid.checked_mul(32) {
        Some(s) => s,
        None => return None,
    };
    match base.checked_add(slots) {
        Some(o) if o <= usize::MAX as u64 => Some(o as usize),
        _ => None,
    }
}

/// The outer header bytes carry the magic, version, flags and format version this reader
/// expects, little-endian, in this order.
pub open spec fn encodes_header(h: Seq<u8>) -> bool {
    &&& h.len() >= HEADER_SIZE
    &&& h.subrange(0, 4) == spec_u32_to_le_bytes(COMPOSEFS_MAGIC)
    &&& h.subrange(4, 8) == spec_u32_to_le_bytes(COMPOSEFS_HEADER_VERSION)
    &&& h.subrange(8, 12) == spec_u32_to_le_bytes(0)
    &&& h.subrange(12, 16) == spec_u32_to_le_bytes(COMPOSEFS_VERSION)
}

/// The superblock region `s` holds every field of `sb`, little-endian, at its on-disk offset.
pub open spec fn encodes_superblock(s: Seq<u8>, sb: Superblock) -> bool {
    &&& s.len() >= SUPERBLOCK_SIZE
    &&& s.subrange(0, 4) == spec_u32_to_le_bytes(sb.magic)
    &&& s.subrange(4, 8) == spec_u32_to_le_bytes(sb.checksum)
    &&& s.subrange(8, 12) == spec_u32_to_le_bytes(sb.feature_compat)
    &&& s[12] == sb.blkszbits
    &&& s[13] == sb.extslots
    &&& s.subrange(14, 16) == spec_u16_to_le_bytes(sb.root_nid)
    &&& s.subrange(16, 24) == spec_u64_to_le_bytes(sb.inos)
    &&& s.subrange(24, 32) == spec_u64_to_le_bytes(sb.build_time)
    &&& s.subrange(32, 36) == spec_u32_to_le_bytes(sb.build_time_nsec)
    &&& s.subrange(36, 40) == spec_u32_to_le_bytes(sb.blocks)
    &&& s.subrange(40, 44) == spec_u32_to_le_bytes(sb.meta_blkaddr)
    &&& s.subrange(44, 48) == spec_u32_to_le_bytes(sb.xattr_blkaddr)
    &&& s.subrange(48, 64) == sb.uuid@
    &&& s.subrange(64, 80) == sb.volume_name@
    &&& s.subrange(80, 84) == spec_u32_to_le_bytes(sb.feature_incompat)
    &&& s.subrange(84, 86) == spec_u16_to_le_bytes(sb.available_compr_algs)
    &&& s.subrange(86, 88) == spec_u16_to_le_bytes(sb.extra_devices)
    &&& s.subrange(88, 90) == spec_u16_to_le_bytes(sb.devt_slotoff)
    &&& s[90] == sb.dirblkbits
    &&& s[91] == sb.xattr_prefix_count
    &&& s.subrange(92, 96) == spec_u32_to_le_bytes(sb.xattr_prefix_start)
    &&& s.subrange(96, 104) == spec_u64_to_le_bytes(sb.packed_nid)
    &&& s[104] == sb.xattr_filter_reserved
    &&& s.subrange(105, 128) == sb.reserved2@
}

/// `sb` holds the values that this reader requires of the fixed fields.
pub open spec fn fixed_fields_hold(sb: Superblock) -> bool {
    &&& sb.magic == MAGIC_V1
    &&& sb.checksum == 0
    &&& sb.feature_compat == FEATURE_COMPAT
    &&& sb.blkszbits == BLOCK_BITS
    &&& sb.extslots == 0
    &&& sb.root_nid == ROOT_NID
}

/// Round trip on the superblock region: a 1KiB region that holds the encoding of a
/// superblock `sb` whose fixed fields hold the expected values passes the checks, and its
/// decoded fields are exactly those of `sb`.
pub proof fn lemma_superblock_region_round_trip(s: Seq<u8>, sb: Superblock)
    requires
        s.len() >= REGION_SIZE,
        encodes_superblock(s, sb),
        fixed_fields_hold(sb),
    ensures
        superblock_check(s) is Ok,
        superblock_fields(sb, s),
{
    lemma_auto_spec_u16_to_from_le_bytes();
    lemma_auto_spec_u32_to_from_le_bytes();
    lemma_auto_spec_u64_to_from_le_bytes();
    assert(spec_u32_to_le_bytes(sb.magic).len() == 4);
    assert(le32(s, 0) == sb.magic);
    assert(spec_u32_to_le_bytes(sb.checksum).len() == 4);
    assert(le32(s, 4) == sb.checksum);
    assert(spec_u32_to_le_bytes(sb.feature_compat).len() == 4);
    assert(le32(s, 8) == sb.feature_compat);
    assert(spec_u16_to_le_bytes(sb.root_nid).len() == 2);
    assert(le16(s, 14) == sb.root_nid);
    assert(spec_u64_to_le_bytes(sb.inos).len() == 8);
    assert(le64(s, 16) == sb.inos);
    assert(spec_u64_to_le_bytes(sb.build_time).len() == 8);
    assert(le64(s, 24) == sb.build_time);
    assert(spec_u32_to_le_bytes(sb.build_time_nsec).len() == 4);
    assert(le32(s, 32) == sb.build_time_nsec);
    assert(spec_u32_to_le_bytes(sb.blocks).len() == 4);
    assert(le32(s, 36) == sb.blocks);
    assert(spec_u32_to_le_bytes(sb.meta_blkaddr).len() == 4);
    assert(le32(s, 40) == sb.meta_blkaddr);
    assert(spec_u32_to_le_bytes(sb.xattr_blkaddr).len() == 4);
    assert(le32(s, 44) == sb.xattr_blkaddr);
    assert(spec_u32_to_le_bytes(sb.feature_incompat).len() == 4);
    assert(le32(s, 80) == sb.feature_incompat);
    assert(spec_u16_to_le_bytes(sb.available_compr_algs).len() == 2);
    assert(le16(s, 84) == sb.available_compr_algs);
    assert(spec_u16_to_le_bytes(sb.extra_devices).len() == 2);
    assert(le16(s, 86) == sb.extra_devices);
    assert(spec_u16_to_le_bytes(sb.devt_slotoff).len() == 2);
    assert(le16(s, 88) == sb.devt_slotoff);
    assert(spec_u32_to_le_bytes(sb.xattr_prefix_start).len() == 4);
    assert(le32(s, 92) == sb.xattr_prefix_start);
    assert(spec_u64_to_le_bytes(sb.packed_nid).len() == 8);
    assert(le64(s, 96) == sb.packed_nid);
}

/// Round trip: for an image built with a valid outer header and a superblock `sb` whose
/// fixed fields hold the expected values, decoding finds no error and recovers exactly
/// the fields of `sb`.
pub proof fn lemma_superblock_round_trip(img: Seq<u8>, sb: Superblock)
    requires
        img.len() >= 2 * REGION_SIZE,
        encodes_header(img),
        encodes_superblock(superblock_region(img), sb),
        fixed_fields_hold(sb),
    ensures
        image_error(img) is None,
        superblock_fields(sb, superblock_region(img)),
{
    lemma_auto_spec_u32_to_from_le_bytes();
    let h = img.subrange(0, REGION_SIZE as int);
    let s = superblock_region(img);
    assert(h.subrange(0, 4) == img.subrange(0, 4));
    assert(h.subrange(4, 8) == img.subrange(4, 8));
    assert(h.subrange(8, 12) == img.subrange(8, 12));
    assert(h.subrange(12, 16) == img.subrange(12, 16));
    assert(header_check(h) is Ok);
    lemma_superblock_region_round_trip(s, sb);
}

} // verus!

use vstd::prelude::*;
use vstd::slice::slice_subrange;
use crate::bytes::{le16, le32, le64, read16, read32, read64, read_array};
use crate::error::FormatError;

verus! {

/// Mask of the file-type bits of a mode.
pub const S_IFMT: u16 = 0o170000;
/// File-type bits of a directory.
pub const S_IFDIR: u16 = 0o040000;
/// Size of a compact inode header.
pub const COMPACT_INODE_SIZE: usize = 32;
/// Size of an extended inode header.
pub const EXTENDED_INODE_SIZE: usize = 64;
/// Size of the header of an inline xattr block.
pub const XATTR_HEADER_SIZE: usize = 12;

/// Where and how the content of an inode is stored.
#[derive(Debug, Clone, Copy, PartialEq, Eq)]
pub enum InodeDataLayout {
    FlatPlain,
    CompressedFull,
    FlatInline,
    CompressedCompact,
    ChunkBased,
}

/// The 3-bit data-layout tag held in bits 1 to 3 of an inode's `format`.
pub open spec fn layout_tag(format: u16) -> u8 {
    ((format >> 1u16) as u8) & 7u8
}

/// The layout that a tag names, or the error for a tag that names none.
pub open spec fn layout_of(tag: u8) -> Result<InodeDataLayout, FormatError> {
    if tag == 0 {
        Ok(InodeDataLayout::FlatPlain)
    } else if tag == 1 {
        Ok(InodeDataLayout::CompressedFull)
    } else if tag == 2 {
        Ok(InodeDataLayout::FlatInline)
    } else if tag == 3 {
        Ok(InodeDataLayout::CompressedCompact)
    } else if tag == 4 {
        Ok(InodeDataLayout::ChunkBased)
    } else {
        Err(FormatError::UnknownLayout(tag))
    }
}

impl InodeDataLayout {
    /// The layout named by a 3-bit tag.
    pub fn from_tag(tag: u8) -> (r: Result<InodeDataLayout, FormatError>)
        ensures
            r == layout_of(tag),
    {
        match tag {
            0 => Ok(InodeDataLayout::FlatPlain),
            1 => Ok(InodeDataLayout::CompressedFull),
            2 => Ok(InodeDataLayout::FlatInline),
            3 => Ok(InodeDataLayout::CompressedCompact),
            4 => Ok(InodeDataLayout::ChunkBased),
            _ => Err(FormatError::UnknownLayout(tag)),
        }
    }
}

/// The 32-byte inode encoding.
#[derive(Debug, Clone, Copy)]
pub struct CompactInodeHeader {
    pub format: u16,
    pub xattr_icount: u16,
    pub mode: u16,
    pub nlink: u16,
    pub size: u32,
    pub reserved: u32,
    pub u: u32,
    pub ino: u32,
    pub uid: u16,
    pub gid: u16,
    pub reserved2: [u8; 4],
}

/// The 64-byte inode encoding.
#[derive(Debug, Clone, Copy)]
pub struct ExtendedInodeHeader {
    pub format: u16,
    pub xattr_icount: u16,
    pub mode: u16,
    pub reserved: u16,
    pub size: u64,
    pub u: u32,
    pub ino: u32,
    pub uid: u32,
    pub gid: u32,
    pub mtime: u64,
    pub mtime_nsec: u32,
    pub nlink: u32,
    pub reserved2: [u8; 16],
}

/// An inode in either of its two encodings.
#[derive(Debug, Clone, Copy)]
pub enum Inode {
    Compact(CompactInodeHeader),
    Extended(ExtendedInodeHeader),
}

/// `h` holds exactly the compact inode header at the start of `b`.
pub open spec fn compact_fields(h: CompactInodeHeader, b: Seq<u8>) -> bool {
    &&& h.format == le16(b, 0)
    &&& h.xattr_icount == le16(b, 2)
    &&& h.mode == le16(b, 4)
    &&& h.nlink == le16(b, 6)
    &&& h.size == le32(b, 8)
    &&& h.reserved == le32(b, 12)
    &&& h.u == le32(b, 16)
    &&& h.ino == le32(b, 20)
    &&& h.uid == le16(b, 24)
    &&& h.gid == le16(b, 26)
    &&& h.reserved2@ == b.subrange(28, 32)
}

/// `h` holds exactly the extended inode header at the start of `b`.
pub open spec fn extended_fields(h: ExtendedInodeHeader, b: Seq<u8>) -> bool {
    &&& h.format == le16(b, 0)
    &&& h.xattr_icount == le16(b, 2)
    &&& h.mode == le16(b, 4)
    &&& h.reserved == le16(b, 6)
    &&& h.size == le64(b, 8)
    &&& h.u == le32(b, 16)
    &&& h.ino == le32(b, 20)
    &&& h.uid == le32(b, 24)
    &&& h.gid == le32(b, 28)
    &&& h.mtime == le64(b, 32)
    &&& h.mtime_nsec == le32(b, 40)
    &&& h.nlink == le32(b, 44)
    &&& h.reserved2@ == b.subrange(48, 64)
}

/// The size of the inode header whose first byte is `first`: bit 0 selects the encoding.
pub open spec fn header_size_for(first: u8) -> int {
    if first & 1u8 == 0 {
        COMPACT_INODE_SIZE as int
    } else {
        EXTENDED_INODE_SIZE as int
    }
}

/// `r` is what decoding the inode at byte `offset` of `image` must give.
pub open spec fn inode_decoded(image: Seq<u8>, offset: int, r: Result<Inode, FormatError>) -> bool {
    if offset >= image.len() || offset + header_size_for(image[offset]) > image.len() {
        r == Err::<Inode, FormatError>(FormatError::Truncated)
    } else {
        match r {
            Ok(Inode::Compact(h)) => image[offset] & 1u8 == 0 && compact_fields(
                h,
                image.subrange(offset, image.len() as int),
            ),
            Ok(Inode::Extended(h)) => image[offset] & 1u8 == 1 && extended_fields(
                h,
                image.subrange(offset, image.len() as int),
            ),
            Err(_) => false,
        }
    }
}

/// Decodes the inode whose header starts at byte `offset` of `image`.
pub fn decode_inode(image: &[u8], offset: usize) -> (r: Result<Inode, FormatError>)
    ensures
        inode_decoded(image@, offset as int, r),
{
    if offset >= image.len() {
        return Err(FormatError::Truncated);
    }
    let first = image[offset];
    let b = slice_subrange(image, offset, image.len());
    if first & 1 == 0 {
        if b.len() < COMPACT_INODE_SIZE {
            return Err(FormatError::Truncated);
        }
        Ok(
            Inode::Compact(
                CompactInodeHeader {
                    format: read16(b, 0),
                    xattr_icount: read16(b, 2),
                    mode: read16(b, 4),
                    nlink: read16(b, 6),
                    size: read32(b, 8),
                    reserved: read32(b, 12),
                    u: read32(b, 16),
                    ino: read32(b, 20),
                    uid: read16(b, 24),
                    gid: read16(b, 26),
                    reserved2: read_array(b, 28),
                },
            ),
        )
    } else {
        assert(first & 1u8 == 1) by (bit_vector)
            requires
                first & 1u8 != 0,
        ;
        if b.len() < EXTENDED_INODE_SIZE {
            return Err(FormatError::Truncated);
        }
        Ok(
            Inode::Extended(
                ExtendedInodeHeader {
                    format: read16(b, 0),
                    xattr_icount: read16(b, 2),
                    mode: read16(b, 4),
                    reserved: read16(b, 6),
                    size: read64(b, 8),
                    u: read32(b, 16),
                    ino: read32(b, 20),
                    uid: read32(b, 24),
                    gid: read32(b, 28),
                    mtime: read64(b, 32),
                    mtime_nsec: read32(b, 40),
                    nlink: read32(b, 44),
                    reserved2: read_array(b, 48),
                },
            ),
        )
    }
}

/// Header of an inline xattr block: 12 bytes. The shared xattr id array that may follow
/// it is left, undecoded, at the start of the remaining bytes.
#[derive(Debug, Clone, Copy)]
pub struct XattrHeader {
    /// Bit value 1 means the name prefix is not present.
    pub name_filter: u32,
    pub shared_count: u8,
    pub reserved2: [u8; 7],
}

/// An inode's inline xattr block: its header and the undecoded bytes after it.
#[derive(Debug)]
pub struct Xattrs<'a> {
    pub header: XattrHeader,
    pub data: &'a [u8],
}

impl Inode {
    pub open spec fn spec_format(&self) -> u16 {
        match self {
            Inode::Compact(c) => c.format,
            Inode::Extended(e) => e.format,
        }
    }

    pub open spec fn spec_mode(&self) -> u16 {
        match self {
            Inode::Compact(c) => c.mode,
            Inode::Extended(e) => e.mode,
        }
    }

    pub open spec fn spec_is_dir(&self) -> bool {
        self.spec_mode() & S_IFMT == S_IFDIR
    }

    pub open spec fn spec_size(&self) -> u64 {
        match self {
            Inode::Compact(c) => c.size as u64,
            Inode::Extended(e) => e.size,
        }
    }

    pub open spec fn spec_u(&self) -> u32 {
        match self {
            Inode::Compact(c) => c.u,
            Inode::Extended(e) => e.u,
        }
    }

    pub open spec fn spec_xattr_count(&self) -> u16 {
        match self {
            Inode::Compact(c) => c.xattr_icount,
            Inode::Extended(e) => e.xattr_icount,
        }
    }

    pub open spec fn spec_header_size(&self) -> int {
        match self {
            Inode::Compact(_) => COMPACT_INODE_SIZE as int,
            Inode::Extended(_) => EXTENDED_INODE_SIZE as int,
        }
    }

    /// Length of the inline xattr block: none for a count of 0, else `12 + (count - 1) * 4`.
    pub open spec fn spec_xattr_len(&self) -> int {
        if self.spec_xattr_count() == 0 {
            0
        } else {
            12 + (self.spec_xattr_count() - 1) * 4
        }
    }

    pub fn mode(&self) -> (r: u16)
        ensures
            r == self.spec_mode(),
    {
        match self {
            Inode::Compact(c) => c.mode,
            Inode::Extended(e) => e.mode,
        }
    }

    /// Whether the file-type bits of the mode say directory.
    pub fn is_dir(&self) -> (r: bool)
        ensures
            r == self.spec_is_dir(),
    {
        (self.mode() & S_IFMT) == S_IFDIR
    }

    /// Logical content length in bytes.
    pub fn size(&self) -> (r: u64)
        ensures
            r == self.spec_size(),
    {
        match self {
            Inode::Compact(c) => c.size as u64,
            Inode::Extended(e) => e.size,
        }
    }

    /// The layout-dependent payload: a block address for flat layouts.
    pub fn u(&self) -> (r: u32)
        ensures
            r == self.spec_u(),
    {
        match self {
            Inode::Compact(c) => c.u,
            Inode::Extended(e) => e.u,
        }
    }

    pub fn xattr_count(&self) -> (r: u16)
        ensures
            r == self.spec_xattr_count(),
    {
        match self {
            Inode::Compact(c) => c.xattr_icount,
            Inode::Extended(e) => e.xattr_icount,
        }
    }

    /// Length of the fixed header of this inode's encoding.
    pub fn header_size(&self) -> (r: usize)
        ensures
            r == self.spec_header_size(),
    {
        match self {
            Inode::Compact(_) => COMPACT_INODE_SIZE,
            Inode::Extended(_) => EXTENDED_INODE_SIZE,
        }
    }

    /// The layout named by bits 1 to 3 of `format`.
    pub fn data_layout(&self) -> (r: Result<InodeDataLayout, FormatError>)
        ensures
            r == layout_of(layout_tag(self.spec_format())),
    {
        let format = match self {
            Inode::Compact(c) => c.format,
            Inode::Extended(e) => e.format,
        };
        InodeDataLayout::from_tag(((format >> 1u16) as u8) & 7u8)
    }

    /// The inline xattr block of an inode whose bytes, from the start of its header on,
    /// are `d`: it follows the header; empty where the inode has none.
    pub open spec fn xattr_block(&self, d: Seq<u8>) -> Result<Seq<u8>, FormatError> {
        if self.spec_xattr_count() == 0 {
            Ok(Seq::empty())
        } else if self.spec_header_size() + self.spec_xattr_len() > d.len() {
            Err(FormatError::Truncated)
        } else {
            Ok(d.subrange(self.spec_header_size(), self.spec_header_size() + self.spec_xattr_len()))
        }
    }

    /// The inline xattr block, which follows the inode header in `inode_data` (the bytes
    /// from the start of the inode on); empty where the inode has none.
    pub fn xattrs<'a>(&self, inode_data: &'a [u8]) -> (r: Result<&'a [u8], FormatError>)
        ensures
            match r {
                Ok(x) => self.xattr_block(inode_data@) == Ok::<Seq<u8>, FormatError>(x@),
                Err(e) => self.xattr_block(inode_data@) == Err::<Seq<u8>, FormatError>(e),
            },
    {
        let count = self.xattr_count();
        if count == 0 {
            let empty = slice_subrange(inode_data, 0, 0);
            assert(empty@ =~= Seq::<u8>::empty());
            return Ok(empty);
        }
        let len = (count as usize - 1) * 4 + XATTR_HEADER_SIZE;
        let start = self.header_size();
        if inode_data.len() < start || inode_data.len() - start < len {
            return Err(FormatError::Truncated);
        }
        Ok(slice_subrange(inode_data, start, start + len))
    }

    /// Decodes the inline xattr block: `None` where the inode has none, else its 12-byte
    /// header and the `(xattr_icount - 1) * 4` bytes after it.
    pub fn get_xattrs<'a>(&self, inode_data: &'a [u8]) -> (r: Result<
        Option<Xattrs<'a>>,
        FormatError,
    >)
        ensures
            (r matches Ok(None)) <==> self.spec_xattr_count() == 0,
            r matches Ok(Some(x)) ==> XATTR_HEADER_SIZE + x.data@.len() == 12 + (
            self.spec_xattr_count() - 1) * 4,
            match r {
                Ok(None) => self.spec_xattr_count() == 0,
                Ok(Some(x)) => self.spec_xattr_count() != 0 && self.xattr_block(inode_data@) is Ok
                    && xattrs_fields(x, self.xattr_block(inode_data@)->Ok_0),
                Err(e) => self.xattr_block(inode_data@) == Err::<Seq<u8>, FormatError>(e),
            },
    {
        let block = match self.xattrs(inode_data) {
            Ok(b) => b,
            Err(e) => return Err(e),
        };
        if block.len() == 0 {
            return Ok(None);
        }
        let header = XattrHeader {
            name_filter: read32(block, 0),
            shared_count: block[4],
            reserved2: read_array(block, 5),
        };
        Ok(Some(Xattrs { header, data: slice_subrange(block, XATTR_HEADER_SIZE, block.len()) }))
    }
}

/// `x` holds exactly the xattr block `b`: its header fields and the bytes after them.
pub open spec fn xattrs_fields(x: Xattrs, b: Seq<u8>) -> bool {
    &&& b.len() >= XATTR_HEADER_SIZE
    &&& x.header.name_filter == le32(b, 0)
    &&& x.header.shared_count == b[4]
    &&& x.header.reserved2@ == b.subrange(5, 12)
    &&& x.data@ == b.subrange(XATTR_HEADER_SIZE as int, b.len() as int)
}

} // verus!

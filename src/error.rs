use vstd::prelude::*;
use crate::inode::InodeDataLayout;

verus! {

/// A field of the outer header or of the superblock that is checked against a fixed value.
#[derive(Debug, Clone, Copy, PartialEq, Eq)]
pub enum SbField {
    HeaderMagic,
    HeaderVersion,
    HeaderFlags,
    HeaderFormatVersion,
    Magic,
    Checksum,
    FeatureCompat,
    BlkSzBits,
    ExtSlots,
    RootNid,
}

/// Every way in which the image can fail to decode.
#[derive(Debug, Clone, Copy, PartialEq, Eq)]
pub enum FormatError {
    /// A read would go past the bytes provided.
    Truncated,
    /// A fixed header or superblock field holds an unexpected value.
    InvalidSuperblock { field: SbField, expected: u64, actual: u64 },
    /// The 3-bit data-layout tag is none of the defined layouts.
    UnknownLayout(u8),
    /// The layout is recognized but its content is not decoded.
    Unsupported(InodeDataLayout),
    /// The directory entry table size is not a multiple of the entry size.
    Misaligned,
    /// An entry name is not valid UTF-8.
    InvalidName,
}

} // verus!

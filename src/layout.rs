use vstd::prelude::*;
use vstd::slice::slice_subrange;
use crate::dirent::{decode_dirents, dirents_result, entries_view, DirEnt, MyDirEnt};
use crate::walk::listing_view;
use crate::error::FormatError;
use crate::inode::{Inode, InodeDataLayout};
use crate::sb::Superblock;

verus! {

/// Where an inode's content is, or, for a directory, its decoded entries.
#[derive(Debug)]
pub enum ContentLocation {
    /// The content is `inode_data[start..end]`, right after the inode header.
    Inline { start: usize, end: usize },
    /// The content is `file[start..end]`, one block of the image.
    Blocks { start: usize, end: usize },
    /// The decoded entries of a directory.
    Directory(Vec<MyDirEnt>),
    /// A layout that is recognized but whose content is not decoded.
    Unsupported(InodeDataLayout),
}

/// `r` is a directory listing exactly where `res` holds entries, and the same error where
/// `res` does.
pub open spec fn listing_matches(
    r: Result<ContentLocation, FormatError>,
    res: Result<Seq<(DirEnt, Seq<char>)>, FormatError>,
) -> bool {
    match res {
        Ok(s) => r matches Ok(ContentLocation::Directory(v)) && entries_view(v@) == s,
        Err(e) => r == Err::<ContentLocation, FormatError>(e),
    }
}

/// `r` is the content window `[start, end)` of `bytes`: decoded as entries for a directory,
/// else given as a range built by `range`; `Truncated` where the window leaves `bytes`.
pub open spec fn window_matches(
    r: Result<ContentLocation, FormatError>,
    is_dir: bool,
    inline: bool,
    bytes: Seq<u8>,
    start: int,
    end: int,
) -> bool {
    if end > bytes.len() {
        r == Err::<ContentLocation, FormatError>(FormatError::Truncated)
    } else if is_dir {
        listing_matches(r, dirents_result(bytes.subrange(start, end)))
    } else if inline {
        r matches Ok(ContentLocation::Inline { start: s, end: e }) && s == start && e == end
    } else {
        r matches Ok(ContentLocation::Blocks { start: s, end: e }) && s == start && e == end
    }
}

impl Inode {
    /// Decodes `content`, the content of this directory inode, into its entries.
    pub fn parse_dirents(&self, content: &[u8]) -> (r: Result<Vec<MyDirEnt>, FormatError>)
        ensures
            listing_view(r) == dirents_result(content@),
    {
        decode_dirents(content)
    }

    /// Start of the block window of a flat plain inode: `u * block_size`.
    pub open spec fn spec_block_start(&self, sb: Superblock) -> int {
        self.spec_u() * sb.spec_block_size()
    }

    /// What resolving the content of this inode under `layout` gives, where `inode_data`
    /// holds the bytes from the inode's header on and `file` the whole image.
    pub open spec fn content_matches(
        &self,
        layout: InodeDataLayout,
        inode_data: Seq<u8>,
        file: Seq<u8>,
        sb: Superblock,
        r: Result<ContentLocation, FormatError>,
    ) -> bool {
        match layout {
            InodeDataLayout::FlatPlain => window_matches(
                r,
                self.spec_is_dir(),
                false,
                file,
                self.spec_block_start(sb),
                self.spec_block_start(sb) + sb.spec_block_size(),
            ),
            InodeDataLayout::FlatInline => window_matches(
                r,
                self.spec_is_dir(),
                true,
                inode_data,
                self.spec_header_size(),
                self.spec_header_size() + self.spec_size(),
            ),
            _ => r == Ok::<ContentLocation, FormatError>(ContentLocation::Unsupported(layout)),
        }
    }

    /// Resolves where this inode's content lies under `layout`, and decodes it where the
    /// inode is a directory. `inode_data` holds the bytes from the inode's header on, `file`
    /// the whole image. A flat plain inode's content is the block `u` of the image; a flat
    /// inline inode's is the `size` bytes right after its header (an inline xattr block is
    /// not skipped). Compressed and chunk-based layouts are reported unsupported and never
    /// read.
    pub fn parse_inode(
        &self,
        layout: InodeDataLayout,
        inode_data: &[u8],
        file: &[u8],
        superblock: &Superblock,
    ) -> (r: Result<ContentLocation, FormatError>)
        requires
            superblock.blkszbits < 64,
        ensures
            self.content_matches(layout, inode_data@, file@, *superblock, r),
            layout is CompressedFull || layout is CompressedCompact || layout is ChunkBased
                ==> r == Ok::<ContentLocation, FormatError>(ContentLocation::Unsupported(layout)),
    {
        match layout {
            InodeDataLayout::FlatPlain => {
                let block_size = 1u64 << superblock.blkszbits;
                assert(file@.len() == file.len() <= u64::MAX);
                let start = match (self.u() as u64).checked_mul(block_size) {
                    Some(s) => s,
                    None => return Err(FormatError::Truncated),
                };
                let end = match start.checked_add(block_size) {
                    Some(e) => e,
                    None => return Err(FormatError::Truncated),
                };
                if end > file.len() as u64 {
                    return Err(FormatError::Truncated);
                }
                let start = start as usize;
                let end = end as usize;
                if self.is_dir() {
                    match self.parse_dirents(slice_subrange(file, start, end)) {
                        Ok(v) => Ok(ContentLocation::Directory(v)),
                        Err(e) => Err(e),
                    }
                } else {
                    Ok(ContentLocation::Blocks { start, end })
                }
            },
            InodeDataLayout::FlatInline => {
                let start = self.header_size();
                let size = self.size();
                if start as u64 > inode_data.len() as u64 || size > (inode_data.len() - start) as u64 {
                    return Err(FormatError::Truncated);
                }
                let end = start + size as usize;
                if self.is_dir() {
                    match self.parse_dirents(slice_subrange(inode_data, start, end)) {
                        Ok(v) => Ok(ContentLocation::Directory(v)),
                        Err(e) => Err(e),
                    }
                } else {
                    Ok(ContentLocation::Inline { start, end })
                }
            },
            _ => Ok(ContentLocation::Unsupported(layout)),
        }
    }
}

} // verus!

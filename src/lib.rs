//! A reader for composefs-style EROFS images: it validates the outer header and the
//! superblock, decodes inodes, their inline xattrs and directory entries, resolves where
//! an inode's content lies, and walks the directory tree from the root.

pub mod bytes;
pub mod dirent;
pub mod error;
pub mod inode;
pub mod layout;
pub mod sb;
pub mod walk;

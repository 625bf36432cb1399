//! Index node: describes a single file's metadata and zone pointers.

use vstd::prelude::*;

use crate::codec::{le_u16, le_u32, read_u16, read_u32};

verus! {

/// Inode mode bits we care about (octal).
pub const MODE_TYPE_MASK: u16 = 0o170000;

pub const MODE_REGULAR: u16 = 0o100000;

pub const MODE_DIRECTORY: u16 = 0o040000;

/// 10 zones: 7 direct, 1 single-indirect, 1 double-indirect, 1
/// triple-indirect.
#[derive(Copy, Clone)]
pub struct Inode {
    pub mode: u16,
    pub nlinks: u16,
    pub uid: u16,
    pub gid: u16,
    pub size: u32,
    pub atime: u32,
    pub mtime: u32,
    pub ctime: u32,
    pub zones: [u32; 10],
}

/// The 64-byte on-disk inode at byte `off` of `b`.
pub open spec fn inode_at(b: Seq<u8>, off: int) -> Inode {
    Inode {
        mode: le_u16(b, off) as u16,
        nlinks: le_u16(b, off + 2) as u16,
        uid: le_u16(b, off + 4) as u16,
        gid: le_u16(b, off + 6) as u16,
        size: le_u32(b, off + 8) as u32,
        atime: le_u32(b, off + 12) as u32,
        mtime: le_u32(b, off + 16) as u32,
        ctime: le_u32(b, off + 20) as u32,
        zones: [
            le_u32(b, off + 24) as u32,
            le_u32(b, off + 28) as u32,
            le_u32(b, off + 32) as u32,
            le_u32(b, off + 36) as u32,
            le_u32(b, off + 40) as u32,
            le_u32(b, off + 44) as u32,
            le_u32(b, off + 48) as u32,
            le_u32(b, off + 52) as u32,
            le_u32(b, off + 56) as u32,
            le_u32(b, off + 60) as u32,
        ],
    }
}

impl Inode {
    pub fn is_dir(&self) -> (r: bool)
        ensures
            r == (self.mode & MODE_TYPE_MASK == MODE_DIRECTORY),
    {
        (self.mode & MODE_TYPE_MASK) == MODE_DIRECTORY
    }

    pub fn is_regular(&self) -> (r: bool)
        ensures
            r == (self.mode & MODE_TYPE_MASK == MODE_REGULAR),
    {
        (self.mode & MODE_TYPE_MASK) == MODE_REGULAR
    }

    /// Decode the on-disk inode at byte `off` of `b`.
    pub fn from_bytes(b: &[u8], off: usize) -> (r: Inode)
        requires
            off + 64 <= b@.len(),
        ensures
            r == inode_at(b@, off as int),
    {
        let _n = b.len();
        Inode {
            mode: read_u16(b, off),
            nlinks: read_u16(b, off + 2),
            uid: read_u16(b, off + 4),
            gid: read_u16(b, off + 6),
            size: read_u32(b, off + 8),
            atime: read_u32(b, off + 12),
            mtime: read_u32(b, off + 16),
            ctime: read_u32(b, off + 20),
            zones: [
                read_u32(b, off + 24),
                read_u32(b, off + 28),
                read_u32(b, off + 32),
                read_u32(b, off + 36),
                read_u32(b, off + 40),
                read_u32(b, off + 44),
                read_u32(b, off + 48),
                read_u32(b, off + 52),
                read_u32(b, off + 56),
                read_u32(b, off + 60),
            ],
        }
    }
}

} // verus!

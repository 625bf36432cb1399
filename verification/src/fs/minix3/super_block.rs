//! The Minix 3 superblock, stored in block 1.

use vstd::prelude::*;

use crate::codec::{le_u16, le_u32, read_u16, read_u32};

verus! {

#[derive(Copy, Clone)]
pub struct SuperBlock {
    pub ninodes: u32,
    pub pad0: u16,
    pub imap_blocks: u16,
    pub zmap_blocks: u16,
    pub first_data_zone: u16,
    pub log_zone_size: u16,
    pub pad1: u16,
    pub max_size: u32,
    pub zones: u32,
    pub magic: u16,
    pub pad2: u16,
    pub block_size: u16,
    pub disk_version: u8,
}

/// The superblock encoded at the start of `b`.
pub open spec fn super_block_at(b: Seq<u8>) -> SuperBlock {
    SuperBlock {
        ninodes: le_u32(b, 0) as u32,
        pad0: le_u16(b, 4) as u16,
        imap_blocks: le_u16(b, 6) as u16,
        zmap_blocks: le_u16(b, 8) as u16,
        first_data_zone: le_u16(b, 10) as u16,
        log_zone_size: le_u16(b, 12) as u16,
        pad1: le_u16(b, 14) as u16,
        max_size: le_u32(b, 16) as u32,
        zones: le_u32(b, 20) as u32,
        magic: le_u16(b, 24) as u16,
        pad2: le_u16(b, 26) as u16,
        block_size: le_u16(b, 28) as u16,
        disk_version: b[30],
    }
}

impl SuperBlock {
    /// Decode the superblock at the start of `b`.
    pub fn from_bytes(b: &[u8]) -> (r: SuperBlock)
        requires
            32 <= b@.len(),
        ensures
            r == super_block_at(b@),
    {
        SuperBlock {
            ninodes: read_u32(b, 0),
            pad0: read_u16(b, 4),
            imap_blocks: read_u16(b, 6),
            zmap_blocks: read_u16(b, 8),
            first_data_zone: read_u16(b, 10),
            log_zone_size: read_u16(b, 12),
            pad1: read_u16(b, 14),
            max_size: read_u32(b, 16),
            zones: read_u32(b, 20),
            magic: read_u16(b, 24),
            pad2: read_u16(b, 26),
            block_size: read_u16(b, 28),
            disk_version: b[30],
        }
    }
}

} // verus!

//! The first-generation paging interface: the byte-per-page allocator
//! and the Sv39 table types, with the PTE flags as an enumeration.

use vstd::prelude::*;

pub use crate::mm::allocator::page_frame::{
    PAGE_ORDER, PAGE_SIZE, PageDesc, allocate, deallocate, init, zallocate,
};
pub use crate::mm::paging::sv39::types::{Entry, Table};

verus! {

/// Combined R|W|X mask: a PTE with any of them set is a leaf.
pub const PTE_RWX_MASK: i64 = 0xe;

/// The Sv39 PTE flag bits, one per variant.
#[derive(Copy, Clone, PartialEq, Eq, Structural, Debug)]
pub enum PteFlags {
    Valid,
    Read,
    Write,
    Execute,
    User,
    Global,
    Accessed,
    Dirty,
}

/// The bit of each flag: bit 0 for `Valid` up to bit 7 for `Dirty`.
pub open spec fn flag_bit(f: PteFlags) -> i64 {
    match f {
        PteFlags::Valid => 1,
        PteFlags::Read => 2,
        PteFlags::Write => 4,
        PteFlags::Execute => 8,
        PteFlags::User => 16,
        PteFlags::Global => 32,
        PteFlags::Accessed => 64,
        PteFlags::Dirty => 128,
    }
}

impl PteFlags {
    pub fn bits(self) -> (r: i64)
        ensures
            r == flag_bit(self),
    {
        match self {
            PteFlags::Valid => 1,
            PteFlags::Read => 2,
            PteFlags::Write => 4,
            PteFlags::Execute => 8,
            PteFlags::User => 16,
            PteFlags::Global => 32,
            PteFlags::Accessed => 64,
            PteFlags::Dirty => 128,
        }
    }
}

} // verus!

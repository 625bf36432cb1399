//! Memory management: the page-frame allocator and Sv39 page tables.

pub mod allocator;
pub mod paging;

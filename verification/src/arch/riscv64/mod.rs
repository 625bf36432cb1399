pub mod paging;
pub mod trap;
pub mod trap_frame;

//! Verified core of a small RISC-V 64 (Sv39) kernel.

pub mod arch;
pub mod boot;
pub mod codec;
pub mod console;
pub mod drivers;
pub mod exec;
pub mod fs;
pub mod linker;
pub mod mm;
pub mod page;
pub mod process;
pub mod uart;

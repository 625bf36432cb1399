//! Cooperative-preemptive kernel-thread scheduler.
//!
//! Each `Process` owns its own stack and TrapFrame and runs in S-mode
//! sharing the kernel's identity-mapped page table: these are kernel
//! threads, not user processes. Context switches are driven by the M-mode
//! timer interrupt: `schedule` picks the next runnable process, and the
//! trap handler resumes it.

pub mod process;
pub mod syscall;
pub mod table;

pub use process::{Process, ProcessState};
pub use syscall::do_syscall;

pub use table::{ProcessTable, SpawnError, schedule, spawn_kernel};

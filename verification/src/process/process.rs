//! Per-process state.

use vstd::prelude::*;

use crate::arch::riscv64::trap_frame::TrapFrame;

verus! {

#[derive(Copy, Clone, PartialEq, Eq, Structural)]
pub enum ProcessState {
    Running,
    Dead,
}

#[derive(Copy, Clone)]
pub struct Process {
    pub frame: TrapFrame,
    /// Address of the process's stack pages.
    pub stack: usize,
    /// Resume PC. Updated on every preemption so the next switch lands
    /// on the instruction after the one we trapped on.
    pub pc: usize,
    pub pid: u16,
    pub state: ProcessState,
}

} // verus!

//! TrapFrame layout shared with the M-mode trap vector.
//!
//! Field order is load-bearing: the trap vector saves and restores
//! registers at fixed byte offsets into this struct.

use vstd::prelude::*;

verus! {

#[derive(Clone, Copy)]
pub struct TrapFrame {
    pub regs: [usize; 32],
    pub fregs: [usize; 32],
    pub satp: usize,
    /// Address one past the top of the trap handler's stack.
    pub trap_stack: usize,
    pub hartid: usize,
}

impl TrapFrame {
    /// A frame with every register, `satp` and the hart id zero and no
    /// trap stack.
    pub fn empty() -> (f: Self)
        ensures
            forall|i: int| 0 <= i < 32 ==> #[trigger] f.regs@[i] == 0,
            forall|i: int| 0 <= i < 32 ==> #[trigger] f.fregs@[i] == 0,
            f.satp == 0,
            f.trap_stack == 0,
            f.hartid == 0,
    {
        Self { regs: [0; 32], fregs: [0; 32], satp: 0, trap_stack: 0, hartid: 0 }
    }
}

} // verus!

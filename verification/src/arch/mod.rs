//! Architecture façade: the rest of the library reaches the RISC-V
//! specifics through here.

pub mod riscv64;

use vstd::prelude::*;

use crate::mm::allocator::page_frame::{Heap, PAGE_SIZE, first_fit, mark_run, zero_pages};
use riscv64::trap::{MIE_MEIE, MIE_MTIE, TIMER_TICK, TRAP_STACK_PAGES};
use riscv64::trap_frame::TrapFrame;

verus! {

/// Pack a level-2 root table address into a Sv39 `satp` value.
pub fn make_satp_sv39(root_table_addr: usize) -> (satp: usize)
    requires
        usize::BITS == 64,
    ensures
        satp == riscv64::paging::satp_sv39(root_table_addr),
{
    riscv64::paging::make_satp_sv39(root_table_addr)
}

/// Install the M-mode trap handler: allocate its stack and point the
/// kernel's trap frame at it (see `riscv64::trap::install`). Call before
/// `enable_interrupts` so the first interrupt finds a valid frame.
pub fn install_trap_handler(heap: &mut Heap, frame: &mut TrapFrame, satp: usize) -> (stack_top: usize)
    requires
        old(heap).wf(),
        first_fit(old(heap).descs(), TRAP_STACK_PAGES as int) is Some,
    ensures
        final(heap).wf(),
        final(heap).same_geometry(old(heap)),
        ({
            let i = first_fit(old(heap).descs(), TRAP_STACK_PAGES as int).unwrap();
            &&& final(heap).descs() == mark_run(old(heap).descs(), i, TRAP_STACK_PAGES as int)
            &&& final(heap).mem() == zero_pages(old(heap).mem(), i, TRAP_STACK_PAGES as int)
            &&& stack_top == old(heap).page_addr(i) + TRAP_STACK_PAGES * PAGE_SIZE
        }),
        final(frame).satp == satp,
        final(frame).trap_stack == stack_top,
        final(frame).hartid == 0,
        final(frame).regs == old(frame).regs,
        final(frame).fregs == old(frame).fregs,
{
    riscv64::trap::install(heap, frame, satp)
}

/// Unmask the machine timer and external interrupts: the first
/// `mtimecmp` deadline and the `mie` mask to write (see
/// `riscv64::trap::enable_interrupts`).
pub fn enable_interrupts(mtime: u64) -> (r: (u64, usize))
    requires
        mtime + TIMER_TICK <= u64::MAX,
    ensures
        r.0 == mtime + TIMER_TICK,
        r.1 == MIE_MEIE + MIE_MTIE,
{
    riscv64::trap::enable_interrupts(mtime)
}

} // verus!

//! Platform-Level Interrupt Controller (PLIC) for the QEMU `virt`
//! machine.
//!
//! All external device interrupts funnel through the PLIC and arrive at
//! the hart as a single Machine External cause. The handler then asks the
//! PLIC which source fired (claim) and acknowledges it (complete). Each
//! function here gives the register written (its address) and the value.

use vstd::prelude::*;

verus! {

pub const PLIC_PRIORITY: usize = 0x0c00_0000;

pub const PLIC_ENABLE_HART0_M: usize = 0x0c00_2000;

pub const PLIC_THRESHOLD_HART0_M: usize = 0x0c20_0000;

/// The same word is the claim register on read and the complete
/// register on write.
pub const PLIC_CLAIM_HART0_M: usize = 0x0c20_0004;

/// Source ID of the NS16550A UART on the QEMU virt machine.
pub const UART0_IRQ: u32 = 10;

/// Allow source `id` to interrupt this context: the enable word with bit
/// `id` set (source 0 is hard-wired to "no interrupt", so the bit
/// position equals the source id).
pub fn enable(prev: u32, id: u32) -> (r: (usize, u32))
    requires
        id < 32,
    ensures
        r.0 == PLIC_ENABLE_HART0_M,
        r.1 == prev | (1u32 << id),
{
    (PLIC_ENABLE_HART0_M, prev | (1u32 << id))
}

/// Set the priority of source `id`. Valid values are 0 to 7; 0 disables
/// the source regardless of its enable bit.
pub fn set_priority(id: u32, prio: u8) -> (r: (usize, u32))
    requires
        usize::BITS == 64,
    ensures
        r.0 == PLIC_PRIORITY + 4 * id,
        r.1 == (prio as u32) & 7,
{
    (PLIC_PRIORITY + 4 * id as usize, (prio as u32) & 7)
}

/// Mask any interrupt whose priority is at most `tsh`. A threshold of 0
/// lets every enabled source through.
pub fn set_threshold(tsh: u8) -> (r: (usize, u32))
    ensures
        r.0 == PLIC_THRESHOLD_HART0_M,
        r.1 == (tsh as u32) & 7,
{
    (PLIC_THRESHOLD_HART0_M, (tsh as u32) & 7)
}

/// The source a claim read names; `None` only on a spurious external
/// trap (the PLIC reports source 0).
pub fn next(claim: u32) -> (r: Option<u32>)
    ensures
        r == if claim == 0 {
            None
        } else {
            Some(claim)
        },
{
    if claim == 0 {
        None
    } else {
        Some(claim)
    }
}

/// Tell the PLIC the given source has been serviced: write its id to the
/// complete register.
pub fn complete(id: u32) -> (r: (usize, u32))
    ensures
        r.0 == PLIC_CLAIM_HART0_M,
        r.1 == id,
{
    (PLIC_CLAIM_HART0_M, id)
}

/// The QEMU `virt` PLIC's registers, for hart 0 in M-mode: source `id`'s
/// priority word at 0x0c00_0000 + 4 id, the enable words at 0x0c00_2000,
/// the threshold at 0x0c20_0000, and the claim/complete word at
/// 0x0c20_0004; priorities and thresholds keep their low 3 bits. The
/// UART is source 10. `e`, `p`, `t` and `c` are what `enable`,
/// `set_priority`, `set_threshold` and `complete` return.
pub proof fn lemma_plic_registers(
    prev: u32,
    id: u32,
    prio: u8,
    tsh: u8,
    e: (usize, u32),
    p: (usize, u32),
    t: (usize, u32),
    c: (usize, u32),
)
    requires
        e.0 == PLIC_ENABLE_HART0_M,
        p.0 == PLIC_PRIORITY + 4 * id,
        p.1 == (prio as u32) & 7,
        t.0 == PLIC_THRESHOLD_HART0_M,
        t.1 == (tsh as u32) & 7,
        c.0 == PLIC_CLAIM_HART0_M,
        c.1 == id,
    ensures
        e.0 == 0x0c00_2000,
        p.0 == 0x0c00_0000 + 4 * id,
        p.1 == (prio as u32) % 8,
        t.0 == 0x0c20_0000,
        t.1 == (tsh as u32) % 8,
        c.0 == 0x0c20_0004 && c.1 == id,
        UART0_IRQ == 10,
{
    let a = prio as u32;
    let b = tsh as u32;
    assert(a & 7 == a % 8 && b & 7 == b % 8) by (bit_vector);
}

} // verus!

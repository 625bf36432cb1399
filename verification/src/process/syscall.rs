//! `ecall` dispatcher.
//!
//! Syscall numbers track libgloss / newlib:
//!
//! * 1  — debug ping (no-op).
//! * 63 — `read(dev, inode, buf, size, offset)`. Synchronous Minix 3
//!   file read; returns the byte count or 0 on failure.
//! * 93 — `exit`. Drops the current process and reschedules
//!   immediately so the trap handler does not return to a freed PC.
//!
//! The trap handler performs what the outcome asks for: it copies the
//! read buffer back to the caller's memory, points `mscratch` at the next
//! process's frame, or parks the hart when nothing is left to run.

use vstd::prelude::*;

use crate::arch::riscv64::trap_frame::TrapFrame;
use crate::fs::minix3::blocks::Disk;
use crate::fs::minix3::fs::{
    Fs, READ_SCRATCH_PAGES, file_read, heap_restored, inode_spec, mount_spec, read_want,
};
use crate::mm::allocator::page_frame::Heap;

use super::table::{ProcessTable, TableView, exit_current, next_slot, saved_slots, schedule};

verus! {

pub const SYS_PING: usize = 1;

pub const SYS_READ: usize = 63;

pub const SYS_EXIT: usize = 93;

/// What the trap handler does after a syscall.
#[derive(Clone, Copy, Debug)]
pub enum SyscallOutcome {
    /// Return to the caller at `pc`.
    Resume(usize),
    /// The number names no syscall; return to the caller at `pc`.
    Unknown { num: usize, pc: usize },
    /// The caller exited (`pid` is the process dropped, if any). Switch to
    /// slot and PC `next`, or park the hart when nothing is left to run.
    Exit { pid: Option<u16>, next: Option<(usize, usize)> },
}

/// The `read` syscall on disk `d`, with `free` pages free for scratch
/// space: the byte count it returns (0 on any failure) and the caller's
/// buffer afterwards. Mounting and the inode lookup each need one page,
/// the file read `READ_SCRATCH_PAGES`; all are given back.
pub open spec fn read_call(d: Seq<u8>, free: nat, num: u32, offset: u32, out: Seq<u8>) -> (
    int,
    Seq<u8>,
) {
    if free == 0 {
        (0, out)
    } else {
        match mount_spec(d) {
            Err(_) => (0, out),
            Ok(sb) => match inode_spec(d, sb, num) {
                Err(_) => (0, out),
                Ok(node) => if offset >= node.size || read_want(node, offset, out.len()) == 0 {
                    (0, out)
                } else if free < READ_SCRATCH_PAGES {
                    (0, out)
                } else {
                    let g = file_read(d, node, offset, out.len());
                    let o = g.0 + out.subrange(g.0.len() as int, out.len() as int);
                    if g.1 {
                        (g.0.len() as int, o)
                    } else {
                        (0, o)
                    }
                },
            },
        }
    }
}

/// The arguments of a `read` syscall in frame registers a1..a5: device,
/// inode, buffer, size, offset.
pub open spec fn read_inode_arg(regs: Seq<usize>) -> u32 {
    regs[12] as u32
}

pub open spec fn read_size_arg(regs: Seq<usize>) -> u32 {
    regs[14] as u32
}

pub open spec fn read_offset_arg(regs: Seq<usize>) -> u32 {
    regs[15] as u32
}

/// The syscall interface, as newlib's numbering fixes it: a0 (register
/// 10) holds the number, 1 for ping, 63 for `read`, 93 for `exit`; `read`
/// takes the inode in a2 (register 12), the buffer size in a4 (register
/// 14) and the file offset in a5 (register 15), each as 32 bits, and
/// returns its count in a0.
pub proof fn lemma_syscall_abi(regs: Seq<usize>)
    ensures
        SYS_PING == 1 && SYS_READ == 63 && SYS_EXIT == 93,
        read_inode_arg(regs) == regs[12] as u32,
        read_size_arg(regs) == regs[14] as u32,
        read_offset_arg(regs) == regs[15] as u32,
{
}

/// Handle a synchronous `ecall` at `epc`: a0 holds the syscall number,
/// a return value goes back in a0. For `read`, `disk` holds the contents
/// of the device named in a1 and `buffer` the `size` bytes of the
/// caller's buffer, which the read fills.
pub fn do_syscall(
    epc: usize,
    frame: &mut TrapFrame,
    table: &mut ProcessTable,
    heap: &mut Heap,
    disk: &Disk,
    buffer: &mut Vec<u8>,
) -> (r: SyscallOutcome)
    requires
        usize::BITS == 64,
        // ecall is always 4 bytes (no compressed form).
        epc + 4 <= usize::MAX,
        old(table)@.wf(),
        old(heap).wf(),
        old(frame).regs@[10] == SYS_READ ==> old(buffer)@.len() == read_size_arg(old(frame).regs@),
    ensures
        final(table)@.wf(),
        old(frame).regs@[10] == SYS_READ ==> heap_restored(*old(heap), *final(heap)),
        old(frame).regs@[10] != SYS_READ ==> *final(heap) == *old(heap),
        ({
            let num = old(frame).regs@[10];
            if num == SYS_PING {
                &&& r == SyscallOutcome::Resume((epc + 4) as usize)
                &&& *final(frame) == *old(frame)
                &&& final(table)@ == old(table)@
                &&& final(buffer)@ == old(buffer)@
            } else if num == SYS_READ {
                &&& r == SyscallOutcome::Resume((epc + 4) as usize)
                &&& final(table)@ == old(table)@
                &&& ({
                    let rc = read_call(
                        disk@,
                        old(heap).free_pages(),
                        read_inode_arg(old(frame).regs@),
                        read_offset_arg(old(frame).regs@),
                        old(buffer)@,
                    );
                    &&& final(frame).regs@ == old(frame).regs@.update(10, rc.0 as usize)
                    &&& final(buffer)@ == rc.1
                })
                // At most `size` bytes are reported, in a buffer of `size`.
                &&& final(frame).regs@[10] <= read_size_arg(old(frame).regs@)
                &&& final(buffer)@.len() == old(buffer)@.len()
                &&& final(frame).fregs == old(frame).fregs
                &&& final(frame).satp == old(frame).satp
                &&& final(frame).trap_stack == old(frame).trap_stack
                &&& final(frame).hartid == old(frame).hartid
            } else if num == SYS_EXIT {
                &&& *final(frame) == *old(frame)
                &&& final(buffer)@ == old(buffer)@
                &&& exit_then_schedule(old(table)@, final(table)@, epc, r)
            } else {
                &&& r == SyscallOutcome::Unknown { num, pc: (epc + 4) as usize }
                &&& *final(frame) == *old(frame)
                &&& final(table)@ == old(table)@
                &&& final(buffer)@ == old(buffer)@
            }
        }),
{
    let num = frame.regs[10];
    if num == SYS_PING {
        SyscallOutcome::Resume(epc + 4)
    } else if num == SYS_READ {
        // a1=dev, a2=inode, a3=buffer, a4=size, a5=offset
        let count = sys_read(heap, disk, frame.regs[11], frame.regs[12] as u32, frame.regs[15] as u32, buffer);
        frame.regs[10] = count;
        SyscallOutcome::Resume(epc + 4)
    } else if num == SYS_EXIT {
        // Drop the current process and pull the next one in immediately,
        // otherwise the trap vector would resume at the orphaned PC.
        sys_exit(table, epc)
    } else {
        SyscallOutcome::Unknown { num, pc: epc + 4 }
    }
}

/// The `read` syscall: read file `inode` of the Minix 3 filesystem on
/// device `dev` (contents `disk`) from `offset` into `buffer`. Returns the
/// byte count, or 0 when mounting, the inode lookup or the read fails.
#[verifier::spinoff_prover]
fn sys_read(
    heap: &mut Heap,
    disk: &Disk,
    dev: usize,
    inode: u32,
    offset: u32,
    buffer: &mut Vec<u8>,
) -> (count: usize)
    requires
        usize::BITS == 64,
        old(heap).wf(),
    ensures
        ({
            let rc = read_call(disk@, old(heap).free_pages(), inode, offset, old(buffer)@);
            &&& count == rc.0
            &&& final(buffer)@ == rc.1
        }),
        count <= old(buffer)@.len(),
        final(buffer)@.len() == old(buffer)@.len(),
        heap_restored(*old(heap), *final(heap)),
{
    // The buffer's length fits a `usize`, and so does any count of it.
    let _len = buffer.len();
    match Fs::mount(dev, heap, disk) {
        Ok(fs) => match fs.read_inode(heap, disk, inode) {
            Ok(node) => match fs.read_file(heap, disk, &node, offset, buffer) {
                Ok(n) => n,
                Err(_) => 0,
            },
            Err(_) => 0,
        },
        Err(_) => 0,
    }
}

/// The `exit` syscall: drop the current process, then schedule the next.
fn sys_exit(table: &mut ProcessTable, epc: usize) -> (r: SyscallOutcome)
    requires
        old(table)@.wf(),
    ensures
        final(table)@.wf(),
        exit_then_schedule(old(table)@, final(table)@, epc, r),
{
    let ghost t0 = table@;
    let pid = exit_current(table);
    let ghost mid = table@;
    let next = schedule(table, epc);
    let r = SyscallOutcome::Exit { pid, next };
    assert(exit_effect(t0, mid, pid));
    r
}

/// `after` and `r` are what `exit` leaves: the current process dropped
/// (as `exit_current` does), then the next one scheduled.
pub open spec fn exit_then_schedule(t: TableView, after: TableView, epc: usize, r: SyscallOutcome) -> bool {
    exists|mid: TableView, pid: Option<u16>|
        {
            &&& mid.wf()
            &&& mid.next_pid == t.next_pid
            &&& exit_effect(t, mid, pid)
            &&& after.slots == saved_slots(mid, epc)
            &&& after.next_pid == t.next_pid
            &&& match next_slot(mid, epc) {
                None => r == SyscallOutcome::Exit { pid, next: None } && after.current is None,
                Some(i) => {
                    &&& r == SyscallOutcome::Exit {
                        pid,
                        next: Some((i as usize, after.slots[i]->0.pc)),
                    }
                    &&& after.current == Some(i as usize)
                },
            }
        }
}

/// `mid` and `pid` are what `exit_current` leaves of `t`.
pub open spec fn exit_effect(t: TableView, mid: TableView, pid: Option<u16>) -> bool {
    match t.current {
        Some(i) => match t.slots[i as int] {
            Some(p) => {
                &&& pid == Some(p.pid)
                &&& mid.slots == t.slots.update(i as int, None)
                &&& mid.current is None
            },
            None => pid is None && mid == t,
        },
        None => pid is None && mid == t,
    }
}

} // verus!

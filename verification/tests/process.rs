use vesper::arch::riscv64::trap_frame::TrapFrame;
use vesper::fs::minix3::blocks::Disk;
use vesper::mm::allocator::page_frame::{PAGE_SIZE, init};
use vesper::process::syscall::SyscallOutcome;
use vesper::process::table::exit_current;
use vesper::process::{ProcessState, ProcessTable, SpawnError, do_syscall, schedule, spawn_kernel};

const TRAP_TOP: usize = 0x8100_0000;

fn table_with(n: usize) -> (ProcessTable, Vec<u16>) {
    let mut heap = init(0x8000_0000, 64 * PAGE_SIZE);
    let mut t = ProcessTable::new();
    let pids = (0..n)
        .map(|i| spawn_kernel(&mut t, &mut heap, 0x8000_0000 + 0x100 * i, TRAP_TOP).unwrap())
        .collect();
    (t, pids)
}

#[test]
fn spawn_builds_a_running_process() {
    let mut heap = init(0x8000_0000, 16 * PAGE_SIZE);
    let mut t = ProcessTable::new();
    let pid = spawn_kernel(&mut t, &mut heap, 0x8000_4242, TRAP_TOP).unwrap();
    assert_eq!(pid, 1);
    let p = t.slots[0].unwrap();
    assert_eq!(p.pid, 1);
    assert_eq!(p.pc, 0x8000_4242);
    assert!(p.state == ProcessState::Running);
    assert_eq!(p.stack, 0x8000_1000);
    // The stack grows down from the top of its two pages.
    assert_eq!(p.frame.regs[2], 0x8000_1000 + 2 * PAGE_SIZE);
    assert_eq!(p.frame.trap_stack, TRAP_TOP);
    assert_eq!(p.frame.hartid, 0);
    assert_eq!(t.next_pid, 2);
    assert!(t.current.is_none());
}

#[test]
fn pids_increase_and_slots_fill_in_order() {
    let (t, pids) = table_with(3);
    assert_eq!(pids, vec![1, 2, 3]);
    assert_eq!(t.slots[2].unwrap().pid, 3);
    assert!(t.slots[3].is_none());
}

#[test]
fn spawn_fails_without_memory_or_free_slots() {
    let mut heap = init(0x8000_0000, PAGE_SIZE);
    let mut t = ProcessTable::new();
    assert!(matches!(spawn_kernel(&mut t, &mut heap, 0, TRAP_TOP), Err(SpawnError::OutOfMemory)));
    assert_eq!(t.next_pid, 1);
    let (mut full, _) = table_with(16);
    let mut heap = init(0x8000_0000, 8 * PAGE_SIZE);
    assert!(matches!(spawn_kernel(&mut full, &mut heap, 0, TRAP_TOP), Err(SpawnError::TableFull)));
    // The PID was still used up.
    assert_eq!(full.next_pid, 18);
}

#[test]
fn schedule_is_round_robin() {
    let (mut t, _) = table_with(3);
    assert_eq!(schedule(&mut t, 0x999), Some((0, 0x8000_0000)));
    assert_eq!(t.current, Some(0));
    assert_eq!(schedule(&mut t, 0x1234), Some((1, 0x8000_0100)));
    // The preempted process resumes where it was stopped.
    assert_eq!(t.slots[0].unwrap().pc, 0x1234);
    assert_eq!(schedule(&mut t, 0x2000), Some((2, 0x8000_0200)));
    assert_eq!(schedule(&mut t, 0x3000), Some((0, 0x1234)));
    assert_eq!(t.slots[2].unwrap().pc, 0x3000);
}

#[test]
fn schedule_with_nothing_to_run() {
    let mut t = ProcessTable::new();
    assert_eq!(schedule(&mut t, 0x10), None);
    assert!(t.current.is_none());
}

#[test]
fn exit_frees_the_slot_and_skips_it() {
    let (mut t, _) = table_with(2);
    assert_eq!(exit_current(&mut t), None);
    schedule(&mut t, 0);
    assert_eq!(exit_current(&mut t), Some(1));
    assert!(t.slots[0].is_none());
    assert!(t.current.is_none());
    assert_eq!(schedule(&mut t, 0), Some((1, 0x8000_0100)));
    assert_eq!(schedule(&mut t, 0x44), Some((1, 0x44)));
}

fn frame_with(num: usize) -> TrapFrame {
    let mut f = TrapFrame::empty();
    f.regs[10] = num;
    f
}

#[test]
fn ping_and_unknown_syscalls_step_past_the_ecall() {
    let (mut t, _) = table_with(1);
    let disk = Disk::new(Vec::new());
    let mut buf = Vec::new();
    let mut f = frame_with(1);
    assert!(matches!(do_syscall(0x100, &mut f, &mut t, &mut init(0x8000_0000, 16 * PAGE_SIZE), &disk, &mut buf), SyscallOutcome::Resume(0x104)));
    assert_eq!(f.regs[10], 1);
    let mut f = frame_with(42);
    assert!(matches!(
        do_syscall(0x100, &mut f, &mut t, &mut init(0x8000_0000, 16 * PAGE_SIZE), &disk, &mut buf),
        SyscallOutcome::Unknown { num: 42, pc: 0x104 }
    ));
}

#[test]
fn exit_syscall_switches_to_the_next_process() {
    let (mut t, _) = table_with(2);
    schedule(&mut t, 0);
    let disk = Disk::new(Vec::new());
    let mut buf = Vec::new();
    let mut f = frame_with(93);
    let r = do_syscall(0x500, &mut f, &mut t, &mut init(0x8000_0000, 16 * PAGE_SIZE), &disk, &mut buf);
    assert!(matches!(r, SyscallOutcome::Exit { pid: Some(1), next: Some((1, 0x8000_0100)) }));
    let mut f = frame_with(93);
    let r = do_syscall(0x600, &mut f, &mut t, &mut init(0x8000_0000, 16 * PAGE_SIZE), &disk, &mut buf);
    assert!(matches!(r, SyscallOutcome::Exit { pid: Some(2), next: None }));
}

fn put16(b: &mut [u8], off: usize, v: u16) {
    b[off..off + 2].copy_from_slice(&v.to_le_bytes());
}

fn put32(b: &mut [u8], off: usize, v: u32) {
    b[off..off + 4].copy_from_slice(&v.to_le_bytes());
}

#[test]
fn read_syscall_returns_the_byte_count() {
    let mut d = vec![0u8; 16 * 1024];
    put32(&mut d, 1024, 16);
    put16(&mut d, 1024 + 6, 1);
    put16(&mut d, 1024 + 8, 1);
    put16(&mut d, 1024 + 24, 0x4d5a);
    let ino = 4 * 1024 + 64;
    put16(&mut d, ino, 0o100644);
    put32(&mut d, ino + 8, 10);
    put32(&mut d, ino + 24, 10);
    d[10 * 1024..10 * 1024 + 10].copy_from_slice(b"0123456789");
    let disk = Disk::new(d);
    let (mut t, _) = table_with(0);
    let mut f = frame_with(63);
    f.regs[12] = 2; // inode
    f.regs[14] = 8; // size
    f.regs[15] = 4; // offset
    let mut buf = vec![b'.'; 8];
    let r = do_syscall(0x100, &mut f, &mut t, &mut init(0x8000_0000, 16 * PAGE_SIZE), &disk, &mut buf);
    assert!(matches!(r, SyscallOutcome::Resume(0x104)));
    assert_eq!(f.regs[10], 6);
    assert_eq!(&buf, b"456789..");
    // A missing inode reads nothing.
    let mut f = frame_with(63);
    f.regs[12] = 99;
    f.regs[14] = 8;
    let mut buf = vec![b'.'; 8];
    do_syscall(0x100, &mut f, &mut t, &mut init(0x8000_0000, 16 * PAGE_SIZE), &disk, &mut buf);
    assert_eq!(f.regs[10], 0);
    assert_eq!(&buf, b"........");
}

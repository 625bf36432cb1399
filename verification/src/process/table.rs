//! Process table, PID allocator, and the round-robin scheduler.

use vstd::prelude::*;

use crate::arch::riscv64::trap_frame::TrapFrame;
use crate::mm::allocator::page_frame::{Heap, PAGE_SIZE, first_fit, mark_run, zallocate, zero_pages};

use super::process::{Process, ProcessState};

verus! {

/// Per-process kernel stack size. 8 KiB is plenty for the toy
/// workloads here.
pub const STACK_PAGES: usize = 2;

/// Hard cap on concurrent processes.
pub const MAX_PROCESSES: usize = 16;

/// The process slots, the slot of the running process, and the next PID
/// to hand out. PIDs are handed out monotonically (wrapping at `u16`);
/// 0 is reserved as "no process".
pub struct ProcessTable {
    pub slots: Vec<Option<Process>>,
    /// Index of the currently-running process in `slots`, if any.
    pub current: Option<usize>,
    pub next_pid: u16,
}

/// The table as plain values.
pub struct TableView {
    pub slots: Seq<Option<Process>>,
    pub current: Option<usize>,
    pub next_pid: u16,
}

impl View for ProcessTable {
    type V = TableView;

    open spec fn view(&self) -> TableView {
        TableView { slots: self.slots@, current: self.current, next_pid: self.next_pid }
    }
}

impl TableView {
    pub open spec fn wf(self) -> bool {
        &&& self.slots.len() == MAX_PROCESSES
        &&& self.current matches Some(i) ==> i < MAX_PROCESSES
    }
}

#[derive(Debug, Clone, Copy, PartialEq, Eq, Structural)]
pub enum SpawnError {
    /// All `MAX_PROCESSES` slots are occupied.
    TableFull,
    /// The page-frame allocator couldn't satisfy the stack request.
    OutOfMemory,
}

/// A slot holding a process that can be scheduled.
pub open spec fn runnable(s: Option<Process>) -> bool {
    s matches Some(p) && p.state == ProcessState::Running
}

/// The first empty slot at or after `i`.
pub open spec fn free_slot_from(slots: Seq<Option<Process>>, i: int) -> Option<int>
    decreases slots.len() - i,
{
    if i < 0 || i >= slots.len() {
        None
    } else if slots[i] is None {
        Some(i)
    } else {
        free_slot_from(slots, i + 1)
    }
}

/// The first empty slot.
pub open spec fn free_slot(slots: Seq<Option<Process>>) -> Option<int> {
    free_slot_from(slots, 0)
}

/// `p` is the process that `spawn_kernel` builds: stack pointer at
/// `stack_top`, every other register zero, the shared trap stack, hart 0.
pub open spec fn fresh_process(
    p: Process,
    stack: int,
    entry: usize,
    trap_stack_top: usize,
    pid: u16,
) -> bool {
    &&& p.stack == stack
    &&& p.pc == entry
    &&& p.pid == pid
    &&& p.state == ProcessState::Running
    &&& p.frame.regs@[2] == stack + STACK_PAGES * PAGE_SIZE
    &&& forall|i: int| 0 <= i < 32 && i != 2 ==> #[trigger] p.frame.regs@[i] == 0
    &&& forall|i: int| 0 <= i < 32 ==> #[trigger] p.frame.fregs@[i] == 0
    &&& p.frame.satp == 0
    &&& p.frame.trap_stack == trap_stack_top
    &&& p.frame.hartid == 0
}

/// The PID after `pid`, wrapping as a 16-bit counter does.
pub open spec fn next_pid_after(pid: u16) -> u16 {
    if pid == u16::MAX {
        0
    } else {
        (pid + 1) as u16
    }
}

impl ProcessTable {
    /// An empty table; the first PID handed out is 1.
    pub fn new() -> (t: Self)
        ensures
            t@.wf(),
            forall|i: int| 0 <= i < MAX_PROCESSES ==> #[trigger] t@.slots[i] is None,
            t@.current is None,
            t@.next_pid == 1,
    {
        let mut slots: Vec<Option<Process>> = Vec::new();
        let mut i: usize = 0;
        while i < MAX_PROCESSES
            invariant
                i <= MAX_PROCESSES,
                slots@.len() == i,
                forall|k: int| 0 <= k < i ==> #[trigger] slots@[k] is None,
            decreases MAX_PROCESSES - i,
        {
            slots.push(None);
            i = i + 1;
        }
        ProcessTable { slots, current: None, next_pid: 1 }
    }
}

/// A slot found from `i` is an empty slot at or after `i`.
pub proof fn lemma_free_slot_from(slots: Seq<Option<Process>>, i: int)
    ensures
        free_slot_from(slots, i) matches Some(k) ==> i <= k < slots.len() && slots[k] is None,
    decreases slots.len() - i,
{
    if 0 <= i < slots.len() && slots[i] is Some {
        lemma_free_slot_from(slots, i + 1);
    }
}

/// Find the first empty slot.
fn find_free_slot(slots: &Vec<Option<Process>>) -> (r: Option<usize>)
    ensures
        match free_slot(slots@) {
            None => r is None,
            Some(k) => r matches Some(j) && j == k,
        },
        r matches Some(k) ==> k < slots@.len(),
{
    proof {
        lemma_free_slot_from(slots@, 0);
    }
    let mut k: usize = 0;
    while k < slots.len()
        invariant
            k <= slots@.len(),
            free_slot(slots@) == free_slot_from(slots@, k as int),
        decreases slots@.len() - k,
    {
        if slots[k].is_none() {
            return Some(k);
        }
        k = k + 1;
    }
    None
}

/// Spawn a new kernel thread that begins executing at `entry` on a
/// freshly-allocated, zeroed stack of `STACK_PAGES` pages; every process
/// traps onto the shared M-mode stack ending at `trap_stack_top`. Returns
/// the assigned PID.
///
/// The stack is allocated and the PID taken before the table is searched,
/// so a full table keeps both.
pub fn spawn_kernel(
    table: &mut ProcessTable,
    heap: &mut Heap,
    entry: usize,
    trap_stack_top: usize,
) -> (r: Result<u16, SpawnError>)
    requires
        old(table)@.wf(),
        old(heap).wf(),
    ensures
        final(table)@.wf(),
        final(heap).wf(),
        final(heap).same_geometry(old(heap)),
        final(table)@.current == old(table)@.current,
        match first_fit(old(heap).descs(), STACK_PAGES as int) {
            None => {
                &&& r == Err::<u16, SpawnError>(SpawnError::OutOfMemory)
                &&& final(heap).descs() == old(heap).descs()
                &&& final(heap).mem() == old(heap).mem()
                &&& final(table)@ == old(table)@
            },
            Some(i) => {
                &&& final(heap).descs() == mark_run(old(heap).descs(), i, STACK_PAGES as int)
                &&& final(heap).mem() == zero_pages(old(heap).mem(), i, STACK_PAGES as int)
                &&& final(table)@.next_pid == next_pid_after(old(table)@.next_pid)
                &&& match free_slot(old(table)@.slots) {
                    None => {
                        &&& r == Err::<u16, SpawnError>(SpawnError::TableFull)
                        &&& final(table)@.slots == old(table)@.slots
                    },
                    Some(k) => {
                        &&& r == Ok::<u16, SpawnError>(old(table)@.next_pid)
                        &&& final(table)@.slots.len() == MAX_PROCESSES
                        &&& forall|j: int|
                            0 <= j < MAX_PROCESSES && j != k ==> #[trigger] final(table)@.slots[j]
                                == old(table)@.slots[j]
                        &&& final(table)@.slots[k] matches Some(p) && fresh_process(
                            p,
                            old(heap).page_addr(i),
                            entry,
                            trap_stack_top,
                            old(table)@.next_pid,
                        )
                    },
                }
            },
        },
{
    let ghost h0 = *heap;
    let stack = match zallocate(heap, STACK_PAGES) {
        Some(p) => p,
        None => return Err(SpawnError::OutOfMemory),
    };
    proof {
        let i = first_fit(h0.descs(), STACK_PAGES as int).unwrap();
        crate::mm::allocator::page_frame::lemma_first_fit_window(h0.descs(), 2, 0);
        assert(h0.page_addr(i) + 2 * 4096 <= h0.start() + h0.npages() * 4096) by (nonlinear_arith)
            requires
                i + 2 <= h0.npages(),
                h0.page_addr(i) == h0.start() + i * 4096,
        ;
    }
    // Stack grows down, so sp starts past the top of the allocation.
    let stack_top = stack + STACK_PAGES * PAGE_SIZE;
    let mut frame = TrapFrame::empty();
    frame.regs[2] = stack_top;
    frame.trap_stack = trap_stack_top;
    frame.hartid = 0;
    let pid = table.next_pid;
    table.next_pid = table.next_pid.wrapping_add(1);
    let p = Process { frame, stack, pc: entry, pid, state: ProcessState::Running };
    match find_free_slot(&table.slots) {
        Some(k) => {
            table.slots.set(k, Some(p));
            Ok(pid)
        },
        None => Err(SpawnError::TableFull),
    }
}

/// `p` with its resume PC set to `pc`.
pub open spec fn with_pc(p: Process, pc: usize) -> Process {
    Process { frame: p.frame, stack: p.stack, pc, pid: p.pid, state: p.state }
}

/// The slots after the running process's resume PC is saved as `epc`.
pub open spec fn saved_slots(t: TableView, epc: usize) -> Seq<Option<Process>> {
    match t.current {
        Some(i) => if runnable(t.slots[i as int]) {
            t.slots.update(i as int, Some(with_pc(t.slots[i as int]->0, epc)))
        } else {
            t.slots
        },
        None => t.slots,
    }
}

/// Where the round-robin search starts: the slot after the current one.
pub open spec fn search_start(t: TableView) -> int {
    match t.current {
        Some(i) => (i + 1) % (MAX_PROCESSES as int),
        None => 0,
    }
}

/// The first offset `o >= k` such that slot `(start + o) mod 16` is
/// runnable.
pub open spec fn runnable_from(slots: Seq<Option<Process>>, start: int, k: int) -> Option<int>
    decreases MAX_PROCESSES - k,
{
    if k < 0 || k >= MAX_PROCESSES {
        None
    } else if runnable(slots[(start + k) % (MAX_PROCESSES as int)]) {
        Some(k)
    } else {
        runnable_from(slots, start, k + 1)
    }
}

/// The slot that `schedule` picks next in table `t`.
pub open spec fn next_slot(t: TableView, epc: usize) -> Option<int> {
    match runnable_from(saved_slots(t, epc), search_start(t), 0) {
        Some(o) => Some((search_start(t) + o) % (MAX_PROCESSES as int)),
        None => None,
    }
}

/// Round-robin pick of the next runnable process.
///
/// `epc` is stashed as the resume PC for whichever process was last
/// running so it picks back up exactly where it was preempted. Returns
/// the chosen slot and its resume PC, or `None` if no process can run,
/// in which case the caller resumes whatever was on the CPU before.
pub fn schedule(table: &mut ProcessTable, epc: usize) -> (r: Option<(usize, usize)>)
    requires
        old(table)@.wf(),
    ensures
        final(table)@.wf(),
        final(table)@.slots == saved_slots(old(table)@, epc),
        final(table)@.next_pid == old(table)@.next_pid,
        match next_slot(old(table)@, epc) {
            None => r is None && final(table)@.current is None,
            Some(i) => {
                &&& r == Some((i as usize, final(table)@.slots[i]->0.pc))
                &&& final(table)@.current == Some(i as usize)
            },
        },
{
    let ghost t0 = table@;
    if let Some(idx) = table.current {
        let running = match &table.slots[idx] {
            Some(p) => p.state == ProcessState::Running,
            None => false,
        };
        if running {
            let mut p = table.slots[idx].unwrap();
            p.pc = epc;
            table.slots.set(idx, Some(p));
        }
    }
    proof {
        assert(table.slots@ =~= saved_slots(t0, epc));
    }
    let n = MAX_PROCESSES;
    let start = match table.current {
        Some(i) => (i + 1) % n,
        None => 0,
    };
    let mut offset: usize = 0;
    while offset < n
        invariant
            n == MAX_PROCESSES,
            offset <= n,
            t0 == old(table)@,
            start == search_start(t0),
            table.slots@ == saved_slots(t0, epc),
            table.slots@.len() == MAX_PROCESSES,
            table.next_pid == t0.next_pid,
            runnable_from(table.slots@, start as int, 0) == runnable_from(
                table.slots@,
                start as int,
                offset as int,
            ),
        decreases n - offset,
    {
        let i = (start + offset) % n;
        let run = match &table.slots[i] {
            Some(p) => p.state == ProcessState::Running,
            None => false,
        };
        if run {
            table.current = Some(i);
            let pc = table.slots[i].unwrap().pc;
            return Some((i, pc));
        }
        offset = offset + 1;
    }
    table.current = None;
    None
}

/// Drop the current process: free its slot and clear `current`. Returns
/// its PID, or `None` (leaving the table as it was) when there is no
/// current process or its slot is already empty.
pub fn exit_current(table: &mut ProcessTable) -> (r: Option<u16>)
    requires
        old(table)@.wf(),
    ensures
        final(table)@.wf(),
        final(table)@.next_pid == old(table)@.next_pid,
        match old(table)@.current {
            Some(i) => match old(table)@.slots[i as int] {
                Some(p) => {
                    &&& r == Some(p.pid)
                    &&& final(table)@.slots == old(table)@.slots.update(i as int, None)
                    &&& final(table)@.current is None
                },
                None => r is None && final(table)@ == old(table)@,
            },
            None => r is None && final(table)@ == old(table)@,
        },
{
    let idx = match table.current {
        Some(i) => i,
        None => return None,
    };
    let pid = match &table.slots[idx] {
        Some(p) => p.pid,
        None => return None,
    };
    table.slots.set(idx, None);
    table.current = None;
    Some(pid)
}

/// What the round-robin search finds from offset `k`: the first runnable
/// slot, every slot before it not runnable.
pub proof fn lemma_runnable_from(slots: Seq<Option<Process>>, start: int, k: int)
    requires
        0 <= k,
    ensures
        match runnable_from(slots, start, k) {
            Some(o) => {
                &&& k <= o < MAX_PROCESSES
                &&& runnable(slots[(start + o) % (MAX_PROCESSES as int)])
                &&& forall|o2: int|
                    k <= o2 < o ==> !runnable(#[trigger] slots[(start + o2) % (MAX_PROCESSES as int)])
            },
            None => forall|o2: int|
                k <= o2 < MAX_PROCESSES ==> !runnable(
                    #[trigger] slots[(start + o2) % (MAX_PROCESSES as int)],
                ),
        },
    decreases MAX_PROCESSES - k,
{
    if k < MAX_PROCESSES && !runnable(slots[(start + k) % (MAX_PROCESSES as int)]) {
        lemma_runnable_from(slots, start, k + 1);
    }
}

/// Saving the resume PC changes no slot's runnability.
pub proof fn lemma_saved_slots(t: TableView, epc: usize)
    requires
        t.wf(),
    ensures
        saved_slots(t, epc).len() == MAX_PROCESSES,
        forall|i: int|
            0 <= i < MAX_PROCESSES ==> runnable(#[trigger] saved_slots(t, epc)[i]) == runnable(
                t.slots[i],
            ),
{
}

/// The scheduler hands out a running process whenever one exists, and
/// only then: `schedule` returns a slot exactly when some slot holds a
/// running process, and the slot it returns holds one.
pub proof fn lemma_schedule_finds_runnable(t: TableView, epc: usize)
    requires
        t.wf(),
    ensures
        next_slot(t, epc) is Some <==> exists|i: int|
            0 <= i < MAX_PROCESSES && runnable(#[trigger] t.slots[i]),
        next_slot(t, epc) matches Some(i) ==> 0 <= i < MAX_PROCESSES && runnable(t.slots[i]),
{
    let s = saved_slots(t, epc);
    let st = search_start(t);
    lemma_saved_slots(t, epc);
    lemma_runnable_from(s, st, 0);
    assert(0 <= st < 16);
    match runnable_from(s, st, 0) {
        Some(o) => {
            let i = (st + o) % 16;
            assert(runnable(s[i]));
            assert(runnable(t.slots[i]));
        },
        None => {
            assert forall|i: int| 0 <= i < MAX_PROCESSES implies !runnable(#[trigger] t.slots[i]) by {
                let o = if i >= st { i - st } else { i + 16 - st };
                assert((st + o) % 16 == i);
                assert(!runnable(s[(st + o) % 16]));
            }
        },
    }
}

/// Round robin: while another process can run, the one that was running
/// is not picked again.
pub proof fn lemma_schedule_rotates(t: TableView, epc: usize, j: int)
    requires
        t.wf(),
        t.current matches Some(c) && runnable(t.slots[c as int]) && j != c,
        0 <= j < MAX_PROCESSES,
        runnable(t.slots[j]),
    ensures
        next_slot(t, epc) is Some,
        next_slot(t, epc) != Some(t.current->0 as int),
{
    let s = saved_slots(t, epc);
    let c = t.current->0 as int;
    let st = search_start(t);
    lemma_saved_slots(t, epc);
    lemma_runnable_from(s, st, 0);
    assert(st == (c + 1) % 16);
    let oj = if j >= st { j - st } else { j + 16 - st };
    assert((st + oj) % 16 == j);
    assert(oj < 15);
    assert(runnable(s[(st + oj) % 16]));
    let o = runnable_from(s, st, 0)->0;
    assert(o <= oj);
    assert((st + o) % 16 != c);
}

/// A process that has exited is not scheduled: after `exit_current`
/// frees the running slot, `schedule` never picks it.
pub proof fn lemma_exited_not_scheduled(t: TableView, after: TableView, epc: usize)
    requires
        t.wf(),
        t.current matches Some(c) && t.slots[c as int] is Some,
        after.slots == t.slots.update(t.current->0 as int, None),
        after.current is None,
        after.next_pid == t.next_pid,
    ensures
        next_slot(after, epc) != Some(t.current->0 as int),
{
    lemma_schedule_finds_runnable(after, epc);
}

/// Round robin: the scheduler picks the first running process after the
/// current one, going up the table and wrapping around after the last
/// slot (the current one itself last), or the lowest running slot when
/// nothing was running. Every slot it passes over holds no running
/// process.
pub proof fn lemma_schedule_round_robin(t: TableView, epc: usize, i: int)
    requires
        t.wf(),
        next_slot(t, epc) == Some(i),
    ensures
        0 <= i < 16,
        runnable(t.slots[i]),
        t.current matches Some(c) ==> {
            let gap = if i > c {
                i - c
            } else {
                i + 16 - c
            };
            forall|o: int| 1 <= o < gap ==> !runnable(#[trigger] t.slots[(c + o) % 16])
        },
        t.current is None ==> forall|k: int| 0 <= k < i ==> !runnable(#[trigger] t.slots[k]),
{
    let s = saved_slots(t, epc);
    let st = search_start(t);
    lemma_saved_slots(t, epc);
    lemma_runnable_from(s, st, 0);
    let found = runnable_from(s, st, 0)->0;
    assert(i == (st + found) % 16);
    assert(runnable(s[i]));
    match t.current {
        Some(c) => {
            let c = c as int;
            assert(st == (c + 1) % 16);
            let gap = if i > c {
                i - c
            } else {
                i + 16 - c
            };
            assert(gap == found + 1);
            assert forall|o: int| 1 <= o < gap implies !runnable(#[trigger] t.slots[(c + o) % 16]) by {
                assert((st + (o - 1)) % 16 == (c + o) % 16);
                assert(!runnable(s[(st + (o - 1)) % 16]));
            }
        },
        None => {
            assert forall|k: int| 0 <= k < i implies !runnable(#[trigger] t.slots[k]) by {
                assert((st + k) % 16 == k);
                assert(!runnable(s[(st + k) % 16]));
            }
        },
    }
}

} // verus!

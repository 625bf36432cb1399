//! M-mode trap decisions.
//!
//! Traps are kept in machine mode even though the kernel runs in S-mode:
//! M-mode access bypasses paging, so the handler can touch the TrapFrame,
//! trap stack, UART, CLINT, and PLIC by physical address. The handler's
//! CSR and MMIO accesses are performed by its caller; this module decides
//! what each trap means and what comes next.

use vstd::prelude::*;

use crate::arch::riscv64::trap_frame::TrapFrame;
use crate::drivers::plic::UART0_IRQ;
use crate::mm::allocator::page_frame::{Heap, PAGE_SIZE, first_fit, mark_run, zallocate, zero_pages};

verus! {

/// 16 KiB stack for the trap handler, generous enough for nested
/// formatting.
pub const TRAP_STACK_PAGES: usize = 4;

/// Machine timer interrupt enable.
pub const MIE_MTIE: usize = 128;

/// Machine external (PLIC) interrupt enable.
pub const MIE_MEIE: usize = 2048;

/// QEMU's virt machine drives `mtime` at 10 MHz, so this many ticks
/// equals one wall-clock second.
pub const TIMER_TICK: u64 = 10_000_000;

/// Where the next timer interrupt is scheduled, one tick after `mtime`.
pub fn next_timer_deadline(mtime: u64) -> (r: u64)
    requires
        mtime + TIMER_TICK <= u64::MAX,
    ensures
        r == mtime + TIMER_TICK,
{
    mtime + TIMER_TICK
}

/// What enabling interrupts writes: the first `mtimecmp` (one tick after
/// `mtime`, so the handler does not fire on the reset value of zero) and
/// the `mie` mask (machine timer and external interrupts).
pub fn enable_interrupts(mtime: u64) -> (r: (u64, usize))
    requires
        mtime + TIMER_TICK <= u64::MAX,
    ensures
        r.0 == mtime + TIMER_TICK,
        r.1 == MIE_MEIE + MIE_MTIE,
{
    let mie = MIE_MEIE | MIE_MTIE;
    assert(2048usize | 128usize == 2176usize) by (bit_vector);
    (next_timer_deadline(mtime), mie)
}

/// Allocate the trap stack and point `frame` at it: the stack grows
/// down, so the frame records one byte past its high end. Returns that
/// address. The trap vector is then reached through `mscratch`/`mtvec`.
pub fn install(heap: &mut Heap, frame: &mut TrapFrame, satp: usize) -> (stack_top: usize)
    requires
        old(heap).wf(),
        // The kernel stops when it cannot allocate the trap stack.
        first_fit(old(heap).descs(), TRAP_STACK_PAGES as int) is Some,
    ensures
        final(heap).wf(),
        final(heap).same_geometry(old(heap)),
        ({
            let i = first_fit(old(heap).descs(), TRAP_STACK_PAGES as int).unwrap();
            &&& final(heap).descs() == mark_run(old(heap).descs(), i, TRAP_STACK_PAGES as int)
            &&& final(heap).mem() == zero_pages(old(heap).mem(), i, TRAP_STACK_PAGES as int)
            &&& stack_top == old(heap).page_addr(i) + TRAP_STACK_PAGES * PAGE_SIZE
        }),
        final(frame).satp == satp,
        final(frame).trap_stack == stack_top,
        final(frame).hartid == 0,
        final(frame).regs == old(frame).regs,
        final(frame).fregs == old(frame).fregs,
{
    let ghost h0 = *heap;
    let trap_stack = match zallocate(heap, TRAP_STACK_PAGES) {
        Some(p) => p,
        None => {
            assert(false);
            return 0;
        },
    };
    proof {
        let i = first_fit(h0.descs(), TRAP_STACK_PAGES as int).unwrap();
        crate::mm::allocator::page_frame::lemma_first_fit_window(h0.descs(), 4, 0);
        assert(h0.page_addr(i) + 4 * 4096 <= h0.start() + h0.npages() * 4096) by (nonlinear_arith)
            requires
                i + 4 <= h0.npages(),
                h0.page_addr(i) == h0.start() + i * 4096,
        ;
    }
    // Stack grows down, so sp starts one byte past the high end.
    let stack_top = trap_stack + TRAP_STACK_PAGES * PAGE_SIZE;
    frame.satp = satp;
    frame.trap_stack = stack_top;
    frame.hartid = 0;
    stack_top
}

/// A trap the kernel cannot go on from: the handler stops on it.
#[derive(Clone, Copy, PartialEq, Eq, Structural)]
pub enum FatalTrap {
    /// An interrupt cause the kernel does not handle.
    UnhandledAsync,
    /// Illegal instruction.
    IllegalInstruction,
    /// `ecall` from M-mode: nothing in this kernel executes `ecall` while
    /// in M-mode.
    EcallMachine,
    /// An exception cause the kernel does not handle.
    UnhandledSync,
}

/// What the trap handler does with a trap it handles.
#[derive(Clone, Copy, PartialEq, Eq, Structural)]
pub enum TrapAction {
    /// Report a machine software interrupt.
    SoftwareInterrupt,
    /// Rearm the timer one tick ahead (no message: it fires every second).
    TimerTick,
    /// Claim and service an external interrupt from the PLIC.
    External,
    /// `ecall` from U-mode: report it and step past it.
    EcallUser,
    /// `ecall` from S-mode: report it and step past it.
    EcallSupervisor,
    /// Page faults: report them and step past the faulting instruction.
    InstructionPageFault,
    LoadPageFault,
    StorePageFault,
}

/// The handler's decision: what to do, and where execution resumes.
#[derive(Clone, Copy)]
pub struct TrapDecision {
    pub action: TrapAction,
    pub is_async: bool,
    pub cause_num: usize,
    pub return_pc: usize,
}

/// The MSB of `mcause` distinguishes interrupts from exceptions.
pub open spec fn cause_is_async(cause: usize) -> bool {
    (cause >> 63usize) & 1 == 1
}

/// The low 12 bits of `mcause` give the cause number.
pub open spec fn cause_number(cause: usize) -> usize {
    cause & 0xfff
}

/// Why the kernel stops on a trap, or `None` when it handles the trap:
/// interrupts 3, 7 and 11 and exceptions 8, 9, 12, 13 and 15.
pub open spec fn trap_fatal(cause: usize) -> Option<FatalTrap> {
    let n = cause_number(cause);
    if cause_is_async(cause) {
        if n == 3 || n == 7 || n == 11 {
            None
        } else {
            Some(FatalTrap::UnhandledAsync)
        }
    } else {
        if n == 2 {
            Some(FatalTrap::IllegalInstruction)
        } else if n == 11 {
            Some(FatalTrap::EcallMachine)
        } else if n == 8 || n == 9 || n == 12 || n == 13 || n == 15 {
            None
        } else {
            Some(FatalTrap::UnhandledSync)
        }
    }
}

/// What the handler does with a trap it handles.
pub open spec fn trap_action(cause: usize) -> TrapAction
    recommends
        trap_fatal(cause) is None,
{
    let n = cause_number(cause);
    if cause_is_async(cause) {
        if n == 3 {
            TrapAction::SoftwareInterrupt
        } else if n == 7 {
            TrapAction::TimerTick
        } else {
            TrapAction::External
        }
    } else {
        if n == 8 {
            TrapAction::EcallUser
        } else if n == 9 {
            TrapAction::EcallSupervisor
        } else if n == 12 {
            TrapAction::InstructionPageFault
        } else if n == 13 {
            TrapAction::LoadPageFault
        } else {
            TrapAction::StorePageFault
        }
    }
}

/// The handler steps past the instruction that trapped: every handled
/// exception does, no interrupt does.
pub open spec fn skips_instruction(cause: usize) -> bool {
    !cause_is_async(cause)
}

/// Whether the kernel stops on a trap with cause `cause`, and why. The
/// trap entry asks this first and stops on `Some`.
pub fn fatal_trap(cause: usize) -> (r: Option<FatalTrap>)
    requires
        usize::BITS == 64,
    ensures
        r == trap_fatal(cause),
{
    let is_async = (cause >> 63) & 1 == 1;
    let cause_num = cause & 0xfff;
    if is_async {
        match cause_num {
            3 | 7 | 11 => None,
            _ => Some(FatalTrap::UnhandledAsync),
        }
    } else {
        match cause_num {
            2 => Some(FatalTrap::IllegalInstruction),
            11 => Some(FatalTrap::EcallMachine),
            8 | 9 | 12 | 13 | 15 => None,
            _ => Some(FatalTrap::UnhandledSync),
        }
    }
}

/// Decide what to do with a handled trap at `epc` with cause `cause`.
pub fn m_trap(epc: usize, cause: usize) -> (d: TrapDecision)
    requires
        usize::BITS == 64,
        trap_fatal(cause) is None,
        skips_instruction(cause) ==> epc + 4 <= usize::MAX,
    ensures
        d.action == trap_action(cause),
        d.is_async == cause_is_async(cause),
        d.cause_num == cause_number(cause),
        d.return_pc == if skips_instruction(cause) {
            epc + 4
        } else {
            epc as int
        },
{
    let is_async = (cause >> 63) & 1 == 1;
    let cause_num = cause & 0xfff;
    let mut return_pc = epc;
    let action = if is_async {
        match cause_num {
            3 => TrapAction::SoftwareInterrupt,
            7 => TrapAction::TimerTick,
            _ => TrapAction::External,
        }
    } else {
        // Skip past the ecall or faulting instruction so we don't
        // immediately re-trap.
        return_pc = return_pc + 4;
        match cause_num {
            8 => TrapAction::EcallUser,
            9 => TrapAction::EcallSupervisor,
            12 => TrapAction::InstructionPageFault,
            13 => TrapAction::LoadPageFault,
            _ => TrapAction::StorePageFault,
        }
    };
    TrapDecision { action, is_async, cause_num, return_pc }
}

/// What the trap handler does with each cause, read off `mcause`'s bits:
/// bit 63 set marks an interrupt, the low 12 bits the cause number.
/// Exceptions 8 (`ecall` from U-mode), 9 (from S-mode), 12, 13 and 15
/// (instruction, load and store page faults) are handled and resume past
/// the trapping instruction; interrupts 3 (software), 7 (timer) and 11
/// (external) are handled and resume where they struck; exception 2
/// (illegal instruction), exception 11 (`ecall` from M-mode) and every
/// other cause stop the kernel. `d` is a decision `m_trap` can return.
pub proof fn lemma_trap_decisions(epc: usize, cause: usize, d: TrapDecision)
    requires
        usize::BITS == 64,
        trap_fatal(cause) is None ==> {
            &&& d.action == trap_action(cause)
            &&& d.return_pc == if skips_instruction(cause) {
                epc + 4
            } else {
                epc as int
            }
        },
    ensures
        ({
            let sync = (cause >> 63usize) & 1 == 0;
            let n = cause & 0xfff;
            &&& sync && n == 8 ==> trap_fatal(cause) is None && d.action == TrapAction::EcallUser
                && d.return_pc == epc + 4
            &&& sync && n == 9 ==> trap_fatal(cause) is None && d.action
                == TrapAction::EcallSupervisor && d.return_pc == epc + 4
            &&& sync && n == 12 ==> trap_fatal(cause) is None && d.action
                == TrapAction::InstructionPageFault && d.return_pc == epc + 4
            &&& sync && n == 13 ==> trap_fatal(cause) is None && d.action
                == TrapAction::LoadPageFault && d.return_pc == epc + 4
            &&& sync && n == 15 ==> trap_fatal(cause) is None && d.action
                == TrapAction::StorePageFault && d.return_pc == epc + 4
            &&& !sync && n == 3 ==> trap_fatal(cause) is None && d.action
                == TrapAction::SoftwareInterrupt && d.return_pc == epc
            &&& !sync && n == 7 ==> trap_fatal(cause) is None && d.action == TrapAction::TimerTick
                && d.return_pc == epc
            &&& !sync && n == 11 ==> trap_fatal(cause) is None && d.action == TrapAction::External
                && d.return_pc == epc
            &&& sync && n == 2 ==> trap_fatal(cause) == Some(FatalTrap::IllegalInstruction)
            &&& sync && n == 11 ==> trap_fatal(cause) == Some(FatalTrap::EcallMachine)
            &&& sync && n != 2 && n != 8 && n != 9 && n != 11 && n != 12 && n != 13 && n != 15
                ==> trap_fatal(cause) == Some(FatalTrap::UnhandledSync)
            &&& !sync && n != 3 && n != 7 && n != 11 ==> trap_fatal(cause) == Some(
                FatalTrap::UnhandledAsync,
            )
        }),
{
    assert(((cause >> 63usize) & 1 == 0) || ((cause >> 63usize) & 1 == 1)) by (bit_vector);
}

/// What to do with a Machine External Interrupt, given the source the
/// PLIC claim returned.
#[derive(Clone, Copy, PartialEq, Eq, Structural)]
pub enum ExternalAction {
    /// Source 0: a spurious interrupt; nothing was claimed, so nothing
    /// is completed.
    Spurious,
    /// The UART: echo its input, then complete the source.
    EchoUart,
    /// Another source: report it, then complete the source.
    Other(u32),
}

/// Dispatch a Machine External Interrupt by the claimed source.
pub fn handle_external(claimed: Option<u32>) -> (a: ExternalAction)
    ensures
        a == match claimed {
            None => ExternalAction::Spurious,
            Some(id) => if id == UART0_IRQ {
                ExternalAction::EchoUart
            } else {
                ExternalAction::Other(id)
            },
        },
{
    match claimed {
        None => ExternalAction::Spurious,
        Some(id) => if id == UART0_IRQ {
            ExternalAction::EchoUart
        } else {
            ExternalAction::Other(id)
        },
    }
}

/// Where the console is in an ANSI CSI sequence (`ESC [ X`): the bytes
/// arrive one per interrupt.
#[derive(Clone, Copy, PartialEq, Eq, Structural)]
pub enum EscState {
    Idle,
    EscSeen,
    CsiOpen,
}

/// What the console echoes for one received byte.
#[derive(Clone, Copy, PartialEq, Eq, Structural)]
pub enum Echo {
    /// Nothing.
    Nothing,
    /// Erase the previous character: backspace, space, backspace.
    Erase,
    /// A line break.
    NewLine,
    /// The byte itself, as a character.
    Char(u8),
    UpArrow,
    DownArrow,
    RightArrow,
    LeftArrow,
}

pub open spec fn echo_spec(state: EscState, c: u8) -> (EscState, Echo) {
    match state {
        EscState::Idle => if c == 0x08 || c == 0x7f {
            (EscState::Idle, Echo::Erase)
        } else if c == 13 || c == 10 {
            (EscState::Idle, Echo::NewLine)
        } else if c == 0x1b {
            // Start of a CSI sequence: swallow until it resolves.
            (EscState::EscSeen, Echo::Nothing)
        } else {
            (EscState::Idle, Echo::Char(c))
        },
        EscState::EscSeen => if c == 0x5b {
            (EscState::CsiOpen, Echo::Nothing)
        } else {
            // Not a CSI sequence: drop the bare ESC.
            (EscState::Idle, Echo::Nothing)
        },
        EscState::CsiOpen => (
            EscState::Idle,
            if c == 0x41 {
                Echo::UpArrow
            } else if c == 0x42 {
                Echo::DownArrow
            } else if c == 0x43 {
                Echo::RightArrow
            } else if c == 0x44 {
                Echo::LeftArrow
            } else {
                Echo::Nothing
            },
        ),
    }
}

/// The console echo, by the bytes a terminal sends: backspace (0x08) and
/// DEL (0x7f) erase a character, CR and LF start a new line, any other
/// byte but ESC is echoed as itself; ESC `[` `A`/`B`/`C`/`D` (the arrow
/// keys) reports up/down/right/left and returns to the idle state; ESC
/// followed by anything but `[`, or ESC `[` followed by anything else,
/// echoes nothing and returns to the idle state. Nothing is echoed while
/// a sequence is open.
pub proof fn lemma_echo_sequences(c: u8)
    ensures
        c == 0x08 || c == 0x7f ==> echo_spec(EscState::Idle, c) == (EscState::Idle, Echo::Erase),
        c == 13 || c == 10 ==> echo_spec(EscState::Idle, c) == (EscState::Idle, Echo::NewLine),
        c != 0x08 && c != 0x7f && c != 13 && c != 10 && c != 0x1b ==> echo_spec(EscState::Idle, c)
            == (EscState::Idle, Echo::Char(c)),
        ({
            let (s1, e1) = echo_spec(EscState::Idle, 0x1b);
            let (s2, e2) = echo_spec(s1, 0x5b);
            &&& e1 == Echo::Nothing && e2 == Echo::Nothing
            &&& echo_spec(s2, 0x41) == (EscState::Idle, Echo::UpArrow)
            &&& echo_spec(s2, 0x42) == (EscState::Idle, Echo::DownArrow)
            &&& echo_spec(s2, 0x43) == (EscState::Idle, Echo::RightArrow)
            &&& echo_spec(s2, 0x44) == (EscState::Idle, Echo::LeftArrow)
            &&& c < 0x41 || c > 0x44 ==> echo_spec(s2, c) == (EscState::Idle, Echo::Nothing)
            &&& c != 0x5b ==> echo_spec(s1, c) == (EscState::Idle, Echo::Nothing)
        }),
{
}

/// One step of the console echo: the next escape state and what to echo
/// for the byte `c` received from the UART.
pub fn echo_uart(state: EscState, c: u8) -> (r: (EscState, Echo))
    ensures
        r == echo_spec(state, c),
{
    match state {
        EscState::Idle => {
            if c == 0x08 || c == 0x7f {
                (EscState::Idle, Echo::Erase)
            } else if c == 13 || c == 10 {
                (EscState::Idle, Echo::NewLine)
            } else if c == 0x1b {
                (EscState::EscSeen, Echo::Nothing)
            } else {
                (EscState::Idle, Echo::Char(c))
            }
        },
        EscState::EscSeen => {
            if c == 0x5b {
                (EscState::CsiOpen, Echo::Nothing)
            } else {
                (EscState::Idle, Echo::Nothing)
            }
        },
        EscState::CsiOpen => {
            let e = if c == 0x41 {
                Echo::UpArrow
            } else if c == 0x42 {
                Echo::DownArrow
            } else if c == 0x43 {
                Echo::RightArrow
            } else if c == 0x44 {
                Echo::LeftArrow
            } else {
                Echo::Nothing
            };
            (EscState::Idle, e)
        },
    }
}

} // verus!

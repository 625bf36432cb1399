use vesper::arch::riscv64::trap::{
    Echo, EscState, ExternalAction, FatalTrap, MIE_MEIE, MIE_MTIE, TrapAction, echo_uart,
    enable_interrupts, fatal_trap, handle_external, install, m_trap, next_timer_deadline,
};
use vesper::arch::riscv64::trap_frame::TrapFrame;
use vesper::arch::{install_trap_handler, make_satp_sv39};
use vesper::mm::allocator::page_frame::{PAGE_SIZE, init};

const ASYNC: usize = 1 << 63;

#[test]
fn timer_interrupt_rearms_and_resumes_in_place() {
    let d = m_trap(0x8000_1000, ASYNC | 7);
    assert!(d.action == TrapAction::TimerTick);
    assert!(d.is_async);
    assert_eq!(d.cause_num, 7);
    assert_eq!(d.return_pc, 0x8000_1000);
}

#[test]
fn ecalls_and_page_faults_step_past_the_instruction() {
    assert!(m_trap(0x100, 8).action == TrapAction::EcallUser);
    assert_eq!(m_trap(0x100, 8).return_pc, 0x104);
    assert_eq!(m_trap(0x100, 9).return_pc, 0x104);
    assert!(m_trap(0x100, 12).action == TrapAction::InstructionPageFault);
    assert!(m_trap(0x100, 13).action == TrapAction::LoadPageFault);
    assert_eq!(m_trap(0x100, 15).return_pc, 0x104);
}

#[test]
fn fatal_traps() {
    assert!(fatal_trap(2) == Some(FatalTrap::IllegalInstruction));
    assert!(fatal_trap(11) == Some(FatalTrap::EcallMachine));
    assert!(fatal_trap(5) == Some(FatalTrap::UnhandledSync));
    assert!(fatal_trap(ASYNC | 5) == Some(FatalTrap::UnhandledAsync));
    for c in [8usize, 9, 12, 13, 15, ASYNC | 3, ASYNC | 7, ASYNC | 11] {
        assert!(fatal_trap(c).is_none());
    }
    assert!(m_trap(0x100, ASYNC | 3).action == TrapAction::SoftwareInterrupt);
    assert_eq!(m_trap(0x100, ASYNC | 3).return_pc, 0x100);
    assert!(m_trap(0x100, ASYNC | 11).action == TrapAction::External);
}

#[test]
fn external_interrupt_dispatch() {
    assert!(handle_external(None) == ExternalAction::Spurious);
    assert!(handle_external(Some(10)) == ExternalAction::EchoUart);
    assert!(handle_external(Some(3)) == ExternalAction::Other(3));
}

#[test]
fn echo_plain_and_control_characters() {
    assert!(echo_uart(EscState::Idle, b'a') == (EscState::Idle, Echo::Char(b'a')));
    assert!(echo_uart(EscState::Idle, 0x7f) == (EscState::Idle, Echo::Erase));
    assert!(echo_uart(EscState::Idle, 0x08) == (EscState::Idle, Echo::Erase));
    assert!(echo_uart(EscState::Idle, b'\r') == (EscState::Idle, Echo::NewLine));
}

#[test]
fn echo_arrow_key_sequence() {
    let (s, e) = echo_uart(EscState::Idle, 0x1b);
    assert!(s == EscState::EscSeen && e == Echo::Nothing);
    let (s, e) = echo_uart(s, b'[');
    assert!(s == EscState::CsiOpen && e == Echo::Nothing);
    let (s, e) = echo_uart(s, b'A');
    assert!(s == EscState::Idle && e == Echo::UpArrow);
    assert!(echo_uart(EscState::CsiOpen, b'D').1 == Echo::LeftArrow);
    assert!(echo_uart(EscState::CsiOpen, b'Z') == (EscState::Idle, Echo::Nothing));
    assert!(echo_uart(EscState::EscSeen, b'x') == (EscState::Idle, Echo::Nothing));
}

#[test]
fn timer_deadline_and_interrupt_mask() {
    assert_eq!(next_timer_deadline(5), 10_000_005);
    let (deadline, mie) = enable_interrupts(100);
    assert_eq!(deadline, 10_000_100);
    assert_eq!(mie, MIE_MEIE | MIE_MTIE);
    assert_eq!(mie, 0x880);
    assert_eq!(vesper::arch::enable_interrupts(100), (10_000_100, 0x880));
}

#[test]
fn trap_stack_is_four_zeroed_pages() {
    let mut heap = init(0x8000_0000, 16 * PAGE_SIZE);
    let mut frame = TrapFrame::empty();
    frame.regs[5] = 9;
    let top = install(&mut heap, &mut frame, 0x55);
    assert_eq!(top, 0x8000_1000 + 4 * PAGE_SIZE);
    assert_eq!(frame.trap_stack, top);
    assert_eq!(frame.satp, 0x55);
    assert_eq!(frame.hartid, 0);
    assert_eq!(frame.regs[5], 9);
    let top2 = install_trap_handler(&mut heap, &mut frame, 0x66);
    assert_eq!(top2, top + 4 * PAGE_SIZE);
    assert_eq!(frame.satp, 0x66);
}

#[test]
fn satp_packs_mode_and_root_ppn() {
    // MODE = 8 (Sv39) in bits 60..63, PPN = root >> 12.
    assert_eq!(make_satp_sv39(0x8000_1000), (8usize << 60) | 0x80001);
}

#[test]
fn empty_frame_is_zero() {
    let f = TrapFrame::empty();
    assert!(f.regs.iter().all(|r| *r == 0));
    assert!(f.fregs.iter().all(|r| *r == 0));
    assert_eq!((f.satp, f.trap_stack, f.hartid), (0, 0, 0));
}

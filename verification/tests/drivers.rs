use vesper::console::writer::console_writer;
use vesper::drivers::plic::{
    PLIC_CLAIM_HART0_M, PLIC_ENABLE_HART0_M, PLIC_PRIORITY, PLIC_THRESHOLD_HART0_M, UART0_IRQ,
    complete, enable, next, set_priority, set_threshold,
};
use vesper::drivers::uart::{FCR, IER, LCR, UART_BASE, Uart};

#[test]
fn plic_enable_sets_the_source_bit() {
    assert_eq!(enable(0, UART0_IRQ), (PLIC_ENABLE_HART0_M, 1 << 10));
    assert_eq!(enable(0b10, 3), (PLIC_ENABLE_HART0_M, 0b1010));
}

#[test]
fn plic_priority_and_threshold_keep_three_bits() {
    assert_eq!(set_priority(10, 1), (PLIC_PRIORITY + 40, 1));
    assert_eq!(set_priority(2, 9), (PLIC_PRIORITY + 8, 1));
    assert_eq!(set_threshold(0), (PLIC_THRESHOLD_HART0_M, 0));
    assert_eq!(set_threshold(15), (PLIC_THRESHOLD_HART0_M, 7));
}

#[test]
fn plic_claim_and_complete() {
    assert_eq!(next(0), None);
    assert_eq!(next(10), Some(10));
    assert_eq!(complete(10), (PLIC_CLAIM_HART0_M, 10));
}

#[test]
fn uart_init_writes_8n1_fifo_and_rx_interrupt() {
    let u = Uart::new(UART_BASE);
    assert_eq!(u.base(), 0x1000_0000);
    assert_eq!(u.init(), [(LCR, 3), (FCR, 1), (IER, 1)]);
}

#[test]
fn uart_receive_and_transmit_readiness() {
    assert_eq!(Uart::get(0, b'x'), None);
    assert_eq!(Uart::get(1, b'x'), Some(b'x'));
    assert!(Uart::can_put(0x20));
    assert!(!Uart::can_put(0x01));
    assert!(Uart::has_data(0x61));
    assert!(!Uart::has_data(0x60));
}

#[test]
fn console_writes_to_the_uart() {
    assert_eq!(console_writer().base(), UART_BASE);
    assert_eq!(vesper::uart::Uart::new(vesper::uart::UART_BASE).base(), 0x1000_0000);
}

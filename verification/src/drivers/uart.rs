//! NS16550A UART on the QEMU `virt` machine.
//!
//! Register offsets (8-bit, with `DLAB = 0`): 0 RBR/THR, 1 IER, 2 IIR/FCR,
//! 3 LCR, 4 MCR, 5 LSR.

use vstd::prelude::*;

verus! {

/// MMIO base of the NS16550A on the QEMU `virt` machine.
pub const UART_BASE: usize = 0x1000_0000;

pub const RBR_THR: usize = 0;

pub const IER: usize = 1;

pub const FCR: usize = 2;

pub const LCR: usize = 3;

pub const LSR: usize = 5;

pub const LSR_DATA_READY: u8 = 1;

pub const LSR_THR_EMPTY: u8 = 32;

pub const LCR_8BITS: u8 = 3;

pub const FCR_ENABLE: u8 = 1;

pub const IER_RX_ENABLE: u8 = 1;

/// Handle to a 16550-compatible UART. Holds only the MMIO base, so
/// constructing one for each message is essentially free.
pub struct Uart {
    base: usize,
}

impl Uart {
    pub closed spec fn spec_base(&self) -> usize {
        self.base
    }

    pub fn new(base: usize) -> (u: Self)
        ensures
            u.spec_base() == base,
    {
        Self { base }
    }

    /// The MMIO base address.
    pub fn base(&self) -> (r: usize)
        ensures
            r == self.spec_base(),
    {
        self.base
    }

    /// The register writes that configure the UART: 8N1, FIFO on, RX
    /// interrupt enabled, as (register offset, value) in order.
    pub fn init(&self) -> (r: [(usize, u8); 3])
        ensures
            r@[0] == (LCR, LCR_8BITS),
            r@[1] == (FCR, FCR_ENABLE),
            r@[2] == (IER, IER_RX_ENABLE),
    {
        [(LCR, LCR_8BITS), (FCR, FCR_ENABLE), (IER, IER_RX_ENABLE)]
    }

    /// Whether the line status `lsr` lets a byte be transmitted.
    pub fn can_put(lsr: u8) -> (r: bool)
        ensures
            r == (lsr & LSR_THR_EMPTY != 0),
    {
        lsr & LSR_THR_EMPTY != 0
    }

    /// Whether the line status `lsr` reports a received byte: the receive
    /// register is read only then.
    pub fn has_data(lsr: u8) -> (r: bool)
        ensures
            r == (lsr & LSR_DATA_READY != 0),
    {
        lsr & LSR_DATA_READY != 0
    }

    /// Non-blocking receive: with line status `lsr` and receive register
    /// `rbr`, the byte received, or `None` when the RX FIFO is empty.
    pub fn get(lsr: u8, rbr: u8) -> (r: Option<u8>)
        ensures
            r == if lsr & LSR_DATA_READY == 0 {
                None
            } else {
                Some(rbr)
            },
    {
        if lsr & LSR_DATA_READY == 0 {
            None
        } else {
            Some(rbr)
        }
    }
}

/// The 16550's registers as the console programs and reads them, at
/// offsets from the base 0x1000_0000: line control (offset 3) set to 3
/// (8 data bits), FIFO control (offset 2) to 1 (enabled), interrupt
/// enable (offset 1) to 1 (receive interrupt), in that order; a byte is
/// received when line status (offset 5) bit 0 is set and read from
/// offset 0; it can be sent when line status bit 5 is set.
pub proof fn lemma_uart_registers(r: [(usize, u8); 3])
    requires
        r@[0] == (LCR, LCR_8BITS),
        r@[1] == (FCR, FCR_ENABLE),
        r@[2] == (IER, IER_RX_ENABLE),
    ensures
        r@[0] == (3usize, 3u8),
        r@[1] == (2usize, 1u8),
        r@[2] == (1usize, 1u8),
        UART_BASE == 0x1000_0000,
        LSR == 5 && RBR_THR == 0,
        LSR_DATA_READY == 1 && LSR_THR_EMPTY == 32,
{
}

} // verus!

use vstd::prelude::*;

use crate::drivers::uart::{UART_BASE, Uart};

verus! {

/// A fresh UART handle for one console write. The handle is just the
/// MMIO base, so this is essentially free and needs no global state.
pub fn console_writer() -> (u: Uart)
    ensures
        u.spec_base() == UART_BASE,
{
    Uart::new(UART_BASE)
}

} // verus!

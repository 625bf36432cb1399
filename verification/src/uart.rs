//! The NS16550A UART, reached from the crate root as well.

pub use crate::drivers::uart::{UART_BASE, Uart};

//! The kernel console: the UART that `print!` writes to.

pub mod writer;

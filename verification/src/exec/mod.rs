//! Executable loading.
//!
//! Currently the only supported format is statically-linked RISC-V
//! ELF64.

pub mod elf;

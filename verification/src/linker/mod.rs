//! The kernel image's layout, as the linker script places it.
//!
//! Linker symbols don't have a value the way ordinary statics do: the
//! address of the symbol *is* the value. The boot code takes those
//! addresses once and hands them over as a `KernelLayout`.

use vstd::prelude::*;

verus! {

/// Addresses of the linker-defined section boundaries.
#[derive(Copy, Clone, Debug)]
pub struct KernelLayout {
    pub text_start: usize,
    pub text_end: usize,
    pub rodata_start: usize,
    pub rodata_end: usize,
    pub data_start: usize,
    pub data_end: usize,
    pub bss_start: usize,
    pub bss_end: usize,
    pub stack_start: usize,
    pub stack_end: usize,
    pub heap_start: usize,
    pub heap_size: usize,
    pub memory_end: usize,
}

impl KernelLayout {
    pub fn text_start(&self) -> (r: usize)
        ensures
            r == self.text_start,
    {
        self.text_start
    }

    pub fn text_end(&self) -> (r: usize)
        ensures
            r == self.text_end,
    {
        self.text_end
    }

    pub fn rodata_start(&self) -> (r: usize)
        ensures
            r == self.rodata_start,
    {
        self.rodata_start
    }

    pub fn rodata_end(&self) -> (r: usize)
        ensures
            r == self.rodata_end,
    {
        self.rodata_end
    }

    pub fn data_start(&self) -> (r: usize)
        ensures
            r == self.data_start,
    {
        self.data_start
    }

    pub fn data_end(&self) -> (r: usize)
        ensures
            r == self.data_end,
    {
        self.data_end
    }

    pub fn bss_start(&self) -> (r: usize)
        ensures
            r == self.bss_start,
    {
        self.bss_start
    }

    pub fn bss_end(&self) -> (r: usize)
        ensures
            r == self.bss_end,
    {
        self.bss_end
    }

    pub fn stack_start(&self) -> (r: usize)
        ensures
            r == self.stack_start,
    {
        self.stack_start
    }

    pub fn stack_end(&self) -> (r: usize)
        ensures
            r == self.stack_end,
    {
        self.stack_end
    }

    pub fn heap_start(&self) -> (r: usize)
        ensures
            r == self.heap_start,
    {
        self.heap_start
    }

    pub fn heap_size(&self) -> (r: usize)
        ensures
            r == self.heap_size,
    {
        self.heap_size
    }

    pub fn memory_end(&self) -> (r: usize)
        ensures
            r == self.memory_end,
    {
        self.memory_end
    }
}

} // verus!

//! Block I/O for the filesystem: the disk contents a read sees, and a
//! page-aligned scratch buffer from the page-frame allocator.

use vstd::prelude::*;

use crate::mm::allocator::page_frame::{
    Heap, allocate, clear_run, deallocate, first_fit, mark_run, run_end_from,
};

verus! {

/// What a block read of `size` bytes at byte `offset` returns: the block
/// driver addresses whole 512-byte sectors, so the read starts at the
/// sector holding `offset`. `None` when it runs past the end of the disk.
pub open spec fn disk_read(d: Seq<u8>, offset: u64, size: u32) -> Option<Seq<u8>> {
    let start = (offset / 512) as int * 512;
    if start + size <= d.len() {
        Some(d.subrange(start, start + size))
    } else {
        None
    }
}

/// The contents of a block device, as the filesystem reads them.
pub struct Disk {
    bytes: Vec<u8>,
}

impl View for Disk {
    type V = Seq<u8>;

    closed spec fn view(&self) -> Seq<u8> {
        self.bytes@
    }
}

impl Disk {
    pub fn new(bytes: Vec<u8>) -> (r: Disk)
        ensures
            r@ == bytes@,
    {
        Disk { bytes }
    }

    /// Read `size` bytes at byte `offset` (from the start of its sector).
    pub fn read(&self, offset: u64, size: u32) -> (r: Option<Vec<u8>>)
        ensures
            match disk_read(self@, offset, size) {
                None => r is None,
                Some(s) => r is Some && r.unwrap()@ == s,
            },
    {
        let sector = offset / 512;
        let len = self.bytes.len();
        if sector > (len / 512) as u64 {
            return None;
        }
        let start = (sector * 512) as usize;
        if start > len || (size as usize) > len - start {
            return None;
        }
        let mut out: Vec<u8> = Vec::new();
        let mut i: usize = 0;
        while i < size as usize
            invariant
                start + size <= len,
                len == self.bytes@.len(),
                i <= size,
                out@ == self.bytes@.subrange(start as int, start + i),
            decreases size - i,
        {
            out.push(self.bytes[start + i]);
            i = i + 1;
            proof {
                assert(out@ =~= self.bytes@.subrange(start as int, start + i));
            }
        }
        Some(out)
    }
}

/// Page count a buffer of `bytes` bytes takes: whole pages, at least one.
pub open spec fn buffer_pages(bytes: usize) -> int {
    let p = bytes as int / 4096 + if bytes as int % 4096 != 0 {
        1int
    } else {
        0int
    };
    if p < 1 {
        1
    } else {
        p
    }
}

/// Page-aligned scratch space held from the page-frame allocator.
pub struct Buffer {
    ptr: usize,
    pages: usize,
}

impl Buffer {
    pub closed spec fn addr(&self) -> int {
        self.ptr as int
    }

    pub closed spec fn page_count(&self) -> int {
        self.pages as int
    }

    /// Allocate at least `bytes` of page-aligned scratch. Rounds up to
    /// whole pages because the underlying allocator is page-granular.
    pub fn new(heap: &mut Heap, bytes: usize) -> (r: Option<Buffer>)
        requires
            old(heap).wf(),
        ensures
            final(heap).wf(),
            final(heap).same_geometry(old(heap)),
            final(heap).mem() == old(heap).mem(),
            match first_fit(old(heap).descs(), buffer_pages(bytes)) {
                None => r is None && final(heap).descs() == old(heap).descs(),
                Some(i) => {
                    &&& r is Some
                    &&& r.unwrap().addr() == old(heap).page_addr(i)
                    &&& r.unwrap().page_count() == buffer_pages(bytes)
                    &&& final(heap).descs() == mark_run(old(heap).descs(), i, buffer_pages(bytes))
                },
            },
    {
        let mut pages = bytes / 4096;
        if bytes % 4096 != 0 {
            pages = pages + 1;
        }
        if pages < 1 {
            pages = 1;
        }
        assert(pages == buffer_pages(bytes));
        let ghost h0 = *heap;
        match allocate(heap, pages) {
            Some(ptr) => {
                proof {
                    let i = first_fit(h0.descs(), pages as int).unwrap();
                    crate::mm::allocator::page_frame::lemma_first_fit_window(h0.descs(), pages as int, 0);
                    assert(h0.page_addr(i) <= usize::MAX) by (nonlinear_arith)
                        requires
                            0 <= i < h0.npages(),
                            h0.start() + h0.npages() * 4096 <= usize::MAX,
                            h0.page_addr(i) == h0.start() + i * 4096,
                    ;
                }
                Some(Buffer { ptr, pages })
            },
            None => None,
        }
    }

    pub fn as_ptr(&self) -> (r: usize)
        ensures
            r == self.addr(),
    {
        self.ptr
    }

    pub fn as_mut_ptr(&self) -> (r: usize)
        ensures
            r == self.addr(),
    {
        self.ptr
    }

    /// Give the pages back. `self.ptr` came from `allocate(self.pages)`
    /// and has not been freed elsewhere, as the run must still be held.
    pub fn release(self, heap: &mut Heap)
        requires
            old(heap).wf(),
            old(heap).start() <= self.addr() < old(heap).heap_begin() + old(heap).heap_len(),
            run_end_from(old(heap).descs(), (self.addr() - old(heap).start()) / 4096) is Some,
        ensures
            final(heap).wf(),
            final(heap).same_geometry(old(heap)),
            final(heap).mem() == old(heap).mem(),
            final(heap).descs() == clear_run(
                old(heap).descs(),
                (self.addr() - old(heap).start()) / 4096,
                run_end_from(old(heap).descs(), (self.addr() - old(heap).start()) / 4096).unwrap(),
            ),
    {
        deallocate(heap, self.ptr);
    }
}

} // verus!

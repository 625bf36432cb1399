//! First-fit page-frame allocator.
//!
//! Layout: a one-byte descriptor per data page lives at the start of
//! the heap, followed by page-aligned data pages. Storing metadata
//! out-of-band (instead of in each free page) means a freshly-allocated
//! page is immediately usable without clearing a header.
//!
//! The heap is held as plain values: the descriptor table, and the data
//! pages as 64-bit words (512 per page). Page `i` lives at physical
//! address `alloc_start + i * PAGE_SIZE`.

use vstd::prelude::*;

verus! {

pub const PAGE_ORDER: usize = 12;

pub const PAGE_SIZE: usize = 4096;

/// 64-bit words in one page.
pub const WORDS_PER_PAGE: usize = 512;

/// One byte of allocator metadata per data page.
#[derive(Clone, Copy, PartialEq, Eq, Structural)]
pub struct PageDesc(pub u8);

/// The descriptor bit that says the page is in use.
pub open spec fn desc_taken(d: u8) -> bool {
    d & 1u8 != 0
}

/// The descriptor bit that marks the last page of an allocated run.
pub open spec fn desc_last(d: u8) -> bool {
    d & 2u8 != 0
}

/// Descriptor values the allocator ever produces: free (0), taken (1),
/// taken and last of its run (3).
pub open spec fn desc_ok(d: u8) -> bool {
    d == 0 || d == 1 || d == 3
}

pub proof fn lemma_desc_bits()
    ensures
        !desc_taken(0u8),
        !desc_last(0u8),
        desc_taken(1u8),
        !desc_last(1u8),
        desc_taken(3u8),
        desc_last(3u8),
        (0u8 | 1u8) == 1u8,
        (1u8 | 1u8) == 1u8,
        (3u8 | 1u8) == 3u8,
        (1u8 | 2u8) == 3u8,
        (3u8 | 2u8) == 3u8,
{
    assert(!desc_taken(0u8) && !desc_last(0u8) && desc_taken(1u8) && !desc_last(1u8)
        && desc_taken(3u8) && desc_last(3u8) && (0u8 | 1u8) == 1u8 && (1u8 | 1u8) == 1u8
        && (3u8 | 1u8) == 3u8 && (1u8 | 2u8) == 3u8 && (3u8 | 2u8) == 3u8) by (bit_vector);
}

impl PageDesc {
    pub const TAKEN: u8 = 1;

    /// Marks the last page in an allocation so `deallocate` knows
    /// where the run ends without storing an explicit length.
    pub const LAST: u8 = 2;

    pub fn is_taken(&self) -> (r: bool)
        ensures
            r == desc_taken(self.0),
    {
        self.0 & Self::TAKEN != 0
    }

    pub fn is_last(&self) -> (r: bool)
        ensures
            r == desc_last(self.0),
    {
        self.0 & Self::LAST != 0
    }

    pub fn clear(&mut self)
        ensures
            final(self).0 == 0,
    {
        self.0 = 0;
    }

    pub fn mark_taken(&mut self)
        ensures
            final(self).0 == old(self).0 | 1u8,
    {
        self.0 = self.0 | Self::TAKEN;
    }

    pub fn mark_last(&mut self)
        ensures
            final(self).0 == old(self).0 | 2u8,
    {
        self.0 = self.0 | Self::LAST;
    }
}

/// `x` rounded up to the next multiple of the page size.
pub open spec fn round_up_page(x: int) -> int {
    if x % 4096 == 0 {
        x
    } else {
        x - x % 4096 + 4096
    }
}

/// The pages `[i, i + pages)` exist and are all free.
pub open spec fn window_free(d: Seq<u8>, i: int, pages: int) -> bool {
    &&& 0 <= i
    &&& i + pages <= d.len()
    &&& forall|j: int| i <= j < i + pages ==> !desc_taken(#[trigger] d[j])
}

/// First-fit search: the lowest start of a free window of `pages`
/// pages, looking from `i` on.
pub open spec fn first_fit_from(d: Seq<u8>, pages: int, i: int) -> Option<int>
    decreases d.len() - i,
{
    if i < 0 || i + pages > d.len() {
        None
    } else if window_free(d, i, pages) {
        Some(i)
    } else {
        first_fit_from(d, pages, i + 1)
    }
}

pub open spec fn first_fit(d: Seq<u8>, pages: int) -> Option<int> {
    first_fit_from(d, pages, 0)
}

/// The descriptor table after the free run `[i, i + pages)` is handed
/// out: every page taken, the last one also marked last.
pub open spec fn mark_run(d: Seq<u8>, i: int, pages: int) -> Seq<u8> {
    Seq::new(
        d.len(),
        |j: int|
            if i <= j < i + pages - 1 {
                1u8
            } else if j == i + pages - 1 {
                3u8
            } else {
                d[j]
            },
    )
}

/// Where the run starting at page `i` ends, if pages `i..` form a run:
/// taken-not-last pages followed by a taken-and-last page.
pub open spec fn run_end_from(d: Seq<u8>, i: int) -> Option<int>
    decreases d.len() - i,
{
    if i < 0 || i >= d.len() {
        None
    } else if d[i] == 3u8 {
        Some(i)
    } else if d[i] == 1u8 {
        run_end_from(d, i + 1)
    } else {
        None
    }
}

/// The descriptor table with the pages `[i, k]` cleared.
pub open spec fn clear_run(d: Seq<u8>, i: int, k: int) -> Seq<u8> {
    Seq::new(d.len(), |j: int| if i <= j <= k { 0u8 } else { d[j] })
}

/// Number of free pages.
pub open spec fn count_free(d: Seq<u8>) -> nat
    decreases d.len(),
{
    if d.len() == 0 {
        0
    } else {
        count_free(d.drop_last()) + if desc_taken(d.last()) {
            0nat
        } else {
            1nat
        }
    }
}

/// First data page of the heap `[begin, begin + size)`: the descriptor
/// table (one byte per page of the heap) comes first, rounded up to a page.
pub open spec fn data_start(begin: int, size: int) -> int {
    round_up_page(begin + size / 4096)
}

/// Number of data pages: the whole pages between the end of the
/// descriptor table and the end of the heap.
pub open spec fn data_pages(begin: int, size: int) -> int {
    if data_start(begin, size) <= begin + size {
        (begin + size - data_start(begin, size)) / 4096
    } else {
        0
    }
}

/// The allocator state: descriptor table plus the data pages it hands out.
pub struct Heap {
    heap_start: usize,
    heap_size: usize,
    alloc_start: usize,
    descs: Vec<PageDesc>,
    mem: Vec<i64>,
}

impl Heap {
    /// Descriptor bytes, one per data page.
    pub closed spec fn descs(&self) -> Seq<u8> {
        self.descs@.map_values(|p: PageDesc| p.0)
    }

    /// The data pages as 64-bit words; page `i` is words `[512 i, 512 (i + 1))`.
    pub closed spec fn mem(&self) -> Seq<i64> {
        self.mem@
    }

    /// Physical address of data page 0.
    pub closed spec fn start(&self) -> int {
        self.alloc_start as int
    }

    pub closed spec fn heap_begin(&self) -> int {
        self.heap_start as int
    }

    pub closed spec fn heap_len(&self) -> int {
        self.heap_size as int
    }

    pub open spec fn npages(&self) -> int {
        self.descs().len() as int
    }

    pub open spec fn wf(&self) -> bool {
        &&& self.npages() == data_pages(self.heap_begin(), self.heap_len())
        &&& self.mem().len() == self.npages() * 512
        &&& self.start() % 4096 == 0
        &&& self.start() == data_start(self.heap_begin(), self.heap_len())
        &&& self.npages() == 0 || self.start() + self.npages() * 4096 <= self.heap_begin()
            + self.heap_len()
        &&& self.start() + self.npages() * 4096 <= usize::MAX
        &&& self.heap_begin() + self.heap_len() <= usize::MAX
        &&& 0 <= self.heap_begin()
        &&& forall|i: int| 0 <= i < self.npages() ==> desc_ok(#[trigger] self.descs()[i])
    }

    /// Same heap geometry (placement and size), whatever the contents.
    pub open spec fn same_geometry(&self, other: &Heap) -> bool {
        &&& self.start() == other.start()
        &&& self.heap_begin() == other.heap_begin()
        &&& self.heap_len() == other.heap_len()
        &&& self.npages() == other.npages()
    }

    /// Physical address of data page `i`.
    pub open spec fn page_addr(&self, i: int) -> int {
        self.start() + i * 4096
    }

    /// `addr` is the address of one of the data pages.
    pub open spec fn is_frame(&self, addr: int) -> bool {
        &&& self.start() <= addr
        &&& (addr - self.start()) % 4096 == 0
        &&& (addr - self.start()) / 4096 < self.npages()
    }

    pub open spec fn frame_index(&self, addr: int) -> int {
        (addr - self.start()) / 4096
    }

    /// Word `idx` of the page at `addr`.
    pub open spec fn word(&self, addr: int, idx: int) -> i64 {
        self.mem()[self.frame_index(addr) * 512 + idx]
    }

    /// Descriptor of the page at `addr`.
    pub open spec fn desc_at(&self, addr: int) -> u8 {
        self.descs()[self.frame_index(addr)]
    }

    /// The number of free pages.
    pub open spec fn free_pages(&self) -> nat {
        count_free(self.descs())
    }

    /// Address of data page 0.
    pub fn alloc_start(&self) -> (r: usize)
        ensures
            r == self.start(),
    {
        self.alloc_start
    }

    /// The number of data pages.
    pub fn page_count(&self) -> (r: usize)
        ensures
            r == self.npages(),
    {
        self.descs.len()
    }

    /// Whether data page `i` is in use.
    pub fn page_in_use(&self, i: usize) -> (r: bool)
        requires
            i < self.npages(),
        ensures
            r == desc_taken(self.descs()[i as int]),
    {
        assert(self.descs()[i as int] == self.descs@[i as int].0);
        self.descs[i].is_taken()
    }

    /// One past the last byte of the heap region.
    pub fn heap_end(&self) -> (r: usize)
        requires
            self.wf(),
        ensures
            r == self.heap_begin() + self.heap_len(),
    {
        self.heap_start + self.heap_size
    }

    /// Read word `idx` of the data page at `addr`.
    pub fn read_word(&self, addr: usize, idx: usize) -> (r: i64)
        requires
            self.wf(),
            self.is_frame(addr as int),
            idx < 512,
        ensures
            r == self.word(addr as int, idx as int),
    {
        let f = (addr - self.alloc_start) / PAGE_SIZE;
        proof {
            lemma_word_index(f as int, idx as int, self.npages());
        }
        self.mem[f * WORDS_PER_PAGE + idx]
    }

    /// Write word `idx` of the data page at `addr`.
    pub fn write_word(&mut self, addr: usize, idx: usize, value: i64)
        requires
            old(self).wf(),
            old(self).is_frame(addr as int),
            idx < 512,
        ensures
            final(self).wf(),
            final(self).same_geometry(old(self)),
            final(self).descs() == old(self).descs(),
            final(self).mem() == old(self).mem().update(
                old(self).frame_index(addr as int) * 512 + idx,
                value,
            ),
    {
        let f = (addr - self.alloc_start) / PAGE_SIZE;
        proof {
            lemma_word_index(f as int, idx as int, self.npages());
        }
        self.mem.set(f * WORDS_PER_PAGE + idx, value);
        proof {
            assert(self.descs() =~= old(self).descs());
        }
    }
}

pub proof fn lemma_word_index(f: int, idx: int, n: int)
    requires
        0 <= f < n,
        0 <= idx < 512,
    ensures
        0 <= f * 512 + idx < n * 512,
        f * 512 + idx < (f + 1) * 512,
        f * 512 <= f * 512 + idx,
{
    assert(f * 512 + idx < n * 512) by (nonlinear_arith)
        requires
            0 <= f < n,
            0 <= idx < 512,
    ;
    assert(0 <= f * 512) by (nonlinear_arith)
        requires
            0 <= f,
    ;
}

/// Build the allocator over the heap `[heap_start, heap_start + heap_size)`,
/// every page free. The descriptor table sits at the head of the heap, so
/// the first usable data page starts after it, rounded up to keep alignment.
pub fn init(heap_start: usize, heap_size: usize) -> (h: Heap)
    requires
        heap_start + heap_size <= usize::MAX,
        data_start(heap_start as int, heap_size as int) <= usize::MAX,
    ensures
        h.wf(),
        h.heap_begin() == heap_start,
        h.heap_len() == heap_size,
        h.npages() == data_pages(heap_start as int, heap_size as int),
        h.start() == data_start(heap_start as int, heap_size as int),
        forall|i: int| 0 <= i < h.npages() ==> #[trigger] h.descs()[i] == 0u8,
{
    let x = heap_start + heap_size / PAGE_SIZE;
    let alloc_start = if x % PAGE_SIZE == 0 {
        x
    } else {
        x - x % PAGE_SIZE + PAGE_SIZE
    };
    let heap_end = heap_start + heap_size;
    let n = if alloc_start <= heap_end {
        (heap_end - alloc_start) / PAGE_SIZE
    } else {
        0
    };
    assert(alloc_start + n * 4096 <= heap_end || n == 0) by (nonlinear_arith)
        requires
            alloc_start <= heap_end ==> n == (heap_end - alloc_start) / 4096,
            alloc_start > heap_end ==> n == 0,
    ;
    let mut descs: Vec<PageDesc> = Vec::new();
    let mut i: usize = 0;
    while i < n
        invariant
            i <= n,
            descs.len() == i,
            forall|j: int| 0 <= j < i ==> (#[trigger] descs@[j]).0 == 0u8,
        decreases n - i,
    {
        descs.push(PageDesc(0));
        i = i + 1;
    }
    assert(n * 512 <= n * 4096) by (nonlinear_arith);
    let mut mem: Vec<i64> = Vec::new();
    let words = n * WORDS_PER_PAGE;
    let mut w: usize = 0;
    while w < words
        invariant
            w <= words,
            mem.len() == w,
        decreases words - w,
    {
        mem.push(0);
        w = w + 1;
    }
    let h = Heap { heap_start, heap_size, alloc_start, descs, mem };
    proof {
        lemma_desc_bits();
        assert(h.npages() == n);
        assert(h.mem().len() == h.npages() * 512);
        assert(h.start() % 4096 == 0);
        assert(h.start() == data_start(h.heap_begin(), h.heap_len()));
        assert(h.npages() == data_pages(h.heap_begin(), h.heap_len()));
        assert forall|i: int| 0 <= i < h.npages() implies #[trigger] h.descs()[i] == 0u8 by {
            assert(h.descs()[i] == h.descs@[i].0);
        }
    }
    h
}

/// Does the free window at `i` exist? (loop helper for `allocate`)
fn window_is_free(descs: &Vec<PageDesc>, i: usize, pages: usize) -> (r: bool)
    requires
        i + pages <= descs.len(),
    ensures
        r == window_free(descs@.map_values(|p: PageDesc| p.0), i as int, pages as int),
{
    let ghost d = descs@.map_values(|p: PageDesc| p.0);
    let mut j: usize = i;
    while j < i + pages
        invariant
            i <= j <= i + pages,
            i + pages <= descs.len(),
            d == descs@.map_values(|p: PageDesc| p.0),
            forall|k: int| i <= k < j ==> !desc_taken(#[trigger] d[k]),
        decreases i + pages - j,
    {
        if descs[j].is_taken() {
            assert(d[j as int] == descs@[j as int].0);
            return false;
        }
        assert(d[j as int] == descs@[j as int].0);
        j = j + 1;
    }
    true
}

/// Allocate a contiguous run of `pages` 4 KiB pages, first fit, or
/// `None` when no free run is long enough.
pub fn allocate(heap: &mut Heap, pages: usize) -> (r: Option<usize>)
    requires
        old(heap).wf(),
        pages > 0,
    ensures
        final(heap).wf(),
        final(heap).same_geometry(old(heap)),
        final(heap).mem() == old(heap).mem(),
        match first_fit(old(heap).descs(), pages as int) {
            None => r is None && final(heap).descs() == old(heap).descs(),
            Some(i) => {
                &&& r == Some(old(heap).page_addr(i) as usize)
                &&& final(heap).descs() == mark_run(old(heap).descs(), i, pages as int)
                // The run lies inside the heap.
                &&& old(heap).page_addr(i) + pages * 4096 <= old(heap).heap_begin() + old(
                    heap,
                ).heap_len()
            },
        },
{
    let ghost d = heap.descs();
    let n = heap.descs.len();
    if pages > n {
        proof {
            assert(first_fit_from(d, pages as int, 0) == None::<int>);
        }
        return None;
    }
    let limit = n - pages + 1;
    let mut start: usize = 0;
    let mut found = false;
    while start < limit
        invariant_except_break
            !found,
        invariant
            d == heap.descs(),
            n == d.len(),
            heap.descs@.map_values(|p: PageDesc| p.0) == d,
            pages <= n,
            limit == n - pages + 1,
            start <= limit,
            first_fit(d, pages as int) == first_fit_from(d, pages as int, start as int),
        ensures
            found ==> start < limit && window_free(d, start as int, pages as int),
            !found ==> start == limit,
        decreases limit - start,
    {
        if window_is_free(&heap.descs, start, pages) {
            found = true;
            break;
        }
        start = start + 1;
    }
    if !found {
        assert(first_fit_from(d, pages as int, start as int) == None::<int>);
        return None;
    }
    assert(first_fit(d, pages as int) == Some(start as int));
    let ghost h0 = *heap;
    let mut k: usize = start;
    while k < start + pages
        invariant
            start <= k <= start + pages,
            start + pages <= n,
            heap.descs.len() == n,
            h0.wf(),
            window_free(d, start as int, pages as int),
            heap.heap_start == h0.heap_start,
            heap.heap_size == h0.heap_size,
            heap.alloc_start == h0.alloc_start,
            heap.mem@ == h0.mem@,
            d == h0.descs(),
            forall|j: int|
                0 <= j < n ==> (#[trigger] heap.descs@[j]).0 == (if start <= j < k {
                    if j == start + pages - 1 {
                        3u8
                    } else {
                        1u8
                    }
                } else {
                    d[j]
                }),
        decreases start + pages - k,
    {
        proof {
            lemma_desc_bits();
            assert(h0.descs()[k as int] == h0.descs@[k as int].0);
            assert(d[k as int] == 0u8) by {
                assert(!desc_taken(d[k as int]));
                assert(desc_ok(d[k as int]));
            }
        }
        let mut p = heap.descs[k];
        p.mark_taken();
        if k == start + pages - 1 {
            p.mark_last();
        }
        heap.descs.set(k, p);
        k = k + 1;
    }
    proof {
        assert(heap.descs() =~= mark_run(d, start as int, pages as int)) by {
            assert forall|j: int| 0 <= j < n implies heap.descs()[j] == mark_run(
                d,
                start as int,
                pages as int,
            )[j] by {
                assert(heap.descs()[j] == heap.descs@[j].0);
            }
        }
        lemma_mark_run_ok(d, start as int, pages as int);
    }
    assert(heap.alloc_start + start * 4096 <= usize::MAX) by (nonlinear_arith)
        requires
            start < n,
            heap.alloc_start + n * 4096 <= usize::MAX,
    ;
    assert(heap.alloc_start + start * 4096 + pages * 4096 <= heap.alloc_start + n * 4096)
        by (nonlinear_arith)
        requires
            start + pages <= n,
    ;
    let addr = heap.alloc_start + start * PAGE_SIZE;
    Some(addr)
}

/// Whether `allocate(pages)` would succeed: some free run of `pages`
/// pages exists.
pub fn can_allocate(heap: &Heap, pages: usize) -> (r: bool)
    requires
        heap.wf(),
    ensures
        r == (first_fit(heap.descs(), pages as int) is Some),
{
    let ghost d = heap.descs();
    let n = heap.descs.len();
    if pages > n {
        proof {
            assert(first_fit_from(d, pages as int, 0) == None::<int>);
        }
        return false;
    }
    let limit = n - pages + 1;
    let mut start: usize = 0;
    while start < limit
        invariant
            d == heap.descs(),
            n == d.len(),
            heap.descs@.map_values(|p: PageDesc| p.0) == d,
            pages <= n,
            limit == n - pages + 1,
            start <= limit,
            first_fit(d, pages as int) == first_fit_from(d, pages as int, start as int),
        decreases limit - start,
    {
        if window_is_free(&heap.descs, start, pages) {
            return true;
        }
        start = start + 1;
    }
    assert(first_fit_from(d, pages as int, start as int) == None::<int>);
    false
}

/// The number of free pages.
pub fn free_page_count(heap: &Heap) -> (r: usize)
    requires
        heap.wf(),
    ensures
        r == heap.free_pages(),
{
    let ghost d = heap.descs();
    let n = heap.descs.len();
    let mut count: usize = 0;
    let mut i: usize = 0;
    while i < n
        invariant
            d == heap.descs(),
            n == d.len(),
            heap.descs@.map_values(|p: PageDesc| p.0) == d,
            i <= n,
            count == count_free(d.subrange(0, i as int)),
            count <= i,
        decreases n - i,
    {
        assert(d.subrange(0, i + 1).drop_last() =~= d.subrange(0, i as int));
        assert(d[i as int] == heap.descs@[i as int].0);
        if !heap.descs[i].is_taken() {
            count = count + 1;
        }
        i = i + 1;
    }
    assert(d.subrange(0, n as int) =~= d);
    count
}

proof fn lemma_mark_run_ok(d: Seq<u8>, i: int, pages: int)
    requires
        forall|j: int| 0 <= j < d.len() ==> desc_ok(#[trigger] d[j]),
        pages > 0,
        window_free(d, i, pages),
    ensures
        forall|j: int|
            0 <= j < d.len() ==> desc_ok(#[trigger] mark_run(d, i, pages)[j]),
{
}


/// The data words of the heap with pages `[i, i + pages)` zeroed.
pub open spec fn zero_pages(mem: Seq<i64>, i: int, pages: int) -> Seq<i64> {
    Seq::new(mem.len(), |w: int| if i * 512 <= w < (i + pages) * 512 { 0i64 } else { mem[w] })
}

/// Allocate and zero a contiguous run. Page tables, in particular,
/// must start out zero so unused entries read as invalid.
pub fn zallocate(heap: &mut Heap, pages: usize) -> (r: Option<usize>)
    requires
        old(heap).wf(),
        pages > 0,
    ensures
        final(heap).wf(),
        final(heap).same_geometry(old(heap)),
        match first_fit(old(heap).descs(), pages as int) {
            None => {
                &&& r is None
                &&& final(heap).descs() == old(heap).descs()
                &&& final(heap).mem() == old(heap).mem()
            },
            Some(i) => {
                &&& r == Some(old(heap).page_addr(i) as usize)
                &&& final(heap).descs() == mark_run(old(heap).descs(), i, pages as int)
                &&& final(heap).mem() == zero_pages(old(heap).mem(), i, pages as int)
            },
        },
{
    let ghost h0 = *heap;
    let p = match allocate(heap, pages) {
        Some(p) => p,
        None => return None,
    };
    let ghost i = first_fit(h0.descs(), pages as int).unwrap();
    proof {
        lemma_first_fit_window(h0.descs(), pages as int, 0);
        assert(i + pages <= heap.npages());
        assert(i * 4096 == p - heap.start());
    }
    let first = (p - heap.alloc_start) / PAGE_SIZE;
    assert(first == i);
    let lo = first * WORDS_PER_PAGE;
    let hi = (first + pages) * WORDS_PER_PAGE;
    proof {
        assert(hi <= heap.mem().len()) by (nonlinear_arith)
            requires
                first + pages <= heap.npages(),
                hi == (first + pages) * 512,
                heap.mem().len() == heap.npages() * 512,
        ;
        assert(lo <= hi) by (nonlinear_arith)
            requires
                lo == first * 512,
                hi == (first + pages) * 512,
        ;
    }
    let ghost m0 = heap.mem();
    let mut w = lo;
    while w < hi
        invariant
            lo <= w <= hi,
            hi <= heap.mem.len(),
            heap.mem.len() == m0.len(),
            heap.heap_start == h0.heap_start,
            heap.heap_size == h0.heap_size,
            heap.alloc_start == h0.alloc_start,
            heap.descs() == mark_run(h0.descs(), i, pages as int),
            forall|j: int|
                0 <= j < m0.len() ==> #[trigger] heap.mem@[j] == (if lo <= j < w {
                    0i64
                } else {
                    m0[j]
                }),
        decreases hi - w,
    {
        heap.mem.set(w, 0);
        w = w + 1;
    }
    proof {
        assert(heap.mem() =~= zero_pages(h0.mem(), i, pages as int));
    }
    Some(p)
}

/// `first_fit_from` finds a free window, at or after `s`, before which
/// no window is free.
pub proof fn lemma_first_fit_window(d: Seq<u8>, pages: int, s: int)
    requires
        first_fit_from(d, pages, s) is Some,
    ensures
        window_free(d, first_fit_from(d, pages, s).unwrap(), pages),
        s <= first_fit_from(d, pages, s).unwrap(),
        forall|k: int|
            s <= k < first_fit_from(d, pages, s).unwrap() ==> !window_free(d, k, pages),
    decreases d.len() - s,
{
    if s < 0 || s + pages > d.len() {
    } else if window_free(d, s, pages) {
    } else {
        lemma_first_fit_window(d, pages, s + 1);
    }
}

/// No free window at or after `s` when the search from `s` fails.
pub proof fn lemma_first_fit_none(d: Seq<u8>, pages: int, s: int, k: int)
    requires
        first_fit_from(d, pages, s) is None,
        0 <= s <= k,
    ensures
        !window_free(d, k, pages),
    decreases d.len() - s,
{
    if s + pages > d.len() {
    } else if window_free(d, s, pages) {
    } else if s < k {
        lemma_first_fit_none(d, pages, s + 1, k);
    }
}

/// A run found by `run_end_from` is taken-not-last pages closed by a
/// taken-and-last one.
pub proof fn lemma_run_end(d: Seq<u8>, i: int)
    requires
        run_end_from(d, i) is Some,
    ensures
        i <= run_end_from(d, i).unwrap() < d.len(),
        0 <= i,
        d[run_end_from(d, i).unwrap()] == 3u8,
        forall|j: int| i <= j < run_end_from(d, i).unwrap() ==> #[trigger] d[j] == 1u8,
    decreases d.len() - i,
{
    if d[i] == 3u8 {
    } else {
        lemma_run_end(d, i + 1);
    }
}

/// Free a previously-allocated run.
///
/// `addr` must lie in the heap and its page must start a run that is
/// still held: taken pages up to one marked last. Anything else, a double
/// free in particular, would stop the kernel.
pub fn deallocate(heap: &mut Heap, addr: usize)
    requires
        old(heap).wf(),
        old(heap).start() <= addr < old(heap).heap_begin() + old(heap).heap_len(),
        run_end_from(old(heap).descs(), (addr - old(heap).start()) / 4096) is Some,
    ensures
        final(heap).wf(),
        final(heap).same_geometry(old(heap)),
        final(heap).mem() == old(heap).mem(),
        final(heap).descs() == clear_run(
            old(heap).descs(),
            (addr - old(heap).start()) / 4096,
            run_end_from(old(heap).descs(), (addr - old(heap).start()) / 4096).unwrap(),
        ),
{
    let ghost d = heap.descs();
    let start = heap.alloc_start;
    let mut i = (addr - start) / PAGE_SIZE;
    let ghost i0 = i as int;
    let ghost k = run_end_from(d, i0).unwrap();
    proof {
        lemma_run_end(d, i0);
        lemma_desc_bits();
    }
    let ghost h0 = *heap;
    while heap.descs[i].is_taken() && !heap.descs[i].is_last()
        invariant
            i0 <= i <= k,
            k < d.len(),
            heap.descs.len() == d.len(),
            d == h0.descs(),
            d[k] == 3u8,
            forall|j: int| i0 <= j < k ==> #[trigger] d[j] == 1u8,
            heap.heap_start == h0.heap_start,
            heap.heap_size == h0.heap_size,
            heap.alloc_start == h0.alloc_start,
            heap.mem@ == h0.mem@,
            forall|j: int|
                0 <= j < d.len() ==> (#[trigger] heap.descs@[j]).0 == (if i0 <= j < i {
                    0u8
                } else {
                    d[j]
                }),
        decreases k - i,
    {
        proof {
            lemma_desc_bits();
        }
        heap.descs.set(i, PageDesc(0));
        i = i + 1;
    }
    proof {
        lemma_desc_bits();
        assert(i == k) by {
            if i < k {
                assert(heap.descs@[i as int].0 == 1u8);
            }
        }
    }
    heap.descs.set(i, PageDesc(0));
    proof {
        assert(heap.descs() =~= clear_run(d, i0, k)) by {
            assert forall|j: int| 0 <= j < d.len() implies heap.descs()[j] == clear_run(
                d,
                i0,
                k,
            )[j] by {
                assert(heap.descs()[j] == heap.descs@[j].0);
            }
        }
        assert forall|j: int| 0 <= j < heap.npages() implies desc_ok(#[trigger] heap.descs()[j]) by {
            assert(h0.descs()[j] == d[j]);
        }
    }
}

/// Handing out a run and then freeing it gives back the descriptor table
/// exactly as it was: on the heap `h`, `allocate(pages)` returns the
/// address `p` of a run that `deallocate` accepts, and `deallocate(p)`
/// then clears exactly that run. A second `deallocate(p)` is refused: the
/// page no longer starts a run.
pub proof fn lemma_deallocate_undoes_allocate(h: Heap, pages: int)
    requires
        h.wf(),
        pages > 0,
        first_fit(h.descs(), pages) is Some,
    ensures
        ({
            let i = first_fit(h.descs(), pages).unwrap();
            let p = h.page_addr(i);
            let after = mark_run(h.descs(), i, pages);
            &&& h.start() <= p < h.heap_begin() + h.heap_len()
            &&& (p - h.start()) / 4096 == i
            &&& run_end_from(after, i) == Some(i + pages - 1)
            &&& clear_run(after, i, i + pages - 1) == h.descs()
            &&& run_end_from(h.descs(), i) is None
        }),
{
    let d = h.descs();
    let i = first_fit(d, pages).unwrap();
    lemma_first_fit_window(d, pages, 0);
    let m = mark_run(d, i, pages);
    lemma_mark_run_end(m, i, pages, i);
    lemma_desc_bits();
    assert forall|j: int| 0 <= j < d.len() implies #[trigger] clear_run(m, i, i + pages - 1)[j]
        == d[j] by {
        if i <= j < i + pages {
            assert(!desc_taken(d[j]));
        }
    }
    assert(clear_run(m, i, i + pages - 1) =~= d);
    assert(!desc_taken(d[i]));
    assert(d[i] == 0u8);
    assert(h.page_addr(i) + pages * 4096 <= h.start() + h.npages() * 4096) by (nonlinear_arith)
        requires
            i + pages <= h.npages(),
            h.page_addr(i) == h.start() + i * 4096,
    ;
    assert((h.page_addr(i) - h.start()) / 4096 == i) by (nonlinear_arith)
        requires
            h.page_addr(i) == h.start() + i * 4096,
            0 <= i,
    ;
}

proof fn lemma_mark_run_end(m: Seq<u8>, i: int, pages: int, j: int)
    requires
        0 <= i <= j < i + pages,
        i + pages <= m.len(),
        forall|k: int| i <= k < i + pages - 1 ==> #[trigger] m[k] == 1u8,
        m[i + pages - 1] == 3u8,
    ensures
        run_end_from(m, j) == Some(i + pages - 1),
    decreases i + pages - j,
{
    if j < i + pages - 1 {
        lemma_mark_run_end(m, i, pages, j + 1);
    }
}

/// Changing one descriptor moves the free count by at most one, in the
/// direction the change says.
pub proof fn lemma_count_free_update(d: Seq<u8>, j: int, v: u8)
    requires
        0 <= j < d.len(),
    ensures
        count_free(d.update(j, v)) + (if desc_taken(d[j]) { 0int } else { 1int }) == count_free(d)
            + (if desc_taken(v) { 0int } else { 1int }),
    decreases d.len(),
{
    let u = d.update(j, v);
    let fu: int = if desc_taken(u.last()) { 0 } else { 1 };
    let fd: int = if desc_taken(d.last()) { 0 } else { 1 };
    assert(count_free(u) == count_free(u.drop_last()) + fu);
    assert(count_free(d) == count_free(d.drop_last()) + fd);
    if j == d.len() - 1 {
        assert(u.drop_last() =~= d.drop_last());
        assert(u.last() == v);
        assert(d.last() == d[j]);
    } else {
        assert(u.drop_last() =~= d.drop_last().update(j, v));
        assert(u.last() == d.last());
        assert(d.drop_last()[j] == d[j]);
        lemma_count_free_update(d.drop_last(), j, v);
    }
}

/// Some page is free exactly when the free count is positive.
pub proof fn lemma_count_free_pos(d: Seq<u8>)
    ensures
        count_free(d) > 0 <==> exists|j: int| 0 <= j < d.len() && !desc_taken(#[trigger] d[j]),
    decreases d.len(),
{
    if d.len() > 0 {
        lemma_count_free_pos(d.drop_last());
        if count_free(d) > 0 {
            if !desc_taken(d.last()) {
                assert(!desc_taken(d[d.len() - 1]));
            } else {
                let j = choose|j: int| 0 <= j < d.drop_last().len() && !desc_taken(#[trigger] d.drop_last()[j]);
                assert(!desc_taken(d[j]));
            }
        }
        if exists|j: int| 0 <= j < d.len() && !desc_taken(#[trigger] d[j]) {
            let j = choose|j: int| 0 <= j < d.len() && !desc_taken(#[trigger] d[j]);
            if j < d.len() - 1 {
                assert(!desc_taken(d.drop_last()[j]));
            }
        }
    }
}

/// A single page can be had exactly when some page is free; handing it
/// out lowers the free count by one.
pub proof fn lemma_allocate_one(d: Seq<u8>)
    requires
        forall|j: int| 0 <= j < d.len() ==> desc_ok(#[trigger] d[j]),
    ensures
        first_fit(d, 1) is Some <==> count_free(d) > 0,
        first_fit(d, 1) is Some ==> {
            &&& mark_run(d, first_fit(d, 1).unwrap(), 1) == d.update(first_fit(d, 1).unwrap(), 3u8)
            &&& count_free(mark_run(d, first_fit(d, 1).unwrap(), 1)) + 1 == count_free(d)
            &&& d[first_fit(d, 1).unwrap()] == 0u8
        },
{
    lemma_count_free_pos(d);
    lemma_desc_bits();
    if first_fit(d, 1) is Some {
        let i = first_fit(d, 1).unwrap();
        lemma_first_fit_window(d, 1, 0);
        assert(!desc_taken(d[i]));
        assert(desc_ok(d[i]));
        assert(d[i] == 0u8);
        assert(mark_run(d, i, 1) =~= d.update(i, 3u8));
        lemma_count_free_update(d, i, 3u8);
    } else {
        if count_free(d) > 0 {
            let j = choose|j: int| 0 <= j < d.len() && !desc_taken(#[trigger] d[j]);
            lemma_first_fit_none(d, 1, 0, j);
            assert(window_free(d, j, 1));
        }
    }
}

/// Bit 0 (taken) is clear in the descriptors of pages `k..k + pages`.
pub open spec fn bytes_free(d: Seq<u8>, k: int, pages: int) -> bool {
    forall|j: int| k <= j < k + pages ==> #[trigger] d[j] & 1u8 == 0
}

/// First fit, on the descriptor bytes: when `allocate(pages)` finds the
/// run at page `i`, pages `i..i + pages` are all free (bit 0 clear) and
/// every lower start has a taken page in its window; handing the run out
/// sets the descriptors of its pages to 1 (taken), the last one's to 3
/// (taken and last of its run), and leaves every other descriptor as it
/// was. When it finds none, no window of `pages` free pages exists.
pub proof fn lemma_allocate_first_fit(d: Seq<u8>, pages: int)
    requires
        pages > 0,
    ensures
        first_fit(d, pages) matches Some(i) ==> {
            &&& 0 <= i && i + pages <= d.len()
            &&& bytes_free(d, i, pages)
            &&& forall|k: int| 0 <= k < i ==> !#[trigger] bytes_free(d, k, pages)
            &&& forall|j: int|
                0 <= j < d.len() ==> #[trigger] mark_run(d, i, pages)[j] == if i <= j < i + pages - 1 {
                    1u8
                } else if j == i + pages - 1 {
                    3u8
                } else {
                    d[j]
                }
        },
        first_fit(d, pages) is None ==> forall|k: int|
            0 <= k && k + pages <= d.len() ==> !#[trigger] bytes_free(d, k, pages),
{
    if first_fit(d, pages) is Some {
        lemma_first_fit_window(d, pages, 0);
        let i = first_fit(d, pages).unwrap();
        assert forall|j: int| i <= j < i + pages implies #[trigger] d[j] & 1u8 == 0 by {
            assert(!desc_taken(d[j]));
        }
        assert forall|k: int| 0 <= k < i implies !#[trigger] bytes_free(d, k, pages) by {
            assert(!window_free(d, k, pages));
            if bytes_free(d, k, pages) {
                assert forall|j: int| k <= j < k + pages implies !desc_taken(#[trigger] d[j]) by {
                    assert(d[j] & 1u8 == 0);
                }
            }
        }
    } else {
        assert forall|k: int| 0 <= k && k + pages <= d.len() implies !#[trigger] bytes_free(
            d,
            k,
            pages,
        ) by {
            lemma_first_fit_none(d, pages, 0, k);
            if bytes_free(d, k, pages) {
                assert forall|j: int| k <= j < k + pages implies !desc_taken(#[trigger] d[j]) by {
                    assert(d[j] & 1u8 == 0);
                }
            }
        }
    }
}
} // verus!

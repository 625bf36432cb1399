//! Boot-time construction of the kernel's identity page table.
//!
//! The M-mode entry brings up the UART, initialises the page-frame
//! allocator, builds the page table here, installs the trap handler,
//! configures the PLIC, probes the VirtIO bus, and drops to S-mode.

use vstd::prelude::*;

use crate::arch::make_satp_sv39;
use crate::arch::riscv64::paging::satp_sv39;
use crate::drivers::uart::UART_BASE;
use crate::drivers::virtio::spec::{MMIO_VIRTIO_END, MMIO_VIRTIO_START, MMIO_VIRTIO_STRIDE};
use crate::linker::KernelLayout;
use crate::mm::allocator::page_frame::{Heap, PAGE_SIZE, first_fit};
use crate::mm::paging::sv39::map::{
    below_phys_limit, entry_at, has_path, id_map_range, l1_valid, l2_valid, leaf_pte,
    lemma_same_region_low, new_table, path_ok, range_pages, range_sets, range_tables,
    same_region, tables_for_page, translate, tree_wf, used_pages_kept, vpn,
};
use crate::mm::paging::sv39::types::PteFlags;

verus! {

/// `a` rounded down to a page boundary.
pub open spec fn page_down(a: int) -> int {
    a - a % 4096
}

/// `a` rounded up to a page boundary.
pub open spec fn page_up(a: int) -> int {
    if a % 4096 == 0 {
        a
    } else {
        a - a % 4096 + 4096
    }
}

/// `addr` rounded down to a multiple of `align`, the page size.
fn align_down(addr: usize, align: usize) -> (r: usize)
    requires
        align == PAGE_SIZE,
    ensures
        r == addr - addr % align,
{
    let r = addr & !(align - 1);
    assert(r == addr - addr % 4096) by (bit_vector)
        requires
            r == addr & !4095usize,
    ;
    r
}

/// `addr` rounded up to a multiple of `align`, the page size.
fn align_up(addr: usize, align: usize) -> (r: usize)
    requires
        align == PAGE_SIZE,
        addr + align - 1 <= usize::MAX,
    ensures
        r == page_up(addr as int),
{
    let x = addr + (align - 1);
    let r = x & !(align - 1);
    assert(r == (if addr % 4096 == 0 {
        addr
    } else {
        (addr - addr % 4096 + 4096) as usize
    })) by (bit_vector)
        requires
            x == addr + 4095,
            addr <= x,
            r == x & !4095usize,
    ;
    r
}

/// The pages covering `[start, end)`, rounded out to page boundaries.
pub open spec fn section_pages(start: usize, end: usize) -> int {
    if page_down(start as int) < page_up(end as int) {
        (page_up(end as int) - page_down(start as int)) / 4096
    } else {
        0
    }
}

/// `va` lies in one of the pages covering `[start, end)`.
pub open spec fn in_section(va: usize, start: usize, end: usize) -> bool {
    page_down(start as int) <= va < page_up(end as int)
}

/// Tables that identity-mapping `[start, end)`, rounded out to pages,
/// allocates when the walk starts out finding the valid entries `v2` and
/// `v1`.
pub open spec fn section_tables(v2: Set<int>, v1: Set<(int, int)>, start: usize, end: usize) -> nat {
    range_tables(v2, v1, page_down(start as int) as usize, section_pages(start, end) as nat)
}

/// The valid root and level-1 entries once `[start, end)` is mapped.
pub open spec fn section_sets(v2: Set<int>, v1: Set<(int, int)>, start: usize, end: usize) -> (
    Set<int>,
    Set<(int, int)>,
) {
    range_sets(v2, v1, page_down(start as int) as usize, section_pages(start, end) as nat)
}

/// Identity-map `[start, end)` rounded out to page boundaries. Rounding
/// matters because linker sections are byte-aligned but the MMU only
/// understands whole pages; over-mapping a few bytes is harmless.
#[verifier::spinoff_prover]
#[verifier::rlimit(40)]
pub fn map_section(heap: &mut Heap, root: usize, start: usize, end: usize, flags: PteFlags)
    requires
        usize::BITS == 64,
        old(heap).wf(),
        below_phys_limit(*old(heap)),
        tree_wf(*old(heap), root as int),
        flags.wf(),
        flags.spec_bits() & 0xei64 != 0,
        end + 4095 <= usize::MAX,
        forall|va: usize| #[trigger] path_ok(*old(heap), root as int, va, 0),
        // The kernel stops when it runs out of memory for tables.
        old(heap).free_pages() >= section_tables(
            l2_valid(*old(heap), root as int),
            l1_valid(*old(heap), root as int),
            start,
            end,
        ),
    ensures
        final(heap).wf(),
        final(heap).same_geometry(old(heap)),
        tree_wf(*final(heap), root as int),
        used_pages_kept(*old(heap), *final(heap)),
        forall|va: usize| #[trigger] path_ok(*final(heap), root as int, va, 0),
        final(heap).free_pages() + section_tables(
            l2_valid(*old(heap), root as int),
            l1_valid(*old(heap), root as int),
            start,
            end,
        ) == old(heap).free_pages(),
        (l2_valid(*final(heap), root as int), l1_valid(*final(heap), root as int)) == section_sets(
            l2_valid(*old(heap), root as int),
            l1_valid(*old(heap), root as int),
            start,
            end,
        ),
        // Below 2^39 the section's pages translate to themselves and every
        // other address as before.
        page_up(end as int) <= 0x80_0000_0000 ==> forall|va: usize|
            va < 0x80_0000_0000 ==> #[trigger] translate(*final(heap), root as int, va) == if in_section(
                va,
                start,
                end,
            ) {
                Some(va as int)
            } else {
                translate(*old(heap), root as int, va)
            },
        // ... each of its pages with a level-0 entry holding `flags`, and
        // the entries of other pages as they were.
        page_up(end as int) <= 0x80_0000_0000 ==> forall|p: usize|
            in_section(p, start, end) && p % 4096 == 0 ==> #[trigger] entry_at(
                *final(heap),
                root as int,
                p,
                0,
            ) == leaf_pte(p, flags.spec_bits()) && has_path(*final(heap), root as int, p),
        page_up(end as int) <= 0x80_0000_0000 ==> forall|va: usize|
            #![trigger has_path(*final(heap), root as int, va)]
            #![trigger entry_at(*final(heap), root as int, va, 0)]
            va < 0x80_0000_0000 && !in_section(va, start, end) && has_path(*old(heap), root as int, va)
                ==> has_path(*final(heap), root as int, va) && entry_at(*final(heap), root as int, va, 0)
                == entry_at(*old(heap), root as int, va, 0),
{
    let lo = align_down(start, PAGE_SIZE);
    let hi = align_up(end, PAGE_SIZE);
    proof {
        assert(lo % 4096 == 0 && hi % 4096 == 0);
        if lo < hi {
            assert((hi - lo) / 4096 == section_pages(start, end));
        }
        assert(range_pages(lo, hi) == section_pages(start, end));
    }
    let ghost h0 = *heap;
    id_map_range(heap, root, lo, hi, flags);
    proof {
        if hi <= 0x80_0000_0000 {
            assert forall|va: usize|
                va < 0x80_0000_0000 && !in_section(va, start, end) implies #[trigger] translate(
                *heap,
                root as int,
                va,
            ) == translate(h0, root as int, va) by {
                assert forall|p: usize| lo <= p < hi && p % 4096 == 0 implies !#[trigger] same_region(
                    va,
                    p,
                    0,
                ) by {
                    if same_region(va, p, 0) {
                        lemma_same_region_low(va, p);
                    }
                }
            }
            assert forall|va: usize|
                #![trigger has_path(*heap, root as int, va)]
                #![trigger entry_at(*heap, root as int, va, 0)]
                va < 0x80_0000_0000 && !in_section(va, start, end) && has_path(h0, root as int, va)
                    implies has_path(*heap, root as int, va) && entry_at(*heap, root as int, va, 0)
                == entry_at(h0, root as int, va, 0) by {
                assert forall|p: usize| lo <= p < hi && p % 4096 == 0 implies !#[trigger] same_region(
                    va,
                    p,
                    0,
                ) by {
                    if same_region(va, p, 0) {
                        lemma_same_region_low(va, p);
                    }
                }
            }
        }
    }
}

/// The address ranges the kernel identity-maps, in order: text, rodata,
/// data, bss, the boot stack, the heap up to the end of RAM, the UART
/// page, and the VirtIO MMIO windows.
pub open spec fn kernel_sections(l: KernelLayout) -> Seq<(usize, usize)> {
    seq![
        (l.text_start, l.text_end),
        (l.rodata_start, l.rodata_end),
        (l.data_start, l.data_end),
        (l.bss_start, l.bss_end),
        (l.stack_start, l.stack_end),
        (l.heap_start, l.memory_end),
        (UART_BASE, (UART_BASE + 4096) as usize),
        (MMIO_VIRTIO_START, (MMIO_VIRTIO_END + MMIO_VIRTIO_STRIDE) as usize),
    ]
}

/// Tables that mapping the sections from `k` on allocates, when the walk
/// starts out finding the valid entries `v2` and `v1`.
pub open spec fn sections_tables(l: KernelLayout, k: int, v2: Set<int>, v1: Set<(int, int)>) -> nat
    decreases 8 - k,
{
    if k < 0 || k >= 8 {
        0
    } else {
        let sec = kernel_sections(l)[k];
        let after = section_sets(v2, v1, sec.0, sec.1);
        section_tables(v2, v1, sec.0, sec.1) + sections_tables(l, k + 1, after.0, after.1)
    }
}

/// Tables the kernel's page table needs below its root.
pub open spec fn kernel_tables(l: KernelLayout) -> nat {
    sections_tables(l, 0, Set::empty(), Set::empty())
}

/// Every section can be rounded up without overflow.
pub open spec fn layout_ok(l: KernelLayout) -> bool {
    forall|k: int| 0 <= k < 8 ==> #[trigger] kernel_sections(l)[k].1 + 4095 <= usize::MAX
}

/// Every section ends below 2^39, the reach of a Sv39 address.
pub open spec fn layout_low(l: KernelLayout) -> bool {
    forall|k: int| 0 <= k < 8 ==> page_up(#[trigger] kernel_sections(l)[k].1 as int) <= 0x80_0000_0000
}

/// `va` lies in one of the first `n` sections.
pub open spec fn in_kernel(l: KernelLayout, va: usize, n: int) -> bool {
    exists|k: int| 0 <= k < n && #[trigger] in_section(va, kernel_sections(l)[k].0, kernel_sections(l)[k].1)
}

/// The flag bits section `k` of `kernel_sections` is mapped with: code
/// R|X, read-only data R, the rest R|W|D; all with ACCESSED.
pub open spec fn section_flags(k: int) -> i64 {
    if k == 0 {
        74
    } else if k == 1 {
        66
    } else {
        198
    }
}

/// The last of the first `n` sections that holds `va`.
pub open spec fn last_section(l: KernelLayout, va: usize, n: int) -> Option<int>
    decreases n,
{
    if n <= 0 {
        None
    } else if in_section(va, kernel_sections(l)[n - 1].0, kernel_sections(l)[n - 1].1) {
        Some(n - 1)
    } else {
        last_section(l, va, n - 1)
    }
}

/// In the table at `r`, each kernel page's level-0 entry maps it to
/// itself with the flags of the last section of `l` that holds it.
pub open spec fn kernel_leaves(h: Heap, r: int, l: KernelLayout) -> bool {
    forall|p: usize|
        p % 4096 == 0 && last_section(l, p, 8) is Some ==> #[trigger] entry_at(h, r, p, 0)
            == leaf_pte(p, section_flags(last_section(l, p, 8).unwrap()))
}

/// Build the kernel's page table: a fresh root, then every section of
/// `layout` identity-mapped, code read+execute, read-only data
/// read-only, the rest read+write. ACCESSED (and DIRTY for writable
/// pages) are pre-set so the hardware never has to fault to update
/// them. Returns the root table's address and the `satp` value that
/// turns it on.
#[verifier::spinoff_prover]
pub fn map_kernel(heap: &mut Heap, layout: &KernelLayout) -> (r: (usize, usize))
    requires
        usize::BITS == 64,
        old(heap).wf(),
        below_phys_limit(*old(heap)),
        layout_ok(*layout),
        // The kernel stops when it runs out of memory for its tables.
        old(heap).free_pages() >= 1 + kernel_tables(*layout),
    ensures
        final(heap).wf(),
        final(heap).same_geometry(old(heap)),
        tree_wf(*final(heap), r.0 as int),
        r.0 == old(heap).page_addr(first_fit(old(heap).descs(), 1).unwrap()),
        r.1 == satp_sv39(r.0),
        // Every kernel address translates to itself, and nothing else is
        // mapped.
        layout_low(*layout) ==> forall|va: usize|
            va < 0x80_0000_0000 ==> #[trigger] translate(*final(heap), r.0 as int, va) == if in_kernel(
                *layout,
                va,
                8,
            ) {
                Some(va as int)
            } else {
                None
            },
        // The tables came from the free pages, after the root.
        final(heap).free_pages() + 1 + kernel_tables(*layout) == old(heap).free_pages(),
        // Each kernel page's entry carries the flags of the last section
        // that holds it.
        layout_low(*layout) ==> kernel_leaves(*final(heap), r.0 as int, *layout),
{
    let ghost secs = kernel_sections(*layout);
    let ghost free0 = heap.free_pages();
    let root = match new_table(heap) {
        Some(r) => r,
        None => {
            assert(false);
            return (0, 0);
        },
    };
    let ghost h1 = *heap;
    let ghost root_int = root as int;
    let rx = PteFlags::read().union(PteFlags::execute()).union(PteFlags::accessed());
    let ro = PteFlags::read().union(PteFlags::accessed());
    let rw = PteFlags::read().union(PteFlags::write()).union(PteFlags::accessed()).union(
        PteFlags::dirty(),
    );
    proof {
        assert(2i64 | 8i64 | 64i64 == 74i64) by (bit_vector);
        assert(2i64 | 64i64 == 66i64) by (bit_vector);
        assert(2i64 | 4i64 | 64i64 | 128i64 == 198i64) by (bit_vector);
        assert(74i64 & 0xei64 != 0 && 66i64 & 0xei64 != 0 && 198i64 & 0xei64 != 0) by (bit_vector);
    }
    let sections: [(usize, usize, PteFlags); 8] = [
        (layout.text_start(), layout.text_end(), rx),
        (layout.rodata_start(), layout.rodata_end(), ro),
        (layout.data_start(), layout.data_end(), rw),
        (layout.bss_start(), layout.bss_end(), rw),
        (layout.stack_start(), layout.stack_end(), rw),
        (layout.heap_start(), layout.memory_end(), rw),
        (UART_BASE, UART_BASE + PAGE_SIZE, rw),
        (MMIO_VIRTIO_START, MMIO_VIRTIO_END + MMIO_VIRTIO_STRIDE, rw),
    ];
    proof {
        assert forall|k: int| 0 <= k < 8 implies #[trigger] sections@[k].0 == secs[k].0
            && sections@[k].1 == secs[k].1 && sections@[k].2.wf() && sections@[k].2.spec_bits()
            & 0xei64 != 0 && sections@[k].2.spec_bits() == section_flags(k) by {}
    }
    let mut k: usize = 0;
    while k < 8
        invariant
            usize::BITS == 64,
            k <= 8,
            root_int == root as int,
            secs == kernel_sections(*layout),
            layout_ok(*layout),
            forall|j: int| 0 <= j < 8 ==> #[trigger] sections@[j].0 == secs[j].0
                && sections@[j].1 == secs[j].1 && sections@[j].2.wf()
                && sections@[j].2.spec_bits() & 0xei64 != 0 && sections@[j].2.spec_bits()
                == section_flags(j),
            layout_low(*layout) ==> forall|p: usize|
                p % 4096 == 0 && last_section(*layout, p, k as int) is Some ==> #[trigger] entry_at(
                    *heap,
                    root_int,
                    p,
                    0,
                ) == leaf_pte(p, section_flags(last_section(*layout, p, k as int).unwrap()))
                    && has_path(*heap, root_int, p),
            heap.wf(),
            heap.same_geometry(&h1),
            below_phys_limit(*heap),
            tree_wf(*heap, root_int),
            forall|va: usize| #[trigger] path_ok(*heap, root_int, va, 0),
            heap.free_pages() >= sections_tables(
                *layout,
                k as int,
                l2_valid(*heap, root_int),
                l1_valid(*heap, root_int),
            ),
            heap.free_pages() - sections_tables(
                *layout,
                k as int,
                l2_valid(*heap, root_int),
                l1_valid(*heap, root_int),
            ) == free0 - 1 - kernel_tables(*layout),
            layout_low(*layout) ==> forall|va: usize|
                va < 0x80_0000_0000 ==> #[trigger] translate(*heap, root_int, va) == if in_kernel(
                    *layout,
                    va,
                    k as int,
                ) {
                    Some(va as int)
                } else {
                    None
                },
        decreases 8 - k,
    {
        let (start, end, flags) = sections[k];
        let ghost hk = *heap;
        proof {
            assert(secs[k as int].1 + 4095 <= usize::MAX);
        }
        map_section(heap, root, start, end, flags);
        proof {
            if layout_low(*layout) {
                assert(page_up(secs[k as int].1 as int) <= 0x80_0000_0000);
                let hn = *heap;
                assert forall|p: usize|
                    p % 4096 == 0 && last_section(*layout, p, k + 1) is Some implies #[trigger] entry_at(
                    hn,
                    root_int,
                    p,
                    0,
                ) == leaf_pte(p, section_flags(last_section(*layout, p, k + 1).unwrap()))
                    && has_path(hn, root_int, p) by {
                    if !in_section(p, start, end) {
                        let j = last_section(*layout, p, k as int).unwrap();
                        lemma_last_section(*layout, p, k as int);
                        assert(page_up(secs[j].1 as int) <= 0x80_0000_0000);
                        assert(entry_at(hk, root_int, p, 0) == leaf_pte(p, section_flags(j)));
                    }
                }
                assert forall|va: usize| va < 0x80_0000_0000 implies #[trigger] translate(
                    *heap,
                    root_int,
                    va,
                ) == if in_kernel(*layout, va, k + 1) {
                    Some(va as int)
                } else {
                    None
                } by {
                    if in_section(va, start, end) {
                        assert(in_kernel(*layout, va, k + 1));
                    } else {
                        assert(translate(hk, root_int, va) == if in_kernel(*layout, va, k as int) {
                            Some(va as int)
                        } else {
                            None
                        });
                        if in_kernel(*layout, va, k + 1) {
                            let j = choose|j: int|
                                0 <= j < k + 1 && #[trigger] in_section(
                                    va,
                                    kernel_sections(*layout)[j].0,
                                    kernel_sections(*layout)[j].1,
                                );
                            assert(j != k);
                            assert(in_kernel(*layout, va, k as int));
                        }
                    }
                }
            }
        }
        k = k + 1;
    }
    let satp = make_satp_sv39(root);
    (root, satp)
}

/// The section `last_section` names holds `va`.
proof fn lemma_last_section(l: KernelLayout, va: usize, n: int)
    ensures
        last_section(l, va, n) matches Some(j) ==> 0 <= j < n && in_section(
            va,
            kernel_sections(l)[j].0,
            kernel_sections(l)[j].1,
        ),
    decreases n,
{
    if n > 0 && !in_section(va, kernel_sections(l)[n - 1].0, kernel_sections(l)[n - 1].1) {
        lemma_last_section(l, va, n - 1);
    }
}

/// Distinct (root index, level-1 index) pairs have distinct flat indices.
proof fn lemma_pair_index(i: int, m: int, i2: int, m2: int)
    requires
        0 <= i < 512,
        0 <= m < 512,
        0 <= i2 < 512,
        0 <= m2 < 512,
    ensures
        0 <= i * 512 + m < 512 * 512,
        i * 512 + m == i2 * 512 + m2 ==> i == i2 && m == m2,
{
    assert(0 <= i * 512 + m < 512 * 512) by (nonlinear_arith)
        requires
            0 <= i < 512,
            0 <= m < 512,
    ;
    assert(i * 512 + m == i2 * 512 + m2 ==> i == i2 && m == m2) by (nonlinear_arith)
        requires
            0 <= i < 512,
            0 <= m < 512,
            0 <= i2 < 512,
            0 <= m2 < 512,
    ;
}

/// `v2` and `v1` hold the sets `s2` and `s1` as flags: root indices and
/// flattened (root, level-1) index pairs.
pub open spec fn flags_hold(v2: Seq<bool>, v1: Seq<bool>, s2: Set<int>, s1: Set<(int, int)>) -> bool {
    &&& v2.len() == 512
    &&& v1.len() == 512 * 512
    &&& forall|i: int| 0 <= i < 512 ==> #[trigger] v2[i] == s2.contains(i)
    &&& forall|x: int| #[trigger] s2.contains(x) ==> 0 <= x < 512
    &&& forall|i: int, m: int|
        0 <= i < 512 && 0 <= m < 512 ==> #[trigger] v1[i * 512 + m] == s1.contains((i, m))
    &&& forall|x: (int, int)| #[trigger] s1.contains(x) ==> 0 <= x.0 < 512 && 0 <= x.1 < 512
}

/// Tables mapping the pages `[lo, hi)` allocates, with the walk's valid
/// entries held in `v2` and `v1`, which it updates.
fn count_range_tables(v2: &mut Vec<bool>, v1: &mut Vec<bool>, lo: usize, hi: usize, Ghost(s2): Ghost<Set<int>>, Ghost(s1): Ghost<Set<(int, int)>>) -> (r: usize)
    requires
        usize::BITS == 64,
        lo % 4096 == 0,
        hi % 4096 == 0,
        flags_hold(old(v2)@, old(v1)@, s2, s1),
    ensures
        r == range_tables(s2, s1, lo, range_pages(lo, hi)),
        r <= 2 * range_pages(lo, hi),
        flags_hold(
            final(v2)@,
            final(v1)@,
            range_sets(s2, s1, lo, range_pages(lo, hi)).0,
            range_sets(s2, s1, lo, range_pages(lo, hi)).1,
        ),
{
    let mut count: usize = 0;
    let mut p = lo;
    let ghost mut c2 = s2;
    let ghost mut c1 = s1;
    while p < hi
        invariant
            usize::BITS == 64,
            lo % 4096 == 0,
            hi % 4096 == 0,
            p % 4096 == 0,
            lo <= p,
            p <= hi || p == lo,
            flags_hold(v2@, v1@, c2, c1),
            count + range_tables(c2, c1, p, range_pages(p, hi)) == range_tables(
                s2,
                s1,
                lo,
                range_pages(lo, hi),
            ),
            range_sets(c2, c1, p, range_pages(p, hi)) == range_sets(s2, s1, lo, range_pages(lo, hi)),
            count <= 2 * ((p - lo) / 4096),
            range_pages(lo, hi) == (p - lo) / 4096 + range_pages(p, hi),
        decreases hi - p,
    {
        let i = (p >> 30) & 0x1ff;
        let m = (p >> 21) & 0x1ff;
        proof {
            lemma_vpn_bits(p);
            lemma_pair_index(i as int, m as int, 0, 0);
            assert(range_pages(p, hi) == range_pages((p + 4096) as usize, hi) + 1);
        }
        let flat = i * 512 + m;
        let need: usize = if !v2[i] {
            2
        } else if !v1[flat] {
            1
        } else {
            0
        };
        assert(need == tables_for_page(c2, c1, p));
        count = count + need;
        v2.set(i, true);
        v1.set(flat, true);
        proof {
            let n2 = c2.insert(i as int);
            let n1 = c1.insert((i as int, m as int));
            assert forall|a: int, b: int| 0 <= a < 512 && 0 <= b < 512 implies #[trigger] v1@[a * 512
                + b] == n1.contains((a, b)) by {
                lemma_pair_index(a, b, i as int, m as int);
            }
            c2 = n2;
            c1 = n1;
        }
        p = p + 4096;
    }
    count
}

/// The vpn fields as the walk reads them.
proof fn lemma_vpn_bits(p: usize)
    ensures
        vpn(p, 2) == ((p >> 30usize) & 0x1ffusize) as int,
        vpn(p, 1) == ((p >> 21usize) & 0x1ffusize) as int,
        (p >> 30usize) & 0x1ffusize < 512,
        (p >> 21usize) & 0x1ffusize < 512,
{
    assert((p >> 30usize) & 0x1ffusize < 512 && (p >> 21usize) & 0x1ffusize < 512) by (bit_vector);
}

/// How many tables `map_kernel` allocates below the root, so that the
/// boot code can check the heap has them before mapping.
pub fn kernel_table_count(layout: &KernelLayout) -> (r: usize)
    requires
        usize::BITS == 64,
        layout_ok(*layout),
    ensures
        r == kernel_tables(*layout),
{
    let mut v2: Vec<bool> = Vec::new();
    let mut i: usize = 0;
    while i < 512
        invariant
            i <= 512,
            v2@.len() == i,
            forall|k: int| 0 <= k < i ==> !#[trigger] v2@[k],
        decreases 512 - i,
    {
        v2.push(false);
        i = i + 1;
    }
    let mut v1: Vec<bool> = Vec::new();
    let mut j: usize = 0;
    while j < 512 * 512
        invariant
            j <= 512 * 512,
            v1@.len() == j,
            forall|k: int| 0 <= k < j ==> !#[trigger] v1@[k],
        decreases 512 * 512 - j,
    {
        v1.push(false);
        j = j + 1;
    }
    let ghost mut c2 = Set::<int>::empty();
    let ghost mut c1 = Set::<(int, int)>::empty();
    proof {
        assert forall|a: int, b: int| 0 <= a < 512 && 0 <= b < 512 implies #[trigger] v1@[a * 512
            + b] == c1.contains((a, b)) by {
            lemma_pair_index(a, b, 0, 0);
        }
    }
    let sections: [(usize, usize); 8] = [
        (layout.text_start(), layout.text_end()),
        (layout.rodata_start(), layout.rodata_end()),
        (layout.data_start(), layout.data_end()),
        (layout.bss_start(), layout.bss_end()),
        (layout.stack_start(), layout.stack_end()),
        (layout.heap_start(), layout.memory_end()),
        (UART_BASE, UART_BASE + PAGE_SIZE),
        (MMIO_VIRTIO_START, MMIO_VIRTIO_END + MMIO_VIRTIO_STRIDE),
    ];
    assert(forall|k: int| 0 <= k < 8 ==> #[trigger] sections@[k] == kernel_sections(*layout)[k]);
    let mut count: usize = 0;
    let mut k: usize = 0;
    while k < 8
        invariant
            usize::BITS == 64,
            k <= 8,
            layout_ok(*layout),
            forall|q: int| 0 <= q < 8 ==> #[trigger] sections@[q] == kernel_sections(*layout)[q],
            flags_hold(v2@, v1@, c2, c1),
            count + sections_tables(*layout, k as int, c2, c1) == kernel_tables(*layout),
            count <= k * 0x20_0000_0000_0000,
        decreases 8 - k,
    {
        let (start, end) = sections[k];
        assert(end + 4095 <= usize::MAX) by {
            assert(kernel_sections(*layout)[k as int].1 + 4095 <= usize::MAX);
        }
        let lo = align_down(start, PAGE_SIZE);
        let hi = align_up(end, PAGE_SIZE);
        proof {
            assert(lo % 4096 == 0 && hi % 4096 == 0);
            assert(range_pages(lo, hi) == section_pages(start, end));
            assert(range_pages(lo, hi) <= 0x10_0000_0000_0000);
        }
        let n = count_range_tables(&mut v2, &mut v1, lo, hi, Ghost(c2), Ghost(c1));
        proof {
            let after = range_sets(c2, c1, lo, range_pages(lo, hi));
            c2 = after.0;
            c1 = after.1;
        }
        count = count + n;
        k = k + 1;
    }
    count
}

/// A section that holds `va` makes `last_section` name one.
proof fn lemma_last_section_some(l: KernelLayout, va: usize, n: int, k: int)
    requires
        0 <= k < n,
        in_section(va, kernel_sections(l)[k].0, kernel_sections(l)[k].1),
    ensures
        last_section(l, va, n) is Some,
    decreases n,
{
    if k < n - 1 && !in_section(va, kernel_sections(l)[n - 1].0, kernel_sections(l)[n - 1].1) {
        lemma_last_section_some(l, va, n - 1, k);
    }
}

/// The permissions of the kernel's pages, by section: a page of the
/// data, bss, boot stack or heap sections, or of the UART or VirtIO
/// windows, is mapped read+write (R|W|A|D, 0xc6) unless it also lies in
/// the code or read-only data; a page only in the code is mapped
/// read+execute (R|X|A, 0x4a); a page only in the read-only data is
/// mapped read-only (R|A, 0x42). Each maps to itself. `h` and `r` are a
/// table `map_kernel` built for `l`.
pub proof fn lemma_kernel_permissions(h: Heap, r: int, l: KernelLayout)
    requires
        kernel_leaves(h, r, l),
    ensures
        forall|p: usize|
            p % 4096 == 0 && (in_section(p, l.data_start, l.data_end) || in_section(
                p,
                l.bss_start,
                l.bss_end,
            ) || in_section(p, l.stack_start, l.stack_end) || in_section(p, l.heap_start, l.memory_end)
                || in_section(p, UART_BASE, (UART_BASE + 4096) as usize) || in_section(
                p,
                MMIO_VIRTIO_START,
                (MMIO_VIRTIO_END + MMIO_VIRTIO_STRIDE) as usize,
            )) && !in_section(p, l.text_start, l.text_end) && !in_section(
                p,
                l.rodata_start,
                l.rodata_end,
            ) ==> #[trigger] entry_at(h, r, p, 0) == leaf_pte(p, 0xc6i64),
        forall|p: usize|
            p % 4096 == 0 && in_section(p, l.text_start, l.text_end) && !in_section(
                p,
                l.rodata_start,
                l.rodata_end,
            ) && !in_section(p, l.data_start, l.data_end) && !in_section(p, l.bss_start, l.bss_end)
                && !in_section(p, l.stack_start, l.stack_end) && !in_section(
                p,
                l.heap_start,
                l.memory_end,
            ) && !in_section(p, UART_BASE, (UART_BASE + 4096) as usize) && !in_section(
                p,
                MMIO_VIRTIO_START,
                (MMIO_VIRTIO_END + MMIO_VIRTIO_STRIDE) as usize,
            ) ==> #[trigger] entry_at(h, r, p, 0) == leaf_pte(p, 0x4ai64),
        forall|p: usize|
            p % 4096 == 0 && in_section(p, l.rodata_start, l.rodata_end) && !in_section(
                p,
                l.text_start,
                l.text_end,
            ) && !in_section(p, l.data_start, l.data_end) && !in_section(p, l.bss_start, l.bss_end)
                && !in_section(p, l.stack_start, l.stack_end) && !in_section(
                p,
                l.heap_start,
                l.memory_end,
            ) && !in_section(p, UART_BASE, (UART_BASE + 4096) as usize) && !in_section(
                p,
                MMIO_VIRTIO_START,
                (MMIO_VIRTIO_END + MMIO_VIRTIO_STRIDE) as usize,
            ) ==> #[trigger] entry_at(h, r, p, 0) == leaf_pte(p, 0x42i64),
{
    let s = kernel_sections(l);
    assert(s[0] == (l.text_start, l.text_end) && s[1] == (l.rodata_start, l.rodata_end) && s[2] == (
    l.data_start, l.data_end) && s[3] == (l.bss_start, l.bss_end) && s[4] == (
    l.stack_start, l.stack_end) && s[5] == (l.heap_start, l.memory_end) && s[6] == (
    UART_BASE, (UART_BASE + 4096) as usize) && s[7] == (
    MMIO_VIRTIO_START, (MMIO_VIRTIO_END + MMIO_VIRTIO_STRIDE) as usize));
    assert forall|p: usize|
        p % 4096 == 0 && (in_section(p, l.data_start, l.data_end) || in_section(
            p,
            l.bss_start,
            l.bss_end,
        ) || in_section(p, l.stack_start, l.stack_end) || in_section(p, l.heap_start, l.memory_end)
            || in_section(p, UART_BASE, (UART_BASE + 4096) as usize) || in_section(
            p,
            MMIO_VIRTIO_START,
            (MMIO_VIRTIO_END + MMIO_VIRTIO_STRIDE) as usize,
        )) && !in_section(p, l.text_start, l.text_end) && !in_section(
            p,
            l.rodata_start,
            l.rodata_end,
        ) implies #[trigger] entry_at(h, r, p, 0) == leaf_pte(p, 0xc6i64) by {
        if in_section(p, l.data_start, l.data_end) {
            lemma_last_section_some(l, p, 8, 2);
        } else if in_section(p, l.bss_start, l.bss_end) {
            lemma_last_section_some(l, p, 8, 3);
        } else if in_section(p, l.stack_start, l.stack_end) {
            lemma_last_section_some(l, p, 8, 4);
        } else if in_section(p, l.heap_start, l.memory_end) {
            lemma_last_section_some(l, p, 8, 5);
        } else if in_section(p, UART_BASE, (UART_BASE + 4096) as usize) {
            lemma_last_section_some(l, p, 8, 6);
        } else {
            lemma_last_section_some(l, p, 8, 7);
        }
        lemma_last_section(l, p, 8);
        let j = last_section(l, p, 8).unwrap();
        assert(j != 0 && j != 1);
        assert(section_flags(j) == 0xc6i64);
    }
    assert forall|p: usize|
        p % 4096 == 0 && in_section(p, l.text_start, l.text_end) && !in_section(
            p,
            l.rodata_start,
            l.rodata_end,
        ) && !in_section(p, l.data_start, l.data_end) && !in_section(p, l.bss_start, l.bss_end)
            && !in_section(p, l.stack_start, l.stack_end) && !in_section(
            p,
            l.heap_start,
            l.memory_end,
        ) && !in_section(p, UART_BASE, (UART_BASE + 4096) as usize) && !in_section(
            p,
            MMIO_VIRTIO_START,
            (MMIO_VIRTIO_END + MMIO_VIRTIO_STRIDE) as usize,
        ) implies #[trigger] entry_at(h, r, p, 0) == leaf_pte(p, 0x4ai64) by {
        lemma_last_section_some(l, p, 8, 0);
        lemma_last_section(l, p, 8);
        assert(last_section(l, p, 8).unwrap() == 0);
        assert(section_flags(0) == 0x4ai64);
    }
    assert forall|p: usize|
        p % 4096 == 0 && in_section(p, l.rodata_start, l.rodata_end) && !in_section(
            p,
            l.text_start,
            l.text_end,
        ) && !in_section(p, l.data_start, l.data_end) && !in_section(p, l.bss_start, l.bss_end)
            && !in_section(p, l.stack_start, l.stack_end) && !in_section(
            p,
            l.heap_start,
            l.memory_end,
        ) && !in_section(p, UART_BASE, (UART_BASE + 4096) as usize) && !in_section(
            p,
            MMIO_VIRTIO_START,
            (MMIO_VIRTIO_END + MMIO_VIRTIO_STRIDE) as usize,
        ) implies #[trigger] entry_at(h, r, p, 0) == leaf_pte(p, 0x42i64) by {
        lemma_last_section_some(l, p, 8, 1);
        lemma_last_section(l, p, 8);
        assert(last_section(l, p, 8).unwrap() == 1);
        assert(section_flags(1) == 0x42i64);
    }
}

} // verus!

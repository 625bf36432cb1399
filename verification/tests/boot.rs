use vesper::boot::entry::{kernel_table_count, map_kernel, map_section};
use vesper::linker::KernelLayout;
use vesper::mm::allocator::page_frame::{Heap, PAGE_SIZE, init};
use vesper::mm::paging::sv39::map::{new_table, v2p};
use vesper::mm::paging::sv39::types::PteFlags;
use vesper::page;

fn layout() -> KernelLayout {
    KernelLayout {
        text_start: 0x8000_0000,
        text_end: 0x8000_1800,
        rodata_start: 0x8000_2000,
        rodata_end: 0x8000_2100,
        data_start: 0x8000_3000,
        data_end: 0x8000_3008,
        bss_start: 0x8000_4000,
        bss_end: 0x8000_4800,
        stack_start: 0x8000_5000,
        stack_end: 0x8000_7000,
        heap_start: 0x8010_0000,
        heap_size: 0x4_0000,
        memory_end: 0x8014_0000,
    }
}

#[test]
fn layout_getters() {
    let l = layout();
    assert_eq!(l.text_start(), 0x8000_0000);
    assert_eq!(l.text_end(), 0x8000_1800);
    assert_eq!(l.rodata_start(), 0x8000_2000);
    assert_eq!(l.rodata_end(), 0x8000_2100);
    assert_eq!(l.data_start(), 0x8000_3000);
    assert_eq!(l.data_end(), 0x8000_3008);
    assert_eq!(l.bss_start(), 0x8000_4000);
    assert_eq!(l.bss_end(), 0x8000_4800);
    assert_eq!(l.stack_start(), 0x8000_5000);
    assert_eq!(l.stack_end(), 0x8000_7000);
    assert_eq!(l.heap_start(), 0x8010_0000);
    assert_eq!(l.heap_size(), 0x4_0000);
    assert_eq!(l.memory_end(), 0x8014_0000);
}

#[test]
fn sections_are_rounded_out_to_pages() {
    let mut heap = init(0x8010_0000, 0x4_0000);
    let root = new_table(&mut heap).unwrap();
    let rw = PteFlags::read() | PteFlags::write();
    map_section(&mut heap, root, 0x8000_0123, 0x8000_1001, rw);
    assert_eq!(v2p(&heap, root, 0x8000_0000), Some(0x8000_0000));
    assert_eq!(v2p(&heap, root, 0x8000_1fff), Some(0x8000_1fff));
    assert_eq!(v2p(&heap, root, 0x8000_2000), None);
}

#[test]
fn kernel_table_identity_maps_every_section() {
    let l = layout();
    let mut heap = init(l.heap_start, l.heap_size);
    let (root, satp) = map_kernel(&mut heap, &l);
    assert_eq!(root, heap.alloc_start());
    assert_eq!(satp, (8 << 60) | (root >> 12));
    for a in [
        0x8000_0000usize,
        0x8000_17ff,
        0x8000_2fff,
        0x8000_3004,
        0x8000_6fff,
        0x8013_ffff,
        0x1000_0005,
        0x1000_1000,
        0x1000_8ffc,
    ] {
        assert_eq!(v2p(&heap, root, a), Some(a), "{:#x}", a);
    }
    for a in [0x8000_8000usize, 0x8014_0000, 0x1000_9000, 0x0c00_0000] {
        assert_eq!(v2p(&heap, root, a), None, "{:#x}", a);
    }
}

#[test]
fn legacy_pte_flag_bits() {
    assert_eq!(page::PteFlags::Valid.bits(), 1);
    assert_eq!(page::PteFlags::Execute.bits(), 8);
    assert_eq!(page::PteFlags::Dirty.bits(), 128);
    assert_eq!(page::PTE_RWX_MASK, 0xe);
    assert_eq!(page::Table::len(), 512);
    assert_eq!(page::PAGE_SIZE, 4096);
}

/// The level-0 entry the walk for `va` ends at.
fn leaf_entry(heap: &Heap, root: usize, va: usize) -> i64 {
    let next = |e: i64| ((e & !0x3ff) << 2) as usize;
    let e2 = heap.read_word(root, (va >> 30) & 0x1ff);
    let e1 = heap.read_word(next(e2), (va >> 21) & 0x1ff);
    heap.read_word(next(e1), (va >> 12) & 0x1ff)
}

#[test]
fn kernel_sections_carry_their_permissions() {
    let l = layout();
    let mut heap = init(l.heap_start, l.heap_size);
    let (root, _) = map_kernel(&mut heap, &l);
    // Valid plus: R|X|A for text, R|A for rodata, R|W|A|D elsewhere.
    assert_eq!(leaf_entry(&heap, root, 0x8000_1000) & 0x3ff, 0x4b);
    assert_eq!(leaf_entry(&heap, root, 0x8000_2000) & 0x3ff, 0x43);
    assert_eq!(leaf_entry(&heap, root, 0x8000_3000) & 0x3ff, 0xc7);
    assert_eq!(leaf_entry(&heap, root, 0x1000_0000) & 0x3ff, 0xc7);
    // The page number is the page's own.
    assert_eq!((leaf_entry(&heap, root, 0x8000_1000) >> 10) << 12, 0x8000_1000);
}

#[test]
fn kernel_table_count_matches_what_mapping_takes() {
    let l = layout();
    // Root 2 (RAM) holds the kernel and the heap: one level-1 table and one
    // level-0 table; root 0 holds the UART and VirtIO windows: one of each.
    assert_eq!(kernel_table_count(&l), 4);
    let mut heap = init(l.heap_start, l.heap_size);
    let before = vesper::mm::allocator::page_frame::free_page_count(&heap);
    map_kernel(&mut heap, &l);
    assert_eq!(vesper::mm::allocator::page_frame::free_page_count(&heap), before - 5);
}

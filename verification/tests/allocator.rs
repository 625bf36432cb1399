use vesper::mm::allocator::page_frame::{PAGE_SIZE, allocate, deallocate, init, zallocate};

#[test]
fn init_places_data_pages_after_descriptors() {
    // 16 pages of heap at 0x8000_0000: 16 descriptor bytes, data from the next page.
    let heap = init(0x8000_0000, 16 * PAGE_SIZE);
    assert_eq!(heap.alloc_start(), 0x8000_1000);
}

#[test]
fn allocate_is_first_fit() {
    let mut heap = init(0x8000_0000, 16 * PAGE_SIZE);
    let a = allocate(&mut heap, 2).unwrap();
    let b = allocate(&mut heap, 1).unwrap();
    assert_eq!(a, 0x8000_1000);
    assert_eq!(b, 0x8000_3000);
}

#[test]
fn deallocate_makes_the_run_reusable() {
    let mut heap = init(0x8000_0000, 16 * PAGE_SIZE);
    let a = allocate(&mut heap, 3).unwrap();
    let _b = allocate(&mut heap, 1).unwrap();
    deallocate(&mut heap, a);
    assert_eq!(allocate(&mut heap, 3), Some(a));
}

#[test]
fn allocate_fails_when_no_window_fits() {
    let mut heap = init(0x8000_0000, 4 * PAGE_SIZE);
    assert_eq!(allocate(&mut heap, 5), None);
}

#[test]
fn zallocate_zeroes_the_pages() {
    let mut heap = init(0x8000_0000, 8 * PAGE_SIZE);
    let a = allocate(&mut heap, 1).unwrap();
    heap.write_word(a, 7, 0x1234);
    deallocate(&mut heap, a);
    let z = zallocate(&mut heap, 1).unwrap();
    assert_eq!(z, a);
    assert_eq!(heap.read_word(z, 7), 0);
}

#[test]
fn free_count_and_room_queries() {
    let mut heap = init(0x8000_0000, 8 * PAGE_SIZE);
    assert_eq!(heap.heap_end(), 0x8000_8000);
    // The first page holds the descriptors: seven data pages remain.
    assert_eq!(vesper::mm::allocator::page_frame::free_page_count(&heap), 7);
    assert!(vesper::mm::allocator::page_frame::can_allocate(&heap, 7));
    assert!(!vesper::mm::allocator::page_frame::can_allocate(&heap, 8));
    let a = allocate(&mut heap, 3).unwrap();
    assert_eq!(vesper::mm::allocator::page_frame::free_page_count(&heap), 4);
    assert!(!vesper::mm::allocator::page_frame::can_allocate(&heap, 5));
    deallocate(&mut heap, a);
    assert!(vesper::mm::allocator::page_frame::can_allocate(&heap, 7));
}

#[test]
fn allocations_stay_inside_the_heap() {
    // A one-page heap holds only its descriptor byte: nothing to hand out.
    let mut tiny = init(0x1000, PAGE_SIZE);
    assert_eq!(allocate(&mut tiny, 1), None);
    // Every page handed out ends at or before the heap's end.
    let mut heap = init(0x8000_0000, 4 * PAGE_SIZE);
    let mut last = 0;
    while let Some(p) = allocate(&mut heap, 1) {
        assert!(p + PAGE_SIZE <= heap.heap_end());
        last = p;
    }
    assert_eq!(last, 0x8000_3000);
}

#[test]
fn freeing_an_allocation_restores_the_table() {
    let mut heap = init(0x8000_0000, 16 * PAGE_SIZE);
    let _a = allocate(&mut heap, 2).unwrap();
    let before = vesper::mm::allocator::page_frame::free_page_count(&heap);
    let b = allocate(&mut heap, 4).unwrap();
    deallocate(&mut heap, b);
    assert_eq!(vesper::mm::allocator::page_frame::free_page_count(&heap), before);
    assert_eq!(allocate(&mut heap, 4), Some(b));
}

use vesper::mm::allocator::page_frame::{PAGE_SIZE, init};
use vesper::mm::paging::sv39::map::{id_map_range, new_table, unmap, v2p};
use vesper::mm::paging::sv39::types::{Entry, PteFlags, Table};

fn rw() -> PteFlags {
    PteFlags::read() | PteFlags::write()
}

#[test]
fn fresh_table_maps_nothing() {
    let mut heap = init(0x8000_0000, 32 * PAGE_SIZE);
    let root = new_table(&mut heap).unwrap();
    assert_eq!(root, 0x8000_1000);
    assert_eq!(v2p(&heap, root, 0x8000_0000), None);
    assert_eq!(v2p(&heap, root, 0), None);
}

#[test]
fn map_then_translate_a_4k_page() {
    let mut heap = init(0x8000_0000, 32 * PAGE_SIZE);
    let root = new_table(&mut heap).unwrap();
    vesper::mm::paging::sv39::map::map(&mut heap, root, 0x1000_0000, 0x8020_0000, rw(), 0);
    assert_eq!(v2p(&heap, root, 0x1000_0000), Some(0x8020_0000));
    assert_eq!(v2p(&heap, root, 0x1000_0abc), Some(0x8020_0abc));
    // The next page is not mapped.
    assert_eq!(v2p(&heap, root, 0x1000_1000), None);
}

#[test]
fn map_a_gigapage_at_level_2() {
    let mut heap = init(0x8000_0000, 8 * PAGE_SIZE);
    let root = new_table(&mut heap).unwrap();
    vesper::mm::paging::sv39::map::map(&mut heap, root, 0x4000_0000, 0x8000_0000, rw(), 2);
    assert_eq!(v2p(&heap, root, 0x4012_3456), Some(0x8012_3456));
}

#[test]
fn map_a_megapage_at_level_1() {
    let mut heap = init(0x8000_0000, 8 * PAGE_SIZE);
    let root = new_table(&mut heap).unwrap();
    vesper::mm::paging::sv39::map::map(&mut heap, root, 0x0020_0000, 0x8040_0000, rw(), 1);
    assert_eq!(v2p(&heap, root, 0x0021_2345), Some(0x8041_2345));
    assert_eq!(v2p(&heap, root, 0x0040_0000), None);
}

#[test]
fn id_map_range_maps_each_page_to_itself() {
    let mut heap = init(0x8000_0000, 32 * PAGE_SIZE);
    let root = new_table(&mut heap).unwrap();
    id_map_range(&mut heap, root, 0x8000_0000, 0x8000_4000, rw());
    for a in [0x8000_0000usize, 0x8000_1234, 0x8000_3fff] {
        assert_eq!(v2p(&heap, root, a), Some(a));
    }
    assert_eq!(v2p(&heap, root, 0x8000_4000), None);
}

#[test]
fn id_map_range_above_the_walk_bits() {
    // A page at 2^39 shares the walk of page 0 and maps to itself.
    let mut heap = init(0x8000_0000, 32 * PAGE_SIZE);
    let root = new_table(&mut heap).unwrap();
    let base = 1usize << 39;
    id_map_range(&mut heap, root, base, base + 2 * PAGE_SIZE, rw());
    assert_eq!(v2p(&heap, root, base), Some(base));
    assert_eq!(v2p(&heap, root, base + PAGE_SIZE + 0x10), Some(base + PAGE_SIZE + 0x10));
    // Page 0 has the same walk, so it reaches the same entry.
    assert_eq!(v2p(&heap, root, 0), Some(base));
}

#[test]
fn unmap_drops_every_mapping_under_the_root() {
    let mut heap = init(0x8000_0000, 32 * PAGE_SIZE);
    let root = new_table(&mut heap).unwrap();
    vesper::mm::paging::sv39::map::map(&mut heap, root, 0x1000_0000, 0x8020_0000, rw(), 0);
    let probe = heap.read_word(root, 0);
    unmap(&mut heap, root);
    assert_eq!(v2p(&heap, root, 0x1000_0000), None);
    // The level-1 and level-0 tables went back to the allocator.
    let again = new_table(&mut heap).unwrap();
    assert_eq!(again, root + PAGE_SIZE);
    assert_ne!(probe, 0);
    assert_eq!(heap.read_word(root, 0), 0);
}

#[test]
fn entry_flags() {
    let mut e = Entry::from_raw(0);
    assert!(e.is_invalid());
    e.set_entry(0x1 | 0x2);
    assert!(e.is_valid());
    assert!(e.is_leaf());
    assert!(!e.is_branch());
    e.set_entry(0x1);
    assert!(e.is_branch());
    assert_eq!(e.get_entry(), 1);
    assert_eq!(Table::len(), 512);
}

#[test]
fn pte_flag_bits() {
    assert_eq!(PteFlags::valid().bits(), 1);
    assert_eq!(PteFlags::dirty().bits(), 128);
    assert_eq!((PteFlags::read() | PteFlags::execute()).bits(), 10);
    let mut f = PteFlags::read();
    f |= PteFlags::accessed();
    assert_eq!(f.bits(), 66);
    assert_eq!(PteFlags::rwx().bits(), 0xe);
    assert_eq!(PteFlags::empty().bits(), 0);
}

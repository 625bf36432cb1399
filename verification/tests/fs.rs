use vesper::fs::minix3::blocks::{Buffer, Disk};
use vesper::fs::minix3::{DirEntry, Fs, FsError, Inode, SuperBlock};
use vesper::mm::allocator::page_frame::{Heap, PAGE_SIZE, allocate, free_page_count, init};

const K: usize = 1024;

fn put16(b: &mut [u8], off: usize, v: u16) {
    b[off..off + 2].copy_from_slice(&v.to_le_bytes());
}

fn put32(b: &mut [u8], off: usize, v: u32) {
    b[off..off + 4].copy_from_slice(&v.to_le_bytes());
}

fn byte_of(zone: usize, i: usize) -> u8 {
    ((zone * 31 + i) % 251) as u8
}

/// A Minix 3 image: one inode-bitmap and one zone-bitmap block, so the
/// inode table starts at block 4. Inode 2 is a regular file of `size`
/// bytes with the given zones; data zones hold a recognisable pattern.
fn image(size: u32, zones: [u32; 10], blocks: usize) -> Vec<u8> {
    let mut d = vec![0u8; blocks * K];
    let sb = K;
    put32(&mut d, sb, 16); // ninodes
    put16(&mut d, sb + 6, 1); // imap_blocks
    put16(&mut d, sb + 8, 1); // zmap_blocks
    put16(&mut d, sb + 24, 0x4d5a); // magic
    put16(&mut d, sb + 28, 1024);
    let ino = 4 * K + 64; // inode 2
    put16(&mut d, ino, 0o100644);
    put16(&mut d, ino + 2, 1);
    put32(&mut d, ino + 8, size);
    for (i, z) in zones.iter().enumerate() {
        put32(&mut d, ino + 24 + 4 * i, *z);
    }
    // Inode 1: the root directory.
    put16(&mut d, 4 * K, 0o040755);
    for z in 10..blocks {
        for i in 0..K {
            d[z * K + i] = byte_of(z, i);
        }
    }
    d
}

/// A heap with room for the reader's scratch pages.
fn heap() -> Heap {
    init(0x8000_0000, 64 * PAGE_SIZE)
}

fn zones(list: &[u32]) -> [u32; 10] {
    let mut z = [0u32; 10];
    z[..list.len()].copy_from_slice(list);
    z
}

#[test]
fn mount_reads_the_superblock() {
    let disk = Disk::new(image(0, [0; 10], 16));
    let fs = Fs::mount(7, &mut heap(), &disk).ok().unwrap();
    assert_eq!(fs.dev, 7);
    assert_eq!(fs.sb.ninodes, 16);
    assert_eq!(fs.sb.magic, 0x4d5a);
    assert_eq!(fs.sb.block_size, 1024);
}

#[test]
fn mount_rejects_bad_magic_and_short_disks() {
    let mut d = image(0, [0; 10], 16);
    d[K + 24] = 0;
    assert!(matches!(Fs::mount(0, &mut heap(), &Disk::new(d)), Err(FsError::BadMagic)));
    assert!(matches!(Fs::mount(0, &mut heap(), &Disk::new(vec![0u8; 1500])), Err(FsError::BlockReadFailed)));
}

#[test]
fn read_inode_decodes_the_entry() {
    let disk = Disk::new(image(1500, zones(&[10, 11]), 16));
    let fs = Fs::mount(0, &mut heap(), &disk).ok().unwrap();
    let node = fs.read_inode(&mut heap(), &disk, 2).ok().unwrap();
    assert_eq!(node.size, 1500);
    assert_eq!(node.zones[0], 10);
    assert_eq!(node.zones[1], 11);
    assert!(node.is_regular());
    assert!(!node.is_dir());
    let root = fs.read_inode(&mut heap(), &disk, 1).ok().unwrap();
    assert!(root.is_dir());
}

#[test]
fn read_inode_rejects_out_of_range_numbers() {
    let disk = Disk::new(image(0, [0; 10], 16));
    let fs = Fs::mount(0, &mut heap(), &disk).ok().unwrap();
    assert!(matches!(fs.read_inode(&mut heap(), &disk, 0), Err(FsError::InodeOutOfRange)));
    assert!(matches!(fs.read_inode(&mut heap(), &disk, 17), Err(FsError::InodeOutOfRange)));
}

#[test]
fn read_file_across_two_direct_zones() {
    let disk = Disk::new(image(1500, zones(&[10, 11]), 16));
    let fs = Fs::mount(0, &mut heap(), &disk).ok().unwrap();
    let node = fs.read_inode(&mut heap(), &disk, 2).ok().unwrap();
    let mut out = vec![0xeeu8; 2000];
    let n = fs.read_file(&mut heap(), &disk, &node, 100, &mut out).ok().unwrap();
    // Capped at the 1400 bytes left past offset 100.
    assert_eq!(n, 1400);
    assert_eq!(out[0], byte_of(10, 100));
    assert_eq!(out[923], byte_of(10, 1023));
    assert_eq!(out[924], byte_of(11, 0));
    assert_eq!(out[1399], byte_of(11, 475));
    assert_eq!(out[1400], 0xee);
}

#[test]
fn read_file_past_the_end_reads_nothing() {
    let disk = Disk::new(image(1500, zones(&[10, 11]), 16));
    let fs = Fs::mount(0, &mut heap(), &disk).ok().unwrap();
    let node = fs.read_inode(&mut heap(), &disk, 2).ok().unwrap();
    let mut out = vec![0u8; 16];
    assert_eq!(fs.read_file(&mut heap(), &disk, &node, 1500, &mut out).ok(), Some(0));
    assert_eq!(fs.read_file(&mut heap(), &disk, &node, 0, &mut Vec::new()).ok(), Some(0));
}

#[test]
fn read_file_skips_holes() {
    let disk = Disk::new(image(3000, zones(&[10, 0, 11]), 16));
    let fs = Fs::mount(0, &mut heap(), &disk).ok().unwrap();
    let node = fs.read_inode(&mut heap(), &disk, 2).ok().unwrap();
    let mut out = vec![0u8; 3000];
    let n = fs.read_file(&mut heap(), &disk, &node, 0, &mut out).ok().unwrap();
    // The hole's kilobyte is skipped, not copied.
    assert_eq!(n, 1024 + 952);
    assert_eq!(out[1023], byte_of(10, 1023));
    assert_eq!(out[1024], byte_of(11, 0));
}

#[test]
fn read_file_through_the_single_indirect_zone() {
    let mut z = zones(&[10, 10, 10, 10, 10, 10, 10]);
    z[7] = 12;
    let mut d = image(7 * 1024 + 500, z, 16);
    // The indirect block lists zone 13.
    for i in 0..K {
        d[12 * K + i] = 0;
    }
    put32(&mut d, 12 * K, 13);
    let disk = Disk::new(d);
    let fs = Fs::mount(0, &mut heap(), &disk).ok().unwrap();
    let node = fs.read_inode(&mut heap(), &disk, 2).ok().unwrap();
    let mut out = vec![0u8; 500];
    let n = fs.read_file(&mut heap(), &disk, &node, 7 * 1024, &mut out).ok().unwrap();
    assert_eq!(n, 500);
    assert_eq!(out[0], byte_of(13, 0));
    assert_eq!(out[499], byte_of(13, 499));
}

#[test]
fn read_file_reports_a_zone_off_the_disk() {
    let disk = Disk::new(image(1500, zones(&[10, 40]), 16));
    let fs = Fs::mount(0, &mut heap(), &disk).ok().unwrap();
    let node = fs.read_inode(&mut heap(), &disk, 2).ok().unwrap();
    let mut out = vec![0u8; 1500];
    assert!(matches!(fs.read_file(&mut heap(), &disk, &node, 0, &mut out), Err(FsError::BlockReadFailed)));
    // What was read before the failure stays in the buffer.
    assert_eq!(out[5], byte_of(10, 5));
}

#[test]
fn disk_reads_whole_sectors() {
    let disk = Disk::new((0..2048u32).map(|i| (i % 256) as u8).collect());
    // Offset 700 starts the read at its sector, byte 512.
    let r = disk.read(700, 4).unwrap();
    assert_eq!(r, vec![0, 1, 2, 3]);
    assert_eq!(disk.read(1536, 1024), None);
}

#[test]
fn superblock_and_inode_from_bytes() {
    let d = image(77, zones(&[10]), 16);
    let sb = SuperBlock::from_bytes(&d[K..K + 32]);
    assert_eq!(sb.imap_blocks, 1);
    let node = Inode::from_bytes(&d[4 * K..5 * K], 64);
    assert_eq!(node.size, 77);
    assert_eq!(node.nlinks, 1);
}

#[test]
fn dir_entry_names() {
    let mut name = [0u8; 60];
    name[..5].copy_from_slice(b"hello");
    let e = DirEntry { inode: 3, name };
    assert_eq!(e.name_str(), "hello");
    let full = DirEntry { inode: 3, name: [b'a'; 60] };
    assert_eq!(full.name_str().len(), 60);
    let mut bad = [0u8; 60];
    bad[0] = 0xff;
    assert_eq!(DirEntry { inode: 3, name: bad }.name_str(), "<bad utf8>");
}

#[test]
fn buffers_take_whole_pages() {
    let mut heap = init(0x8000_0000, 16 * PAGE_SIZE);
    let b = Buffer::new(&mut heap, 5000).unwrap();
    assert_eq!(b.as_ptr(), 0x8000_1000);
    assert_eq!(b.as_mut_ptr(), 0x8000_1000);
    // Two pages went to the buffer.
    assert_eq!(allocate(&mut heap, 1), Some(0x8000_3000));
    b.release(&mut heap);
    assert_eq!(allocate(&mut heap, 2), Some(0x8000_1000));
}

#[test]
fn read_file_hole_before_the_offset_does_not_rewind() {
    // Block 0 is a hole; the read starts in block 1.
    let disk = Disk::new(image(3000, zones(&[0, 10, 11]), 16));
    let fs = Fs::mount(0, &mut heap(), &disk).ok().unwrap();
    let node = fs.read_inode(&mut heap(), &disk, 2).ok().unwrap();
    let mut out = vec![0xeeu8; 2000];
    let n = fs.read_file(&mut heap(), &disk, &node, 2000, &mut out).ok().unwrap();
    assert_eq!(n, 1000);
    assert_eq!(out[0], byte_of(10, 2000 - 1024));
    assert_eq!(out[47], byte_of(10, 1023));
    assert_eq!(out[48], byte_of(11, 0));
    assert_eq!(out[999], byte_of(11, 951));
    assert_eq!(out[1000], 0xee);
}

#[test]
fn read_file_hole_in_the_single_indirect_range() {
    // No single indirect table: blocks 7.. are holes up to the double
    // indirect range, so a read there copies nothing.
    let disk = Disk::new(image(9 * 1024, zones(&[10, 10, 10, 10, 10, 10, 10]), 16));
    let fs = Fs::mount(0, &mut heap(), &disk).ok().unwrap();
    let node = fs.read_inode(&mut heap(), &disk, 2).ok().unwrap();
    let mut out = vec![0xeeu8; 1024];
    assert_eq!(fs.read_file(&mut heap(), &disk, &node, 7 * 1024, &mut out).ok(), Some(0));
    assert_eq!(out[0], 0xee);
}

#[test]
fn reader_needs_scratch_pages_and_gives_them_back() {
    let disk = Disk::new(image(1500, zones(&[10, 11]), 16));
    // A heap of 3 data pages (its 4 descriptor bytes take the first page).
    let mut small = init(0x8000_0000, 4 * PAGE_SIZE);
    assert_eq!(free_page_count(&small), 3);
    let fs = Fs::mount(0, &mut small, &disk).ok().unwrap();
    let node = fs.read_inode(&mut small, &disk, 2).ok().unwrap();
    let mut out = vec![0u8; 100];
    assert!(matches!(
        fs.read_file(&mut small, &disk, &node, 0, &mut out),
        Err(FsError::OutOfMemory)
    ));
    assert_eq!(out[0], 0);
    assert_eq!(free_page_count(&small), 3);
    // With four pages the read goes through, and all four come back.
    let mut enough = init(0x8000_0000, 5 * PAGE_SIZE);
    assert_eq!(free_page_count(&enough), 4);
    assert_eq!(fs.read_file(&mut enough, &disk, &node, 0, &mut out).ok(), Some(100));
    assert_eq!(free_page_count(&enough), 4);
    assert_eq!(out[1], byte_of(10, 1));
    // With no page at all, mounting and inode lookup fail too.
    let mut none = init(0x8000_0000, PAGE_SIZE);
    assert_eq!(free_page_count(&none), 0);
    assert!(matches!(Fs::mount(0, &mut none, &disk), Err(FsError::OutOfMemory)));
    assert!(matches!(fs.read_inode(&mut none, &disk, 2), Err(FsError::OutOfMemory)));
    assert!(matches!(fs.read_inode(&mut none, &disk, 0), Err(FsError::InodeOutOfRange)));
}

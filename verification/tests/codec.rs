use vesper::codec::{read_u16, read_u32, read_u64};
use vesper::mm::allocator::page_frame::PageDesc;

#[test]
fn little_endian_fields() {
    let b = [0x01u8, 0x02, 0x03, 0x04, 0x05, 0x06, 0x07, 0x08, 0x09];
    assert_eq!(read_u16(&b, 0), 0x0201);
    assert_eq!(read_u32(&b, 1), 0x0504_0302);
    assert_eq!(read_u64(&b, 1), 0x0908_0706_0504_0302);
}

#[test]
fn page_descriptor_bits() {
    let mut d = PageDesc(0);
    assert!(!d.is_taken() && !d.is_last());
    d.mark_taken();
    assert!(d.is_taken() && !d.is_last());
    d.mark_last();
    assert_eq!(d.0, 3);
    assert!(d.is_last());
    d.clear();
    assert_eq!(d.0, 0);
}

use vesper::exec::elf::{ElfError, MACHINE_RISCV, MAGIC, PT_LOAD, TYPE_EXEC, parse, program_headers};

fn put16(b: &mut [u8], off: usize, v: u16) {
    b[off..off + 2].copy_from_slice(&v.to_le_bytes());
}

fn put32(b: &mut [u8], off: usize, v: u32) {
    b[off..off + 4].copy_from_slice(&v.to_le_bytes());
}

fn put64(b: &mut [u8], off: usize, v: u64) {
    b[off..off + 8].copy_from_slice(&v.to_le_bytes());
}

/// A RISC-V executable with `phnum` program headers right after the
/// file header.
fn image(phnum: u16) -> Vec<u8> {
    let mut b = vec![0u8; 64 + 56 * phnum as usize];
    put32(&mut b, 0, MAGIC);
    b[4] = 2;
    b[5] = 1;
    put16(&mut b, 16, TYPE_EXEC);
    put16(&mut b, 18, MACHINE_RISCV);
    put32(&mut b, 20, 1);
    put64(&mut b, 24, 0x8000_0000);
    put64(&mut b, 32, 64);
    put16(&mut b, 54, 56);
    put16(&mut b, 56, phnum);
    for i in 0..phnum as usize {
        let o = 64 + 56 * i;
        put32(&mut b, o, PT_LOAD);
        put32(&mut b, o + 4, 5);
        put64(&mut b, o + 8, 0x1000 * i as u64);
        put64(&mut b, o + 16, 0x8000_0000 + 0x1000 * i as u64);
        put64(&mut b, o + 32, 0x200);
        put64(&mut b, o + 40, 0x300);
        put64(&mut b, o + 48, 0x1000);
    }
    b
}

#[test]
fn parse_accepts_a_riscv_executable() {
    let b = image(2);
    let h = parse(&b).ok().unwrap();
    assert_eq!(h.magic, 0x464c_457f);
    assert_eq!(h.entry_addr, 0x8000_0000);
    assert_eq!(h.phoff, 64);
    assert_eq!(h.phnum, 2);
    assert_eq!(h.bitsize, 2);
    assert_eq!(h.version, 1);
}

#[test]
fn parse_rejects_each_bad_field() {
    assert!(matches!(parse(&[0u8; 10]), Err(ElfError::Truncated)));
    let mut b = image(1);
    b[0] = 0;
    assert!(matches!(parse(&b), Err(ElfError::BadMagic)));
    let mut b = image(1);
    put16(&mut b, 18, 0x3e);
    assert!(matches!(parse(&b), Err(ElfError::NotRiscv)));
    let mut b = image(1);
    put16(&mut b, 16, 3);
    assert!(matches!(parse(&b), Err(ElfError::NotExecutable)));
}

#[test]
fn parse_rejects_a_header_table_past_the_end() {
    let mut b = image(2);
    b.truncate(64 + 56);
    assert!(matches!(parse(&b), Err(ElfError::Truncated)));
    let mut b = image(1);
    put64(&mut b, 32, u64::MAX);
    assert!(matches!(parse(&b), Err(ElfError::Truncated)));
}

#[test]
fn program_headers_decode_each_segment() {
    let b = image(3);
    let h = parse(&b).ok().unwrap();
    let phs = program_headers(&b, &h);
    assert_eq!(phs.len(), 3);
    assert_eq!(phs[2].seg_type, PT_LOAD);
    assert_eq!(phs[2].flags, 5);
    assert_eq!(phs[2].off, 0x2000);
    assert_eq!(phs[2].vaddr, 0x8000_2000);
    assert_eq!(phs[1].filesz, 0x200);
    assert_eq!(phs[1].memsz, 0x300);
    assert_eq!(phs[0].align, 0x1000);
}

#[test]
fn program_headers_step_by_the_entry_size() {
    // Two entries 64 bytes apart in a 192-byte image.
    let mut b = vec![0u8; 192];
    put32(&mut b, 0, MAGIC);
    put16(&mut b, 16, TYPE_EXEC);
    put16(&mut b, 18, MACHINE_RISCV);
    put64(&mut b, 32, 64);
    put16(&mut b, 54, 64);
    put16(&mut b, 56, 2);
    put32(&mut b, 64, PT_LOAD);
    put64(&mut b, 64 + 16, 0x1111);
    put32(&mut b, 128, PT_LOAD);
    put64(&mut b, 128 + 16, 0x2222);
    let h = parse(&b).ok().unwrap();
    let phs = program_headers(&b, &h);
    assert_eq!(phs.len(), 2);
    assert_eq!(phs[0].vaddr, 0x1111);
    assert_eq!(phs[1].seg_type, PT_LOAD);
    assert_eq!(phs[1].vaddr, 0x2222);
}

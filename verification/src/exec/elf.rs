//! Bare-minimum ELF64 parser.
//!
//! Just enough to validate the magic, machine, and type fields, then
//! walk the program-header table picking out the segments that need to
//! be mapped into a process's address space. Fields are little-endian,
//! as on RISC-V.

use vstd::prelude::*;

use crate::codec::{le_u16, le_u32, le_u64, read_u16, read_u32, read_u64};

verus! {

/// `\x7fELF`: first four bytes of every ELF file.
pub const MAGIC: u32 = 0x464c_457f;

/// e_machine for RISC-V.
pub const MACHINE_RISCV: u16 = 0xf3;

/// e_type for an executable file.
pub const TYPE_EXEC: u16 = 2;

/// p_type == LOAD: this header's bytes are mapped into memory.
pub const PT_LOAD: u32 = 1;

pub const PROG_EXECUTE: u32 = 1;

pub const PROG_WRITE: u32 = 2;

pub const PROG_READ: u32 = 4;

/// Size of the ELF64 file header.
pub const HEADER_SIZE: usize = 64;

/// Size of an ELF64 program header.
pub const PROGRAM_HEADER_SIZE: usize = 56;

/// ELF64 file header, field for field as the file lays it out.
#[derive(Copy, Clone)]
pub struct Header {
    pub magic: u32,
    pub bitsize: u8,
    pub endian: u8,
    pub ident_abi_version: u8,
    pub target_platform: u8,
    pub abi_version: u8,
    pub padding: [u8; 7],
    pub obj_type: u16,
    pub machine: u16,
    pub version: u32,
    pub entry_addr: usize,
    pub phoff: usize,
    pub shoff: usize,
    pub flags: u32,
    pub ehsize: u16,
    pub phentsize: u16,
    pub phnum: u16,
    pub shentsize: u16,
    pub shnum: u16,
    pub shstrndx: u16,
}

/// ELF64 program header: describes one segment of the file.
#[derive(Copy, Clone, PartialEq, Eq, Structural, Debug)]
pub struct ProgramHeader {
    pub seg_type: u32,
    pub flags: u32,
    pub off: usize,
    pub vaddr: usize,
    pub paddr: usize,
    pub filesz: usize,
    pub memsz: usize,
    pub align: usize,
}

#[derive(Debug, Copy, Clone, PartialEq, Eq, Structural)]
pub enum ElfError {
    BadMagic,
    NotRiscv,
    NotExecutable,
    Truncated,
}

/// `h` is the file header encoded at the start of `b`.
pub open spec fn is_header_of(h: Header, b: Seq<u8>) -> bool {
    &&& h.magic == le_u32(b, 0)
    &&& h.bitsize == b[4]
    &&& h.endian == b[5]
    &&& h.ident_abi_version == b[6]
    &&& h.target_platform == b[7]
    &&& h.abi_version == b[8]
    &&& h.padding@ == b.subrange(9, 16)
    &&& h.obj_type == le_u16(b, 16)
    &&& h.machine == le_u16(b, 18)
    &&& h.version == le_u32(b, 20)
    &&& h.entry_addr == le_u64(b, 24)
    &&& h.phoff == le_u64(b, 32)
    &&& h.shoff == le_u64(b, 40)
    &&& h.flags == le_u32(b, 48)
    &&& h.ehsize == le_u16(b, 52)
    &&& h.phentsize == le_u16(b, 54)
    &&& h.phnum == le_u16(b, 56)
    &&& h.shentsize == le_u16(b, 58)
    &&& h.shnum == le_u16(b, 60)
    &&& h.shstrndx == le_u16(b, 62)
}

/// The program header encoded at byte `off` of `b`.
pub open spec fn program_header_at(b: Seq<u8>, off: int) -> ProgramHeader {
    ProgramHeader {
        seg_type: le_u32(b, off) as u32,
        flags: le_u32(b, off + 4) as u32,
        off: le_u64(b, off + 8) as usize,
        vaddr: le_u64(b, off + 16) as usize,
        paddr: le_u64(b, off + 24) as usize,
        filesz: le_u64(b, off + 32) as usize,
        memsz: le_u64(b, off + 40) as usize,
        align: le_u64(b, off + 48) as usize,
    }
}

/// Why `parse` refuses `b`, checked in this order, or `None` if it
/// accepts it.
pub open spec fn parse_error(b: Seq<u8>) -> Option<ElfError> {
    if b.len() < HEADER_SIZE {
        Some(ElfError::Truncated)
    } else if le_u32(b, 0) != MAGIC {
        Some(ElfError::BadMagic)
    } else if le_u16(b, 18) != MACHINE_RISCV {
        Some(ElfError::NotRiscv)
    } else if le_u16(b, 16) != TYPE_EXEC {
        Some(ElfError::NotExecutable)
    } else if le_u64(b, 32) + le_u16(b, 56) * le_u16(b, 54) > b.len() {
        // The program-header table must lie inside the image.
        Some(ElfError::Truncated)
    } else {
        None
    }
}

/// Decode the file header at the start of `b`.
fn header_from_bytes(b: &[u8]) -> (h: Header)
    requires
        usize::BITS == 64,
        HEADER_SIZE <= b@.len(),
    ensures
        is_header_of(h, b@),
{
    let _n = b.len();
    let padding = [b[9], b[10], b[11], b[12], b[13], b[14], b[15]];
    assert(padding@ =~= b@.subrange(9, 16));
    Header {
        magic: read_u32(b, 0),
        bitsize: b[4],
        endian: b[5],
        ident_abi_version: b[6],
        target_platform: b[7],
        abi_version: b[8],
        padding,
        obj_type: read_u16(b, 16),
        machine: read_u16(b, 18),
        version: read_u32(b, 20),
        entry_addr: read_u64(b, 24) as usize,
        phoff: read_u64(b, 32) as usize,
        shoff: read_u64(b, 40) as usize,
        flags: read_u32(b, 48),
        ehsize: read_u16(b, 52),
        phentsize: read_u16(b, 54),
        phnum: read_u16(b, 56),
        shentsize: read_u16(b, 58),
        shnum: read_u16(b, 60),
        shstrndx: read_u16(b, 62),
    }
}

/// Validate `buf`, the full file image, and return its header.
/// `phoff + phnum * phentsize` has to be in bounds for the
/// program-header walk to succeed.
pub fn parse(buf: &[u8]) -> (r: Result<Header, ElfError>)
    requires
        usize::BITS == 64,
    ensures
        match parse_error(buf@) {
            Some(e) => r == Err::<Header, ElfError>(e),
            None => r matches Ok(h) && is_header_of(h, buf@),
        },
{
    if buf.len() < HEADER_SIZE {
        return Err(ElfError::Truncated);
    }
    let hdr = header_from_bytes(buf);
    if hdr.magic != MAGIC {
        return Err(ElfError::BadMagic);
    }
    if hdr.machine != MACHINE_RISCV {
        return Err(ElfError::NotRiscv);
    }
    if hdr.obj_type != TYPE_EXEC {
        return Err(ElfError::NotExecutable);
    }
    assert(hdr.phnum * hdr.phentsize <= 0xffff * 0xffff) by (nonlinear_arith)
        requires
            hdr.phnum <= 0xffff,
            hdr.phentsize <= 0xffff,
    ;
    let table_bytes = hdr.phnum as usize * hdr.phentsize as usize;
    let ph_end = match hdr.phoff.checked_add(table_bytes) {
        Some(e) => e,
        None => return Err(ElfError::Truncated),
    };
    if ph_end > buf.len() {
        return Err(ElfError::Truncated);
    }
    Ok(hdr)
}

/// The `phnum` program headers, read at `phoff` one `phentsize` apart.
/// Each entry is at least a program header long.
pub fn program_headers(buf: &[u8], hdr: &Header) -> (r: Vec<ProgramHeader>)
    requires
        usize::BITS == 64,
        hdr.phentsize >= PROGRAM_HEADER_SIZE,
        hdr.phoff + hdr.phnum * hdr.phentsize <= buf@.len(),
    ensures
        r@.len() == hdr.phnum,
        forall|i: int|
            0 <= i < hdr.phnum ==> #[trigger] r@[i] == program_header_at(
                buf@,
                hdr.phoff + i * hdr.phentsize,
            ),
{
    let phoff = hdr.phoff;
    let phnum = hdr.phnum as usize;
    let step = hdr.phentsize as usize;
    let mut out: Vec<ProgramHeader> = Vec::new();
    let mut i: usize = 0;
    while i < phnum
        invariant
            usize::BITS == 64,
            phnum == hdr.phnum,
            phoff == hdr.phoff,
            step == hdr.phentsize,
            step >= 56,
            phoff + phnum * step <= buf@.len(),
            i <= phnum,
            out@.len() == i,
            forall|k: int|
                0 <= k < i ==> #[trigger] out@[k] == program_header_at(buf@, phoff + k * step),
        decreases phnum - i,
    {
        let _len = buf.len();
        assert(i * step + 56 <= phnum * step) by (nonlinear_arith)
            requires
                i + 1 <= phnum,
                step >= 56,
        ;
        let off = phoff + i * step;
        let ph = ProgramHeader {
            seg_type: read_u32(buf, off),
            flags: read_u32(buf, off + 4),
            off: read_u64(buf, off + 8) as usize,
            vaddr: read_u64(buf, off + 16) as usize,
            paddr: read_u64(buf, off + 24) as usize,
            filesz: read_u64(buf, off + 32) as usize,
            memsz: read_u64(buf, off + 40) as usize,
            align: read_u64(buf, off + 48) as usize,
        };
        out.push(ph);
        i = i + 1;
    }
    out
}

/// An image that `parse` accepts holds its whole program-header table:
/// `program_headers` can walk it whenever each entry is at least a
/// program header long.
pub proof fn lemma_accepted_headers_in_bounds(b: Seq<u8>, h: Header)
    requires
        parse_error(b) is None,
        is_header_of(h, b),
    ensures
        h.phoff + h.phnum * h.phentsize <= b.len(),
{
    assert(h.phnum * h.phentsize == h.phentsize * h.phnum) by (nonlinear_arith);
}

/// The ELF64 layout this reader follows: an image is accepted exactly
/// when it holds the 64-byte file header, starts with "\x7fELF"
/// (0x464c_457f little-endian), is of type 2 (executable, at byte 16) for
/// machine 0xf3 (RISC-V, at byte 18), and its program-header table (at
/// the offset at byte 32, `phnum` at byte 56 entries of `phentsize` at
/// byte 54 bytes) lies inside it. The header's fields are read at their
/// ELF64 offsets, and a program header's type, flags, offset, virtual and
/// physical address, file and memory size and alignment at 0, 4, 8, 16,
/// 24, 32, 40 and 48 of its entry.
pub proof fn lemma_elf_layout(b: Seq<u8>, h: Header, off: int)
    requires
        is_header_of(h, b),
    ensures
        (parse_error(b) is None) <==> (b.len() >= 64 && le_u32(b, 0) == 0x464c_457f && le_u16(b, 18)
            == 0xf3 && le_u16(b, 16) == 2 && le_u64(b, 32) + le_u16(b, 56) * le_u16(b, 54)
            <= b.len()),
        b.len() < 64 ==> parse_error(b) == Some(ElfError::Truncated),
        h.magic == le_u32(b, 0) && h.obj_type == le_u16(b, 16) && h.machine == le_u16(b, 18),
        h.entry_addr == le_u64(b, 24) && h.phoff == le_u64(b, 32) && h.phentsize == le_u16(b, 54)
            && h.phnum == le_u16(b, 56),
        ({
            let ph = program_header_at(b, off);
            &&& ph.seg_type == le_u32(b, off) as u32 && ph.flags == le_u32(b, off + 4) as u32
            &&& ph.off == le_u64(b, off + 8) as usize && ph.vaddr == le_u64(b, off + 16) as usize
            &&& ph.paddr == le_u64(b, off + 24) as usize && ph.filesz == le_u64(b, off + 32) as usize
            &&& ph.memsz == le_u64(b, off + 40) as usize && ph.align == le_u64(b, off + 48) as usize
        }),
{
}

} // verus!

//! `Fs`: handle to a freshly-read superblock of a Minix 3 disk, and the
//! file reader that walks an inode's zones.
//!
//! Reads go through the block device's read path (`Disk::read`): a read
//! of a whole block at a block-aligned byte offset. While it works, each
//! operation holds page-aligned scratch space from the page-frame
//! allocator and gives it back before it returns.

use vstd::prelude::*;

use crate::codec::{le_u16, le_u32, read_u32};
use crate::mm::allocator::page_frame::{
    Heap, first_fit, lemma_allocate_one, lemma_deallocate_undoes_allocate, mark_run,
};

use super::blocks::{Buffer, Disk, disk_read};
use super::consts::{BLOCK_SIZE, MAGIC};
use super::error::FsError;
use super::inode::{Inode, inode_at};
use super::super_block::{SuperBlock, super_block_at};

verus! {

pub struct Fs {
    pub dev: usize,
    pub sb: SuperBlock,
}

/// The 1 KiB block of zone `z`, if the disk holds it.
pub open spec fn blk(d: Seq<u8>, z: u32) -> Option<Seq<u8>> {
    disk_read(d, (z as int * 1024) as u64, 1024)
}

/// Pointer `i` of an indirect block.
pub open spec fn ptr_at(b: Seq<u8>, i: int) -> u32 {
    le_u32(b, 4 * i) as u32
}

/// Entry `idx` of the zone table stored in zone `zone`. A zero zone is a
/// hole and lists only holes. `None` when the table cannot be read.
pub open spec fn listed(d: Seq<u8>, zone: u32, idx: int) -> Option<u32> {
    if zone == 0 {
        Some(0u32)
    } else {
        match blk(d, zone) {
            None => None,
            Some(b) => Some(ptr_at(b, idx)),
        }
    }
}

/// Logical blocks the direct zones and the single, double and triple
/// indirect tables cover.
pub open spec fn single_start() -> int {
    7int
}

pub open spec fn double_start() -> int {
    7int + 256
}

pub open spec fn triple_start() -> int {
    7int + 256 + 256 * 256
}

pub open spec fn zones_end() -> int {
    7int + 256 + 256 * 256 + 256 * 256 * 256
}

/// The data zone of logical block `k` of the file with zone pointers `z`
/// (0 for a hole), resolved through the direct zones and the single,
/// double and triple indirect tables. `None` when a table on the way
/// cannot be read.
pub open spec fn zone_of(d: Seq<u8>, z: Seq<u32>, k: int) -> Option<u32> {
    if k < single_start() {
        Some(z[k])
    } else if k < double_start() {
        listed(d, z[7], k - single_start())
    } else if k < triple_start() {
        let j = k - double_start();
        match listed(d, z[8], j / 256) {
            None => None,
            Some(m) => listed(d, m, j % 256),
        }
    } else if k < zones_end() {
        let j = k - triple_start();
        match listed(d, z[9], j / 65536) {
            None => None,
            Some(a) => match listed(d, a, (j / 256) % 256) {
                None => None,
                Some(b) => listed(d, b, j % 256),
            },
        }
    } else {
        Some(0u32)
    }
}

/// Byte `pos` of the file, where the block holding it is stored (not a
/// hole) and can be read.
pub open spec fn file_byte(d: Seq<u8>, z: Seq<u32>, pos: int) -> Option<u8> {
    match zone_of(d, z, pos / 1024) {
        None => None,
        Some(zn) => if zn == 0 {
            None
        } else {
            match blk(d, zn) {
                None => None,
                Some(b) => Some(b[pos % 1024]),
            }
        },
    }
}

/// The part of the read window `[off, e)` that falls in logical block `k`.
pub open spec fn window_lo(off: int, k: int) -> int {
    if off < 1024 * k {
        1024 * k
    } else {
        off
    }
}

pub open spec fn window_hi(e: int, k: int) -> int {
    if e < 1024 * (k + 1) {
        e
    } else {
        1024 * (k + 1)
    }
}

/// What logical block `k` contributes to the read of `[off, e)`: its
/// bytes inside the window, nothing for a hole, `None` when a block it
/// needs cannot be read.
pub open spec fn piece(d: Seq<u8>, z: Seq<u32>, off: int, e: int, k: int) -> Option<Seq<u8>> {
    match zone_of(d, z, k) {
        None => None,
        Some(zn) => if zn == 0 {
            Some(Seq::<u8>::empty())
        } else {
            match blk(d, zn) {
                None => None,
                Some(b) => Some(b.subrange(window_lo(off, k) - 1024 * k, window_hi(e, k) - 1024 * k)),
            }
        },
    }
}

/// The bytes that blocks `k..=last` contribute, in order, up to the first
/// block that cannot be read; the flag says whether every read succeeded.
pub open spec fn gather(d: Seq<u8>, z: Seq<u32>, off: int, e: int, k: int, last: int) -> (
    Seq<u8>,
    bool,
)
    decreases last + 1 - k,
{
    if k > last {
        (Seq::<u8>::empty(), true)
    } else {
        match piece(d, z, off, e, k) {
            None => (Seq::<u8>::empty(), false),
            Some(p) => {
                let g = gather(d, z, off, e, k + 1, last);
                (p + g.0, g.1)
            },
        }
    }
}

/// Bytes the read asks for: the buffer's length, capped by what the file
/// holds past `offset`.
pub open spec fn read_want(inode: Inode, offset: u32, out_len: nat) -> int {
    if out_len < inode.size - offset {
        out_len as int
    } else {
        inode.size - offset
    }
}

/// Reading `inode` from `offset` with a buffer of `out_len` bytes: the
/// bytes of the window `[offset, offset + want)`, block by block, holes
/// skipped; the flag says whether every block read succeeded.
pub open spec fn file_read(d: Seq<u8>, inode: Inode, offset: u32, out_len: nat) -> (Seq<u8>, bool) {
    if offset >= inode.size || read_want(inode, offset, out_len) == 0 {
        (Seq::<u8>::empty(), true)
    } else {
        let e = offset + read_want(inode, offset, out_len);
        gather(d, inode.zones@, offset as int, e, offset as int / 1024, (e - 1) / 1024)
    }
}

/// Scratch pages the file reader holds while it runs: one data block and
/// one table for each level of indirection.
pub const READ_SCRATCH_PAGES: usize = 4;

/// Byte offset of the start of the inode table of `sb`: boot block,
/// superblock, inode bitmap and zone bitmap come first.
pub open spec fn inode_table_offset_spec(sb: SuperBlock) -> int {
    (2 + sb.imap_blocks + sb.zmap_blocks) * 1024
}

/// The superblock that mounting a disk with contents `d` finds.
pub open spec fn mount_spec(d: Seq<u8>) -> Result<SuperBlock, FsError> {
    match disk_read(d, 1024, 1024) {
        None => Err(FsError::BlockReadFailed),
        Some(b) => if super_block_at(b).magic != MAGIC {
            Err(FsError::BadMagic)
        } else {
            Ok(super_block_at(b))
        },
    }
}

/// Inode `num` of the filesystem with superblock `sb` on disk `d`.
pub open spec fn inode_spec(d: Seq<u8>, sb: SuperBlock, num: u32) -> Result<Inode, FsError> {
    let off = inode_table_offset_spec(sb) + (num - 1) * 64;
    let block_off = off - off % 1024;
    if num == 0 || num > sb.ninodes {
        Err(FsError::InodeOutOfRange)
    } else {
        match disk_read(d, block_off as u64, 1024) {
            None => Err(FsError::BlockReadFailed),
            Some(b) => Ok(inode_at(b, off % 1024)),
        }
    }
}

/// `after` is `before` with its descriptor table, geometry and pages as
/// they were.
pub open spec fn heap_restored(before: Heap, after: Heap) -> bool {
    &&& after.wf()
    &&& after.same_geometry(&before)
    &&& after.mem() == before.mem()
    &&& after.descs() == before.descs()
}

/// Take one page of scratch space.
fn take_page(heap: &mut Heap) -> (r: Option<Buffer>)
    requires
        old(heap).wf(),
    ensures
        final(heap).wf(),
        final(heap).same_geometry(old(heap)),
        final(heap).mem() == old(heap).mem(),
        (r is Some) == (old(heap).free_pages() > 0),
        r is None ==> final(heap).descs() == old(heap).descs(),
        r is Some ==> {
            let i = first_fit(old(heap).descs(), 1).unwrap();
            &&& first_fit(old(heap).descs(), 1) is Some
            &&& r.unwrap().addr() == old(heap).page_addr(i)
            &&& r.unwrap().page_count() == 1
            &&& final(heap).descs() == mark_run(old(heap).descs(), i, 1)
            &&& final(heap).free_pages() + 1 == old(heap).free_pages()
        },
{
    proof {
        lemma_allocate_one(heap.descs());
    }
    let r = Buffer::new(heap, BLOCK_SIZE as usize);
    r
}

/// Give back a scratch page taken from the heap `before`.
fn give_back(heap: &mut Heap, b: Buffer, Ghost(before): Ghost<Heap>)
    requires
        before.wf(),
        old(heap).wf(),
        old(heap).same_geometry(&before),
        old(heap).mem() == before.mem(),
        first_fit(before.descs(), 1) is Some,
        b.addr() == before.page_addr(first_fit(before.descs(), 1).unwrap()),
        old(heap).descs() == mark_run(before.descs(), first_fit(before.descs(), 1).unwrap(), 1),
    ensures
        heap_restored(before, *final(heap)),
{
    proof {
        lemma_deallocate_undoes_allocate(before, 1);
    }
    b.release(heap);
}

/// Zone `idx` of the zone table in zone `zone`.
fn listed_zone(disk: &Disk, zone: u32, idx: usize) -> (r: Result<u32, FsError>)
    requires
        idx < 256,
    ensures
        match listed(disk@, zone, idx as int) {
            None => r == Err::<u32, FsError>(FsError::BlockReadFailed),
            Some(z) => r == Ok::<u32, FsError>(z),
        },
{
    if zone == 0 {
        return Ok(0);
    }
    let b = match read_indirect_zone(disk, zone) {
        Ok(b) => b,
        Err(er) => return Err(er),
    };
    Ok(read_u32(b.as_slice(), 4 * idx))
}

/// Read the indirect block of `zone`.
fn read_indirect_zone(disk: &Disk, zone: u32) -> (r: Result<Vec<u8>, FsError>)
    ensures
        match blk(disk@, zone) {
            None => r == Err::<Vec<u8>, FsError>(FsError::BlockReadFailed),
            Some(b) => r is Ok && r.unwrap()@ == b && b.len() == 1024,
        },
{
    proof {
        assert(((zone as int * 1024) as u64) == zone as u64 * 1024);
    }
    match disk.read(zone as u64 * 1024, BLOCK_SIZE) {
        Some(b) => Ok(b),
        None => Err(FsError::BlockReadFailed),
    }
}

/// The data zone of logical block `k` of the file with zones `zones`.
fn zone_for(disk: &Disk, zones: &[u32; 10], k: usize) -> (r: Result<u32, FsError>)
    requires
        k < zones_end(),
    ensures
        match zone_of(disk@, zones@, k as int) {
            None => r == Err::<u32, FsError>(FsError::BlockReadFailed),
            Some(z) => r == Ok::<u32, FsError>(z),
        },
{
    if k < 7 {
        Ok(zones[k])
    } else if k < 263 {
        listed_zone(disk, zones[7], k - 7)
    } else if k < 65799 {
        let j = k - 263;
        let m = match listed_zone(disk, zones[8], j / 256) {
            Ok(m) => m,
            Err(er) => return Err(er),
        };
        listed_zone(disk, m, j % 256)
    } else {
        let j = k - 65799;
        let a = match listed_zone(disk, zones[9], j / 65536) {
            Ok(a) => a,
            Err(er) => return Err(er),
        };
        let b = match listed_zone(disk, a, (j / 256) % 256) {
            Ok(b) => b,
            Err(er) => return Err(er),
        };
        listed_zone(disk, b, j % 256)
    }
}

/// The blocks of the window `[off, e)` lie between the block holding
/// `off` and the one holding `e - 1`.
proof fn lemma_window_blocks(off: int, e: int, k: int)
    requires
        0 <= off < e,
        off / 1024 <= k <= (e - 1) / 1024,
    ensures
        window_lo(off, k) < window_hi(e, k),
        1024 * k <= window_lo(off, k),
        window_hi(e, k) <= 1024 * k + 1024,
        off <= window_lo(off, k),
        window_hi(e, k) <= e,
        k < (e - 1) / 1024 ==> window_hi(e, k) == 1024 * (k + 1) && window_lo(off, k + 1) == 1024 * (k + 1),
        k == (e - 1) / 1024 ==> window_hi(e, k) == e,
{
    assert(off < 1024 * (off / 1024) + 1024) by (nonlinear_arith)
        requires
            0 <= off,
    ;
    assert(1024 * k <= 1024 * ((e - 1) / 1024)) by (nonlinear_arith)
        requires
            k <= (e - 1) / 1024,
    ;
    assert(1024 * ((e - 1) / 1024) <= e - 1 < 1024 * ((e - 1) / 1024) + 1024) by (nonlinear_arith)
        requires
            0 <= e - 1,
    ;
    assert(1024 * (off / 1024) <= 1024 * k) by (nonlinear_arith)
        requires
            off / 1024 <= k,
    ;
    if k < (e - 1) / 1024 {
        assert(1024 * (k + 1) <= 1024 * ((e - 1) / 1024)) by (nonlinear_arith)
            requires
                k + 1 <= (e - 1) / 1024,
        ;
    }
}

/// Copy what logical block `k` contributes to the read of `[off, e)` into
/// `out` at `written`. Returns the new write position.
#[verifier::spinoff_prover]
fn copy_block(
    disk: &Disk,
    zones: &[u32; 10],
    off: usize,
    e: usize,
    k: usize,
    written: usize,
    out: &mut Vec<u8>,
) -> (r: Result<usize, FsError>)
    requires
        usize::BITS == 64,
        off < e,
        e <= 0x2_0000_0000,
        off / 1024 <= k <= (e - 1) / 1024,
        written <= window_lo(off as int, k as int) - off,
        e - off <= old(out)@.len(),
    ensures
        final(out)@.len() == old(out)@.len(),
        match piece(disk@, zones@, off as int, e as int, k as int) {
            None => r == Err::<usize, FsError>(FsError::BlockReadFailed) && final(out)@ == old(out)@,
            Some(p) => {
                &&& p.len() <= window_hi(e as int, k as int) - window_lo(off as int, k as int)
                &&& r == Ok::<usize, FsError>((written + p.len()) as usize)
                &&& final(out)@ == old(out)@.subrange(0, written as int) + p + old(out)@.subrange(
                    written + p.len(),
                    old(out)@.len() as int,
                )
            },
        },
{
    proof {
        lemma_window_blocks(off as int, e as int, k as int);
        assert(k < zones_end()) by (nonlinear_arith)
            requires
                k <= (e - 1) / 1024,
                e <= 0x2_0000_0000,
        ;
    }
    let ghost out0 = out@;
    let zn = match zone_for(disk, zones, k) {
        Ok(x) => x,
        Err(er) => return Err(er),
    };
    if zn == 0 {
        assert(out0.subrange(0, written as int) + Seq::<u8>::empty() + out0.subrange(
            written as int,
            out0.len() as int,
        ) =~= out0);
        return Ok(written);
    }
    proof {
        assert(((zn as int * 1024) as u64) == zn as u64 * 1024);
    }
    let b = match disk.read(zn as u64 * 1024, BLOCK_SIZE) {
        Some(b) => b,
        None => return Err(FsError::BlockReadFailed),
    };
    let base = 1024 * k;
    let lo = if off < base {
        base
    } else {
        off
    };
    let hi = if e < base + 1024 {
        e
    } else {
        base + 1024
    };
    let ghost p = b@.subrange(lo - base, hi - base);
    let mut t = lo;
    while t < hi
        invariant
            usize::BITS == 64,
            lo <= t <= hi,
            base <= lo,
            hi <= base + 1024,
            hi <= e,
            b@.len() == 1024,
            written + (hi - lo) <= out0.len(),
            written + (hi - lo) <= 0x2_0000_0000,
            out@.len() == out0.len(),
            forall|x: int|
                0 <= x < out0.len() ==> #[trigger] out@[x] == if written <= x < written + (t - lo) {
                    b@[lo - base + x - written]
                } else {
                    out0[x]
                },
        decreases hi - t,
    {
        out.set(written + (t - lo), b[t - base]);
        t = t + 1;
    }
    assert(out@ =~= out0.subrange(0, written as int) + p + out0.subrange(
        written + p.len(),
        out0.len() as int,
    ));
    Ok(written + (hi - lo))
}

/// Copy the window `[off, e)` of the file with zones `zones` into the
/// front of `out`, block by block, skipping holes.
fn read_window(disk: &Disk, zones: &[u32; 10], off: usize, e: usize, out: &mut Vec<u8>) -> (r: Result<
    usize,
    FsError,
>)
    requires
        usize::BITS == 64,
        off < e,
        e <= 0x2_0000_0000,
        e - off <= old(out)@.len(),
    ensures
        ({
            let g = gather(disk@, zones@, off as int, e as int, off as int / 1024, (e - 1) / 1024);
            &&& final(out)@ == g.0 + old(out)@.subrange(g.0.len() as int, old(out)@.len() as int)
            &&& g.0.len() <= e - off
            &&& r == if g.1 {
                Ok::<usize, FsError>(g.0.len() as usize)
            } else {
                Err::<usize, FsError>(FsError::BlockReadFailed)
            }
        }),
{
    let ghost d = disk@;
    let ghost z = zones@;
    let ghost out0 = out@;
    let first = off / 1024;
    let last = (e - 1) / 1024;
    let ghost whole = gather(d, z, off as int, e as int, first as int, last as int);
    let mut k = first;
    let mut written: usize = 0;
    proof {
        assert(out@.subrange(0, 0) + out0.subrange(0, out0.len() as int) =~= out0);
        assert(out@.subrange(0, 0) + whole.0 =~= whole.0);
        assert(1024 * first <= off) by (nonlinear_arith)
            requires
                first == off / 1024,
        ;
    }
    while k <= last
        invariant
            usize::BITS == 64,
            d == disk@,
            z == zones@,
            first == off / 1024,
            last == (e - 1) / 1024,
            first <= k <= last + 1,
            off < e,
            e <= 0x2_0000_0000,
            e - off <= out0.len(),
            out0 == old(out)@,
            out@.len() == out0.len(),
            written <= window_lo(off as int, k as int) - off,
            written <= e - off,
            out@ == out@.subrange(0, written as int) + out0.subrange(written as int, out0.len() as int),
            whole == gather(d, z, off as int, e as int, first as int, last as int),
            whole == (
                out@.subrange(0, written as int) + gather(d, z, off as int, e as int, k as int, last as int).0,
                gather(d, z, off as int, e as int, k as int, last as int).1,
            ),
        decreases last + 1 - k,
    {
        proof {
            lemma_window_blocks(off as int, e as int, k as int);
        }
        let ghost acc = out@.subrange(0, written as int);
        let ghost before = out@;
        let ghost rest = gather(d, z, off as int, e as int, k + 1, last as int);
        written = match copy_block(disk, zones, off, e, k, written, out) {
            Ok(w) => w,
            Err(er) => {
                assert(piece(d, z, off as int, e as int, k as int) is None);
                assert(gather(d, z, off as int, e as int, k as int, last as int) == (
                    Seq::<u8>::empty(),
                    false,
                ));
                assert(acc + Seq::<u8>::empty() =~= acc);
                assert(whole.0 =~= acc);
                assert(out@ == acc + out0.subrange(acc.len() as int, out0.len() as int));
                return Err(er);
            },
        };
        proof {
            let p = piece(d, z, off as int, e as int, k as int).unwrap();
            assert(before.subrange(0, acc.len() as int) =~= acc);
            assert(out@.subrange(0, written as int) =~= acc + p);
            assert(before.subrange((acc.len() + p.len()) as int, before.len() as int) =~= out0.subrange(
                written as int,
                out0.len() as int,
            ));
            assert((acc + p) + rest.0 =~= acc + (p + rest.0));
        }
        k = k + 1;
    }
    proof {
        lemma_window_blocks(off as int, e as int, last as int);
        let acc = out@.subrange(0, written as int);
        assert(acc + Seq::<u8>::empty() =~= acc);
    }
    Ok(written)
}

impl Fs {
    /// Probe `dev` (whose contents `disk` holds) for a Minix 3
    /// filesystem. Returns a usable handle only if the magic matches.
    /// One page of scratch space is held for the superblock's block.
    pub fn mount(dev: usize, heap: &mut Heap, disk: &Disk) -> (r: Result<Fs, FsError>)
        requires
            old(heap).wf(),
        ensures
            heap_restored(*old(heap), *final(heap)),
            if old(heap).free_pages() == 0 {
                r == Err::<Fs, FsError>(FsError::OutOfMemory)
            } else {
                match mount_spec(disk@) {
                    Err(e) => r == Err::<Fs, FsError>(e),
                    Ok(sb) => r is Ok && r.unwrap().sb == sb && r.unwrap().dev == dev,
                }
            },
    {
        let ghost h0 = *heap;
        let buf = match take_page(heap) {
            Some(b) => b,
            None => return Err(FsError::OutOfMemory),
        };
        let r = Self::mount_from(dev, disk);
        give_back(heap, buf, Ghost(h0));
        r
    }

    /// Read the superblock once scratch space is held.
    fn mount_from(dev: usize, disk: &Disk) -> (r: Result<Fs, FsError>)
        ensures
            match mount_spec(disk@) {
                Err(e) => r == Err::<Fs, FsError>(e),
                Ok(sb) => r is Ok && r.unwrap().sb == sb && r.unwrap().dev == dev,
            },
    {
        // The superblock lives at byte offset 1024 (block #1). The driver
        // reads whole sectors, so a full 1 KiB is read although the
        // superblock itself is only 32 bytes.
        let buf = match disk.read(BLOCK_SIZE as u64, BLOCK_SIZE) {
            Some(b) => b,
            None => return Err(FsError::BlockReadFailed),
        };
        let sb = SuperBlock::from_bytes(buf.as_slice());
        if sb.magic != MAGIC {
            return Err(FsError::BadMagic);
        }
        Ok(Fs { dev, sb })
    }

    /// Byte offset of the start of the inode table on disk.
    fn inode_table_offset(&self) -> (r: u64)
        ensures
            r == inode_table_offset_spec(self.sb),
    {
        let blocks_before = 2u64 + self.sb.imap_blocks as u64 + self.sb.zmap_blocks as u64;
        blocks_before * 1024
    }

    /// Read inode `num` (1-based, as stored in directory entries). One
    /// page of scratch space is held for the inode's block.
    pub fn read_inode(&self, heap: &mut Heap, disk: &Disk, num: u32) -> (r: Result<Inode, FsError>)
        requires
            old(heap).wf(),
        ensures
            heap_restored(*old(heap), *final(heap)),
            if num == 0 || num > self.sb.ninodes {
                r == Err::<Inode, FsError>(FsError::InodeOutOfRange)
            } else if old(heap).free_pages() == 0 {
                r == Err::<Inode, FsError>(FsError::OutOfMemory)
            } else {
                r == inode_spec(disk@, self.sb, num)
            },
    {
        if num == 0 || num > self.sb.ninodes {
            return Err(FsError::InodeOutOfRange);
        }
        let ghost h0 = *heap;
        let buf = match take_page(heap) {
            Some(b) => b,
            None => return Err(FsError::OutOfMemory),
        };
        let r = self.read_inode_from(disk, num);
        give_back(heap, buf, Ghost(h0));
        r
    }

    /// Read inode `num` once scratch space is held.
    fn read_inode_from(&self, disk: &Disk, num: u32) -> (r: Result<Inode, FsError>)
        ensures
            r == inode_spec(disk@, self.sb, num),
    {
        if num == 0 || num > self.sb.ninodes {
            return Err(FsError::InodeOutOfRange);
        }
        // Inode `num` sits at byte offset `(num - 1) * 64` into the inode
        // table; round down to a block boundary because the driver only
        // reads whole blocks.
        let inode_off = self.inode_table_offset() + (num as u64 - 1) * 64;
        let block_off = inode_off & !(BLOCK_SIZE as u64 - 1);
        assert(block_off == inode_off - inode_off % 1024 && inode_off - block_off < 1024)
            by (bit_vector)
            requires
                block_off == inode_off & !1023u64,
        ;
        let within = (inode_off - block_off) as usize;
        let buf = match disk.read(block_off, BLOCK_SIZE) {
            Some(b) => b,
            None => return Err(FsError::BlockReadFailed),
        };
        proof {
            assert((block_off / 512) * 512 == block_off) by (nonlinear_arith)
                requires
                    block_off % 1024 == 0,
            ;
        }
        assert(within + 64 <= 1024) by {
            assert(inode_table_offset_spec(self.sb) % 64 == 0) by (nonlinear_arith)
                requires
                    inode_table_offset_spec(self.sb) == (2 + self.sb.imap_blocks
                        + self.sb.zmap_blocks) * 1024,
            ;
            assert((inode_off as int) % 64 == 0) by (nonlinear_arith)
                requires
                    inode_table_offset_spec(self.sb) % 64 == 0,
                    inode_off == inode_table_offset_spec(self.sb) + (num - 1) * 64,
            ;
            assert(within % 64 == 0) by (nonlinear_arith)
                requires
                    (inode_off as int) % 64 == 0,
                    within == (inode_off as int) % 1024,
            ;
        }
        Ok(Inode::from_bytes(buf.as_slice(), within))
    }
    /// Copy up to `out.len()` bytes of file `inode`'s contents starting at
    /// `offset` to the front of `out`. Returns the number of bytes copied.
    ///
    /// The read covers `[offset, offset + want)`, where `want` is the
    /// buffer's length capped by what the file holds past `offset`. Its
    /// blocks are taken in order, each through the direct zones or the
    /// single, double or triple indirect tables; a zero zone is a hole and
    /// its bytes are skipped, not copied. While it reads, the reader holds
    /// `READ_SCRATCH_PAGES` pages of scratch space.
    pub fn read_file(
        &self,
        heap: &mut Heap,
        disk: &Disk,
        inode: &Inode,
        offset: u32,
        out: &mut Vec<u8>,
    ) -> (r: Result<usize, FsError>)
        requires
            usize::BITS == 64,
            old(heap).wf(),
        ensures
            heap_restored(*old(heap), *final(heap)),
            final(out)@.len() == old(out)@.len(),
            if offset >= inode.size || read_want(*inode, offset, old(out)@.len()) == 0 {
                r == Ok::<usize, FsError>(0) && final(out)@ == old(out)@
            } else if old(heap).free_pages() < READ_SCRATCH_PAGES {
                r == Err::<usize, FsError>(FsError::OutOfMemory) && final(out)@ == old(out)@
            } else {
                let g = file_read(disk@, *inode, offset, old(out)@.len());
                &&& final(out)@ == g.0 + old(out)@.subrange(g.0.len() as int, old(out)@.len() as int)
                &&& r == if g.1 {
                    Ok::<usize, FsError>(g.0.len() as usize)
                } else {
                    Err::<usize, FsError>(FsError::BlockReadFailed)
                }
            },
            // At most `want` bytes, and nothing past them, are written.
            r matches Ok(n) ==> {
                &&& offset < inode.size ==> n <= read_want(*inode, offset, old(out)@.len())
                &&& offset >= inode.size ==> n == 0
                &&& final(out)@.subrange(n as int, old(out)@.len() as int) == old(out)@.subrange(
                    n as int,
                    old(out)@.len() as int,
                )
            },
    {
        if offset >= inode.size {
            return Ok(0);
        }
        let out_len = out.len();
        let left = (inode.size - offset) as usize;
        let want = if out_len < left {
            out_len
        } else {
            left
        };
        if want == 0 {
            return Ok(0);
        }
        let ghost h0 = *heap;
        proof {
            lemma_allocate_one(h0.descs());
        }
        let b1 = match take_page(heap) {
            Some(b) => b,
            None => return Err(FsError::OutOfMemory),
        };
        let ghost h1 = *heap;
        proof {
            lemma_allocate_one(h1.descs());
        }
        let b2 = match take_page(heap) {
            Some(b) => b,
            None => {
                give_back(heap, b1, Ghost(h0));
                return Err(FsError::OutOfMemory);
            },
        };
        let ghost h2 = *heap;
        let b3 = match take_page(heap) {
            Some(b) => b,
            None => {
                give_back(heap, b2, Ghost(h1));
                give_back(heap, b1, Ghost(h0));
                return Err(FsError::OutOfMemory);
            },
        };
        let ghost h3 = *heap;
        let b4 = match take_page(heap) {
            Some(b) => b,
            None => {
                give_back(heap, b3, Ghost(h2));
                give_back(heap, b2, Ghost(h1));
                give_back(heap, b1, Ghost(h0));
                return Err(FsError::OutOfMemory);
            },
        };
        let start = offset as usize;
        let end = start + want;
        let r = read_window(disk, &inode.zones, start, end, out);
        give_back(heap, b4, Ghost(h3));
        give_back(heap, b3, Ghost(h2));
        give_back(heap, b2, Ghost(h1));
        give_back(heap, b1, Ghost(h0));
        proof {
            let g = file_read(disk@, *inode, offset, old(out)@.len());
            assert(out@.subrange(g.0.len() as int, old(out)@.len() as int) =~= old(out)@.subrange(
                g.0.len() as int,
                old(out)@.len() as int,
            ));
        }
        r
    }
}

/// The block of `[off, e)` at `k` and all after it are read in full when
/// every byte of the window is stored: the read gives exactly the file's
/// bytes from the start of block `k`'s part of the window to `e`.
proof fn lemma_gather_bytes(d: Seq<u8>, z: Seq<u32>, off: int, e: int, k: int)
    requires
        0 <= off < e,
        off / 1024 <= k <= (e - 1) / 1024,
        forall|pos: int| off <= pos < e ==> #[trigger] file_byte(d, z, pos) is Some,
    ensures
        ({
            let g = gather(d, z, off, e, k, (e - 1) / 1024);
            &&& g.1
            &&& g.0.len() == e - window_lo(off, k)
            &&& forall|i: int|
                0 <= i < g.0.len() ==> g.0[i] == file_byte(d, z, window_lo(off, k) + i).unwrap()
        }),
    decreases (e - 1) / 1024 - k,
{
    let last = (e - 1) / 1024;
    lemma_window_blocks(off, e, k);
    let lo = window_lo(off, k);
    let hi = window_hi(e, k);
    assert(lo / 1024 == k && lo % 1024 == lo - 1024 * k) by (nonlinear_arith)
        requires
            1024 * k <= lo < 1024 * k + 1024,
    ;
    assert(file_byte(d, z, lo) is Some);
    let zn = zone_of(d, z, k).unwrap();
    let b = blk(d, zn).unwrap();
    let p = b.subrange(lo - 1024 * k, hi - 1024 * k);
    assert(piece(d, z, off, e, k) == Some(p));
    let g = gather(d, z, off, e, k, last);
    assert forall|i: int| 0 <= i < p.len() implies p[i] == file_byte(d, z, lo + i).unwrap() by {
        let pos = lo + i;
        assert(pos / 1024 == k && pos % 1024 == pos - 1024 * k) by (nonlinear_arith)
            requires
                1024 * k <= pos < 1024 * k + 1024,
        ;
    }
    if k < last {
        lemma_gather_bytes(d, z, off, e, k + 1);
        let rest = gather(d, z, off, e, k + 1, last);
        assert forall|i: int| 0 <= i < g.0.len() implies g.0[i] == file_byte(
            d,
            z,
            lo + i,
        ).unwrap() by {
            if i >= p.len() {
                assert(g.0[i] == rest.0[i - p.len()]);
            }
        }
    } else {
        assert(gather(d, z, off, e, k + 1, last).0 =~= Seq::<u8>::empty());
        assert(g.0 =~= p);
    }
}

/// Where every byte of the window a read asks for is stored (no hole in
/// it) and readable, the read gives back the file's bytes: `want` of them,
/// byte `i` being the file's byte at `offset + i`, found through the
/// inode's direct zones and indirect tables.
pub proof fn lemma_read_gives_file_bytes(d: Seq<u8>, inode: Inode, offset: u32, out_len: nat)
    requires
        offset < inode.size,
        read_want(inode, offset, out_len) > 0,
        forall|pos: int|
            offset <= pos < offset + read_want(inode, offset, out_len) ==> #[trigger] file_byte(
                d,
                inode.zones@,
                pos,
            ) is Some,
    ensures
        ({
            let g = file_read(d, inode, offset, out_len);
            &&& g.1
            &&& g.0.len() == read_want(inode, offset, out_len)
            &&& forall|i: int|
                0 <= i < g.0.len() ==> g.0[i] == file_byte(d, inode.zones@, offset + i).unwrap()
        }),
{
    let e = offset + read_want(inode, offset, out_len);
    lemma_gather_bytes(d, inode.zones@, offset as int, e, offset as int / 1024);
    assert(window_lo(offset as int, offset as int / 1024) == offset) by (nonlinear_arith)
        requires
            0 <= offset,
    ;
}

/// The bytes of a block of `b`, read at `s`, are the disk's bytes there.
proof fn lemma_le_in_block(d: Seq<u8>, s: int, o: int)
    requires
        0 <= s,
        s + 1024 <= d.len(),
        0 <= o,
        o + 4 <= 1024,
    ensures
        le_u16(d.subrange(s, s + 1024), o) == le_u16(d, s + o),
        le_u16(d.subrange(s, s + 1024), o + 2) == le_u16(d, s + o + 2),
        le_u32(d.subrange(s, s + 1024), o) == le_u32(d, s + o),
{
}

/// The block of zone `z` is the disk's bytes `[1024 z, 1024 z + 1024)`.
proof fn lemma_blk_bytes(d: Seq<u8>, z: u32)
    requires
        (z + 1) * 1024 <= d.len(),
    ensures
        blk(d, z) == Some(d.subrange(z * 1024, z * 1024 + 1024)),
{
    assert(((z as int * 1024) as u64) as int == z * 1024);
    assert((((z as int * 1024) as u64) / 512) as int * 512 == z * 1024) by (nonlinear_arith)
        requires
            ((z as int * 1024) as u64) as int == z * 1024,
            0 <= z,
    ;
}

/// Zone `i` of the table held in zone `t` is the little-endian `u32` at
/// byte `1024 t + 4 i` of the disk.
proof fn lemma_listed_bytes(d: Seq<u8>, t: u32, i: int)
    requires
        t != 0,
        (t + 1) * 1024 <= d.len(),
        0 <= i < 256,
    ensures
        listed(d, t, i) == Some(le_u32(d, t * 1024 + 4 * i) as u32),
{
    lemma_blk_bytes(d, t);
    lemma_le_in_block(d, t * 1024, 4 * i);
}

/// The zone table stored in zone `t` lies on the disk.
pub open spec fn table_on_disk(d: Seq<u8>, t: u32) -> bool {
    t != 0 && (t + 1) * 1024 <= d.len()
}

/// Which zone holds logical block `k` of a file, read off the disk's
/// bytes: the direct zones give blocks 0..7; the single indirect table in
/// zone `z[7]` lists blocks 7..263, entry `k - 7` at byte
/// `1024 z[7] + 4 (k - 7)`; the double indirect table in `z[8]` lists, at
/// entry `(k - 263) / 256`, the table whose entry `(k - 263) % 256` is
/// the zone; the triple indirect table in `z[9]` goes one level deeper,
/// indexed by `(k - 65799) / 65536`, then `/ 256 % 256`, then `% 256`.
/// A zero table pointer makes the whole range it covers a hole.
pub proof fn lemma_zone_of_blocks(d: Seq<u8>, z: Seq<u32>, k: int)
    requires
        0 <= k,
    ensures
        k < 7 ==> zone_of(d, z, k) == Some(z[k]),
        7 <= k < 263 && z[7] == 0 ==> zone_of(d, z, k) == Some(0u32),
        7 <= k < 263 && table_on_disk(d, z[7]) ==> zone_of(d, z, k) == Some(
            le_u32(d, z[7] * 1024 + 4 * (k - 7)) as u32,
        ),
        263 <= k < 65799 && z[8] == 0 ==> zone_of(d, z, k) == Some(0u32),
        263 <= k < 65799 && table_on_disk(d, z[8]) ==> {
            let m = le_u32(d, z[8] * 1024 + 4 * ((k - 263) / 256)) as u32;
            &&& m == 0 ==> zone_of(d, z, k) == Some(0u32)
            &&& table_on_disk(d, m) ==> zone_of(d, z, k) == Some(
                le_u32(d, m * 1024 + 4 * ((k - 263) % 256)) as u32,
            )
        },
        65799 <= k < 16843015 && z[9] == 0 ==> zone_of(d, z, k) == Some(0u32),
        65799 <= k < 16843015 && table_on_disk(d, z[9]) ==> {
            let a = le_u32(d, z[9] * 1024 + 4 * ((k - 65799) / 65536)) as u32;
            let b = le_u32(d, a * 1024 + 4 * (((k - 65799) / 256) % 256)) as u32;
            &&& a == 0 ==> zone_of(d, z, k) == Some(0u32)
            &&& table_on_disk(d, a) && b == 0 ==> zone_of(d, z, k) == Some(0u32)
            &&& table_on_disk(d, a) && table_on_disk(d, b) ==> zone_of(d, z, k) == Some(
                le_u32(d, b * 1024 + 4 * ((k - 65799) % 256)) as u32,
            )
        },
{
    if 7 <= k < 263 && table_on_disk(d, z[7]) {
        lemma_listed_bytes(d, z[7], k - 7);
    }
    if 263 <= k < 65799 && table_on_disk(d, z[8]) {
        let j = k - 263;
        assert(0 <= j / 256 < 256 && 0 <= j % 256 < 256) by (nonlinear_arith)
            requires
                0 <= j < 65536,
        ;
        lemma_listed_bytes(d, z[8], j / 256);
        let m = le_u32(d, z[8] * 1024 + 4 * (j / 256)) as u32;
        if table_on_disk(d, m) {
            lemma_listed_bytes(d, m, j % 256);
        }
    }
    if 65799 <= k < 16843015 && table_on_disk(d, z[9]) {
        let j = k - 65799;
        assert(0 <= j / 65536 < 256 && 0 <= (j / 256) % 256 < 256 && 0 <= j % 256 < 256)
            by (nonlinear_arith)
            requires
                0 <= j < 16777216,
        ;
        lemma_listed_bytes(d, z[9], j / 65536);
        let a = le_u32(d, z[9] * 1024 + 4 * (j / 65536)) as u32;
        if table_on_disk(d, a) {
            lemma_listed_bytes(d, a, (j / 256) % 256);
            let b = le_u32(d, a * 1024 + 4 * ((j / 256) % 256)) as u32;
            if table_on_disk(d, b) {
                lemma_listed_bytes(d, b, j % 256);
            }
        }
    }
}

/// Inode `num` (counted from 1) is the 64-byte record at byte
/// `(2 + imap_blocks + zmap_blocks) * 1024 + (num - 1) * 64` of the disk:
/// the inode table follows the boot block, the superblock, the inode
/// bitmap and the zone bitmap. Inode 0 and inodes past `ninodes` are out
/// of range.
pub proof fn lemma_inode_on_disk(d: Seq<u8>, sb: SuperBlock, num: u32)
    requires
        0 < num <= sb.ninodes,
        // The disk holds the whole block the inode lies in.
        (2 + sb.imap_blocks + sb.zmap_blocks) * 1024 + ((num - 1) * 64 / 1024 + 1) * 1024 <= d.len(),
    ensures
        inode_spec(d, sb, num) == Ok::<Inode, FsError>(
            inode_at(d, (2 + sb.imap_blocks + sb.zmap_blocks) * 1024 + (num - 1) * 64),
        ),
        inode_spec(d, sb, 0) == Err::<Inode, FsError>(FsError::InodeOutOfRange),
{
    let base = (2 + sb.imap_blocks + sb.zmap_blocks) * 1024;
    let q = (num - 1) * 64;
    let off = base + q;
    let s = base + (q / 1024) * 1024;
    let o = q % 1024;
    assert(off % 1024 == o && off - off % 1024 == s && o + 64 <= 1024 && 0 <= o && s % 1024 == 0
        && 0 <= s) by (nonlinear_arith)
        requires
            base == (2 + sb.imap_blocks + sb.zmap_blocks) * 1024,
            0 <= sb.imap_blocks,
            0 <= sb.zmap_blocks,
            q == (num - 1) * 64,
            0 < num,
            off == base + q,
            s == base + (q / 1024) * 1024,
            o == q % 1024,
    ;
    assert(inode_table_offset_spec(sb) + (num - 1) * 64 == off);
    assert(s <= off < 0x100_0000_0000) by (nonlinear_arith)
        requires
            off == base + q,
            s == off - off % 1024,
            base == (2 + sb.imap_blocks + sb.zmap_blocks) * 1024,
            sb.imap_blocks <= 0xffff,
            sb.zmap_blocks <= 0xffff,
            q == (num - 1) * 64,
            num <= 0xffff_ffff,
    ;
    assert(((s as u64) / 512) as int * 512 == s) by (nonlinear_arith)
        requires
            s % 1024 == 0,
            0 <= s < 0x100_0000_0000,
    ;
    let b = d.subrange(s, s + 1024);
    assert(disk_read(d, s as u64, 1024) == Some(b));
    assert forall|j: int| 0 <= j < 64 implies #[trigger] b[o + j] == d[off + j] by {}
    let x = inode_at(b, o);
    let y = inode_at(d, off);
    assert(x.zones@ =~= y.zones@);
    assert(x == y);
}
/// Mounting reads the superblock from disk bytes 1024..2048: it succeeds
/// exactly when the disk holds them and the magic at byte 1048 is the
/// Minix 3 magic 0x4d5a, and the superblock's inode count, inode-bitmap
/// and zone-bitmap block counts are then the values at bytes 1024, 1030
/// and 1032.
pub proof fn lemma_mount_reads_superblock(d: Seq<u8>)
    ensures
        d.len() < 2048 ==> mount_spec(d) == Err::<SuperBlock, FsError>(FsError::BlockReadFailed),
        d.len() >= 2048 ==> {
            &&& (mount_spec(d) is Ok) == (le_u16(d, 1048) == 0x4d5a)
            &&& mount_spec(d) matches Ok(sb) ==> {
                &&& sb.ninodes == le_u32(d, 1024)
                &&& sb.imap_blocks == le_u16(d, 1030)
                &&& sb.zmap_blocks == le_u16(d, 1032)
                &&& sb.magic == 0x4d5a
            }
        },
{
    if d.len() >= 2048 {
        let b = d.subrange(1024, 2048);
        assert(disk_read(d, 1024, 1024) == Some(b));
        lemma_le_in_block(d, 1024, 0);
        lemma_le_in_block(d, 1024, 4);
        lemma_le_in_block(d, 1024, 8);
        lemma_le_in_block(d, 1024, 24);
    }
}

} // verus!

//! Sv39 page table walker, mapper, and inverse lookup.
//!
//! Sv39 virtual addresses are 39 bits split into three 9-bit VPNs plus
//! a 12-bit page offset. Each level of the walk indexes a 512-entry
//! table with the matching VPN slice, so a full walk is at most three
//! memory accesses. Tables live in the heap's data pages.

use vstd::prelude::*;

use crate::mm::allocator::page_frame::{
    Heap, PAGE_SIZE, clear_run, deallocate, first_fit, lemma_allocate_one, lemma_desc_bits,
    run_end_from, zallocate, zero_pages,
};
use super::types::{Entry, PteFlags, Table, pte_branch, pte_leaf, pte_valid};

verus! {

/// Bits 39 and up of a physical address do not fit a Sv39 PTE beyond 56.
pub open spec fn pa_mask() -> usize {
    0x00ff_ffff_ffff_ffffu64 as usize
}

/// The 9-bit virtual page number of `va` at `level` (0, 1 or 2).
pub open spec fn vpn(va: usize, level: int) -> int {
    if level == 0 {
        ((va >> 12usize) & 0x1ffusize) as int
    } else if level == 1 {
        ((va >> 21usize) & 0x1ffusize) as int
    } else {
        ((va >> 30usize) & 0x1ffusize) as int
    }
}

/// Offset bits inside a page mapped at `level`: superpages grow the
/// offset by 9 bits per level.
pub open spec fn off_mask(level: int) -> usize {
    if level == 0 {
        0xfffusize
    } else if level == 1 {
        0x1f_ffffusize
    } else {
        0x3fff_ffffusize
    }
}

/// Address of the next-level table a branch entry points at.
pub open spec fn pte_target(e: i64) -> int {
    (((e & !0x3ffi64) << 2i64) as usize) as int
}

/// Physical address that a leaf entry at `level` gives for `va`.
pub open spec fn leaf_phys(e: i64, va: usize, level: int) -> int {
    ((((e << 2i64) as usize) & !off_mask(level)) | (va & off_mask(level))) as int
}

/// A branch entry pointing at the table at `addr`.
pub open spec fn branch_pte(addr: usize) -> i64 {
    ((addr as i64) >> 2i64) | 1i64
}

/// A leaf entry for physical address `pa` with flag bits `bits`.
///
/// Layout of a leaf PTE (Sv39):
///   [53:28] PPN[2]  [27:19] PPN[1]  [18:10] PPN[0]  [9:0] flags
pub open spec fn leaf_pte(pa: usize, bits: i64) -> i64 {
    ((((pa >> 30usize) & 0x3ff_ffffusize) << 28usize) as i64) | ((((pa >> 21usize) & 0x1ffusize)
        << 19usize) as i64) | ((((pa >> 12usize) & 0x1ffusize) << 10usize) as i64) | bits | 1i64
}

/// A leaf entry for a page-aligned frame below 2^56 is the Sv39 PTE: the
/// frame's page number in bits 10..53, the flag bits `bits` (R, W, X, U,
/// G, A, D) below them, and the valid bit set; bits 54..63 are zero.
pub proof fn lemma_leaf_pte_layout(pa: usize, bits: i64)
    requires
        usize::BITS == 64,
        pa % 4096 == 0,
        pa < 0x100_0000_0000_0000,
        0 <= bits < 256,
    ensures
        leaf_pte(pa, bits) == (((pa >> 12usize) << 10usize) as i64) | bits | 1i64,
        leaf_pte(pa, bits) >> 54i64 == 0,
        leaf_pte(pa, bits) & 0xffi64 == bits | 1i64,
        ((leaf_pte(pa, bits) >> 10i64) << 12i64) as usize == pa,
{
    let e = leaf_pte(pa, bits);
    assert(e == (((pa >> 12usize) << 10usize) as i64) | bits | 1i64 && e >> 54i64 == 0 && e
        & 0xffi64 == bits | 1i64 && ((e >> 10i64) << 12i64) as usize == pa) by (bit_vector)
        requires
            usize::BITS == 64,
            pa % 4096 == 0,
            pa < 0x100_0000_0000_0000u64 as usize,
            0 <= bits < 256,
            e == ((((pa >> 30usize) & 0x3ff_ffffusize) << 28usize) as i64) | ((((pa >> 21usize)
                & 0x1ffusize) << 19usize) as i64) | ((((pa >> 12usize) & 0x1ffusize) << 10usize)
                as i64) | bits | 1i64,
    ;
}

/// The entry the walk for `va` reads at `level`.
pub open spec fn entry_at(h: Heap, r: int, va: usize, level: int) -> i64 {
    if level == 2 {
        e2(h, r, vpn(va, 2))
    } else if level == 1 {
        e1(h, r, vpn(va, 2), vpn(va, 1))
    } else {
        h.word(t0(h, r, vpn(va, 2), vpn(va, 1)), vpn(va, 0))
    }
}

/// The walk for `va` reaches a level-0 table.
pub open spec fn has_path(h: Heap, r: int, va: usize) -> bool {
    br2(h, r, vpn(va, 2)) && br1(h, r, vpn(va, 2), vpn(va, 1))
}

/// Where `va` lands once mapped to `pa` by a leaf at `level`.
pub open spec fn mapped_addr(pa: usize, va: usize, level: int) -> int {
    ((pa & pa_mask() & !off_mask(level)) | (va & off_mask(level))) as int
}

/// `va` and `va2` fall into the same page of size given by `level`, as
/// far as the walk can tell (the walk reads bits 12..39 only).
pub open spec fn same_region(va2: usize, va: usize, level: int) -> bool {
    &&& vpn(va2, 2) == vpn(va, 2)
    &&& level <= 1 ==> vpn(va2, 1) == vpn(va, 1)
    &&& level <= 0 ==> vpn(va2, 0) == vpn(va, 0)
}

/// A 4 KiB mapping keeps the page offset: an address mapped to the page
/// at `pa` (below 2^56, page-aligned) lands at `pa` plus its offset in its
/// own page.
pub proof fn lemma_mapped_keeps_offset(pa: usize, va: usize)
    requires
        usize::BITS == 64,
        pa < 0x100_0000_0000_0000,
        pa % 4096 == 0,
    ensures
        mapped_addr(pa, va, 0) == pa + va % 4096,
{
    assert(((pa & (0x00ff_ffff_ffff_ffffu64 as usize) & !0xfffusize) | (va & 0xfffusize)) == pa + va
        % 4096) by (bit_vector)
        requires
            usize::BITS == 64,
            pa < (0x100_0000_0000_0000u64 as usize),
            pa % 4096 == 0,
    ;
}

pub proof fn lemma_vpn_range(va: usize, level: int)
    ensures
        0 <= vpn(va, level) < 512,
{
    let a = va >> 12usize;
    let b = va >> 21usize;
    let c = va >> 30usize;
    assert((a & 0x1ffusize) < 512 && (b & 0x1ffusize) < 512 && (c & 0x1ffusize) < 512)
        by (bit_vector);
}

pub proof fn lemma_branch_pte(addr: usize)
    requires
        usize::BITS == 64,
        addr % 4096 == 0,
        addr < 0x100_0000_0000_0000,
    ensures
        pte_target(branch_pte(addr)) == addr,
        pte_valid(branch_pte(addr)),
        !pte_leaf(branch_pte(addr)),
{
    assert((((((addr as i64) >> 2i64) | 1i64) & !0x3ffi64) << 2i64) as usize == addr
        && (((addr as i64) >> 2i64) | 1i64) & 1i64 != 0
        && (((addr as i64) >> 2i64) | 1i64) & 0xei64 == 0) by (bit_vector)
        requires
            usize::BITS == 64,
            addr % 4096 == 0,
            addr < 0x100_0000_0000_0000u64 as usize,
    ;
}

pub proof fn lemma_zero_pte()
    ensures
        !pte_valid(0i64),
        !pte_leaf(0i64),
{
    assert(0i64 & 1i64 == 0 && 0i64 & 0xei64 == 0) by (bit_vector);
}

pub proof fn lemma_leaf_pte(pa: usize, bits: i64, va: usize, level: int)
    requires
        usize::BITS == 64,
        0 <= bits <= 0xff,
        bits & 0xei64 != 0,
        0 <= level <= 2,
    ensures
        pte_valid(leaf_pte(pa, bits)),
        pte_leaf(leaf_pte(pa, bits)),
        leaf_phys(leaf_pte(pa, bits), va, level) == mapped_addr(pa, va, level),
{
    let e = leaf_pte(pa, bits);
    assert(e & 1i64 != 0 && e & 0xei64 != 0) by (bit_vector)
        requires
            e == ((((pa >> 30usize) & 0x3ff_ffffusize) << 28usize) as i64) | ((((pa >> 21usize)
                & 0x1ffusize) << 19usize) as i64) | ((((pa >> 12usize) & 0x1ffusize)
                << 10usize) as i64) | bits | 1i64,
            bits & 0xei64 != 0,
    ;
    if level == 0 {
        assert((((e << 2i64) as usize) & !0xfffusize) | (va & 0xfffusize) == (pa
            & (0x00ff_ffff_ffff_ffffu64 as usize) & !0xfffusize) | (va & 0xfffusize))
            by (bit_vector)
            requires
                usize::BITS == 64,
                e == ((((pa >> 30usize) & 0x3ff_ffffusize) << 28usize) as i64) | ((((pa
                    >> 21usize) & 0x1ffusize) << 19usize) as i64) | ((((pa >> 12usize)
                    & 0x1ffusize) << 10usize) as i64) | bits | 1i64,
                0 <= bits <= 0xff,
        ;
    } else if level == 1 {
        assert((((e << 2i64) as usize) & !0x1f_ffffusize) | (va & 0x1f_ffffusize) == (pa
            & (0x00ff_ffff_ffff_ffffu64 as usize) & !0x1f_ffffusize) | (va & 0x1f_ffffusize))
            by (bit_vector)
            requires
                usize::BITS == 64,
                e == ((((pa >> 30usize) & 0x3ff_ffffusize) << 28usize) as i64) | ((((pa
                    >> 21usize) & 0x1ffusize) << 19usize) as i64) | ((((pa >> 12usize)
                    & 0x1ffusize) << 10usize) as i64) | bits | 1i64,
                0 <= bits <= 0xff,
        ;
    } else {
        assert((((e << 2i64) as usize) & !0x3fff_ffffusize) | (va & 0x3fff_ffffusize) == (pa
            & (0x00ff_ffff_ffff_ffffu64 as usize) & !0x3fff_ffffusize) | (va & 0x3fff_ffffusize))
            by (bit_vector)
            requires
                usize::BITS == 64,
                e == ((((pa >> 30usize) & 0x3ff_ffffusize) << 28usize) as i64) | ((((pa
                    >> 21usize) & 0x1ffusize) << 19usize) as i64) | ((((pa >> 12usize)
                    & 0x1ffusize) << 10usize) as i64) | bits | 1i64,
                0 <= bits <= 0xff,
        ;
    }
}


// ---------------------------------------------------------------------
// The walk over tables held in the heap.

/// A table of the tree: a data page allocated as a one-page run.
pub open spec fn table_frame(h: Heap, a: int) -> bool {
    h.is_frame(a) && h.desc_at(a) == 3u8
}

/// Root entry `i`.
pub open spec fn e2(h: Heap, r: int, i: int) -> i64 {
    h.word(r, i)
}

/// Root entry `i` points at a level-1 table.
pub open spec fn br2(h: Heap, r: int, i: int) -> bool {
    0 <= i < 512 && pte_branch(e2(h, r, i))
}

/// The level-1 table under root entry `i`.
pub open spec fn t1(h: Heap, r: int, i: int) -> int {
    pte_target(e2(h, r, i))
}

/// Entry `j` of the level-1 table under root entry `i`.
pub open spec fn e1(h: Heap, r: int, i: int, j: int) -> i64 {
    h.word(t1(h, r, i), j)
}

pub open spec fn br1(h: Heap, r: int, i: int, j: int) -> bool {
    br2(h, r, i) && 0 <= j < 512 && pte_branch(e1(h, r, i, j))
}

/// The level-0 table under entry `j` of the level-1 table under `i`.
pub open spec fn t0(h: Heap, r: int, i: int, j: int) -> int {
    pte_target(e1(h, r, i, j))
}

/// What a level-0 entry gives for `va`.
pub open spec fn walk0(x0: i64, va: usize) -> Option<int> {
    if !pte_valid(x0) {
        None
    } else if pte_leaf(x0) {
        Some(leaf_phys(x0, va, 0))
    } else {
        // A branch at level 0 is malformed: there is no level -1.
        None
    }
}

/// What a level-1 entry gives for `va`.
pub open spec fn walk1(h: Heap, x1: i64, va: usize) -> Option<int> {
    if !pte_valid(x1) {
        None
    } else if pte_leaf(x1) {
        Some(leaf_phys(x1, va, 1))
    } else {
        walk0(h.word(pte_target(x1), vpn(va, 0)), va)
    }
}

/// What a root entry gives for `va`.
pub open spec fn walk2(h: Heap, x2: i64, va: usize) -> Option<int> {
    if !pte_valid(x2) {
        None
    } else if pte_leaf(x2) {
        Some(leaf_phys(x2, va, 2))
    } else {
        walk1(h, h.word(pte_target(x2), vpn(va, 1)), va)
    }
}

/// The Sv39 translation of `va` by the tree rooted at `r`.
pub open spec fn translate(h: Heap, r: int, va: usize) -> Option<int> {
    walk2(h, h.word(r, vpn(va, 2)), va)
}

/// The tables reachable from `r` are allocated one-page runs, and no two
/// of them share a page: writing one table never changes another.
pub open spec fn tree_wf(h: Heap, r: int) -> bool {
    &&& table_frame(h, r)
    &&& forall|i: int| #[trigger]
        br2(h, r, i) ==> table_frame(h, t1(h, r, i)) && t1(h, r, i) != r
    &&& forall|i: int, j: int| #[trigger]
        br1(h, r, i, j) ==> table_frame(h, t0(h, r, i, j)) && t0(h, r, i, j) != r
    &&& forall|i: int, i2: int|
        #![trigger t1(h, r, i), t1(h, r, i2)]
        br2(h, r, i) && br2(h, r, i2) && t1(h, r, i) == t1(h, r, i2) ==> i == i2
    &&& forall|i: int, j: int, k: int|
        #![trigger t0(h, r, i, j), t1(h, r, k)]
        br1(h, r, i, j) && br2(h, r, k) ==> t0(h, r, i, j) != t1(h, r, k)
    &&& forall|i: int, j: int, i2: int, j2: int|
        #![trigger t0(h, r, i, j), t0(h, r, i2, j2)]
        br1(h, r, i, j) && br1(h, r, i2, j2) && t0(h, r, i, j) == t0(h, r, i2, j2) ==> i == i2
            && j == j2
}

/// Distinct (page, word) pairs are distinct memory words.
pub proof fn lemma_word_distinct(f: int, idx: int, g: int, idx2: int)
    requires
        0 <= idx < 512,
        0 <= idx2 < 512,
        f != g || idx != idx2,
    ensures
        f * 512 + idx != g * 512 + idx2,
{
    if f != g {
        if f < g {
            assert(f * 512 + 512 <= g * 512) by (nonlinear_arith)
                requires
                    f < g,
            ;
        } else {
            assert(g * 512 + 512 <= f * 512) by (nonlinear_arith)
                requires
                    g < f,
            ;
        }
    }
}

/// After writing one word, every other word reads as before.
pub proof fn lemma_word_update(h: Heap, h2: Heap, a: int, idx: int, v: i64, b: int, idx2: int)
    requires
        h.wf(),
        h2.wf(),
        h2.same_geometry(&h),
        h.is_frame(a),
        h.is_frame(b),
        0 <= idx < 512,
        0 <= idx2 < 512,
        h2.mem() == h.mem().update(h.frame_index(a) * 512 + idx, v),
    ensures
        h2.word(b, idx2) == if a == b && idx == idx2 {
            v
        } else {
            h.word(b, idx2)
        },
{
    crate::mm::allocator::page_frame::lemma_word_index(h.frame_index(b), idx2, h.npages());
    crate::mm::allocator::page_frame::lemma_word_index(h.frame_index(a), idx, h.npages());
    if a != b {
        assert(h.frame_index(a) != h.frame_index(b));
        lemma_word_distinct(h.frame_index(a), idx, h.frame_index(b), idx2);
    } else if idx != idx2 {
        lemma_word_distinct(h.frame_index(a), idx, h.frame_index(b), idx2);
    }
}

/// After zeroing one page, words of other pages read as before.
pub proof fn lemma_word_zeroed(h: Heap, h2: Heap, fi: int, b: int, idx2: int)
    requires
        h.wf(),
        h2.wf(),
        h2.same_geometry(&h),
        0 <= fi < h.npages(),
        h.is_frame(b),
        0 <= idx2 < 512,
        h2.mem() == zero_pages(h.mem(), fi, 1),
    ensures
        h2.word(b, idx2) == if h.frame_index(b) == fi {
            0i64
        } else {
            h.word(b, idx2)
        },
{
    let g = h.frame_index(b);
    crate::mm::allocator::page_frame::lemma_word_index(g, idx2, h.npages());
    if g < fi {
        assert(g * 512 + idx2 < fi * 512) by (nonlinear_arith)
            requires
                g < fi,
                0 <= idx2 < 512,
        ;
    } else if g > fi {
        assert(g * 512 + idx2 >= (fi + 1) * 512) by (nonlinear_arith)
            requires
                g > fi,
                0 <= idx2,
        ;
    } else {
        assert(fi * 512 <= g * 512 + idx2 < (fi + 1) * 512) by (nonlinear_arith)
            requires
                g == fi,
                0 <= idx2 < 512,
        ;
    }
}


/// `h3` keeps every word of every allocated table of `h` apart from word
/// `n` of the table at `t`, and keeps those tables allocated, except
/// perhaps the table at `dropped`.
pub open spec fn tables_kept_except(h: Heap, h3: Heap, t: int, n: int, dropped: int) -> bool {
    &&& forall|a: int, idx: int|
        #![trigger h3.word(a, idx)]
        table_frame(h, a) && 0 <= idx < 512 && !(a == t && idx == n) ==> h3.word(a, idx)
            == h.word(a, idx)
    &&& forall|a: int| #[trigger] table_frame(h, a) && a != dropped ==> table_frame(h3, a)
}

/// `f` is a page that was free in `h` and is an all-zero table in `h3`.
pub open spec fn fresh_table(h: Heap, h3: Heap, f: int) -> bool {
    &&& h.is_frame(f)
    &&& h.desc_at(f) == 0u8
    &&& table_frame(h3, f)
    &&& forall|idx: int| 0 <= idx < 512 ==> #[trigger] h3.word(f, idx) == 0i64
}

/// What an entry written into the tree may be: a leaf, an invalid entry,
/// or a pointer to a fresh empty table.
pub open spec fn new_entry_ok(h: Heap, h3: Heap, v: i64) -> bool {
    ||| !pte_valid(v)
    ||| pte_leaf(v)
    ||| fresh_table(h, h3, pte_target(v))
}

/// The walk below a new entry `v`: a fresh table translates nothing.
pub open spec fn walk2_new(v: i64, va: usize) -> Option<int> {
    if pte_valid(v) && pte_leaf(v) {
        Some(leaf_phys(v, va, 2))
    } else {
        None
    }
}

pub open spec fn walk1_new(v: i64, va: usize) -> Option<int> {
    if pte_valid(v) && pte_leaf(v) {
        Some(leaf_phys(v, va, 1))
    } else {
        None
    }
}

/// Writing root entry `i`: only addresses under that entry change.
pub proof fn lemma_write_root(h: Heap, h3: Heap, r: int, i: int, v: i64, dropped: int)
    requires
        h.wf(),
        h3.wf(),
        h3.same_geometry(&h),
        tree_wf(h, r),
        0 <= i < 512,
        tables_kept_except(h, h3, r, i, dropped),
        dropped == -1 || (br2(h, r, i) && dropped == t1(h, r, i) && !pte_branch(v) && forall|j: int|
            !#[trigger] br1(h, r, i, j)),
        h3.word(r, i) == v,
        new_entry_ok(h, h3, v),
    ensures
        tree_wf(h3, r),
        forall|va: usize|
            #[trigger] translate(h3, r, va) == if vpn(va, 2) == i {
                walk2_new(v, va)
            } else {
                translate(h, r, va)
            },
        br2(h3, r, i) <==> pte_branch(v),
        pte_branch(v) ==> t1(h3, r, i) == pte_target(v),
{
    lemma_zero_pte();
    // Subtrees under other root entries are untouched.
    assert forall|k: int| 0 <= k < 512 && k != i implies (br2(h3, r, k) == br2(h, r, k) && t1(h3,
        r,
        k,
    ) == t1(h, r, k)) by {
        assert(h3.word(r, k) == h.word(r, k));
    }
    assert forall|k: int, j: int| 0 <= k < 512 && k != i && 0 <= j < 512 && br2(h, r, k) implies (
    e1(h3, r, k, j) == e1(h, r, k, j) && br1(h3, r, k, j) == br1(h, r, k, j) && t0(h3, r, k, j)
        == t0(h, r, k, j)) by {
        assert(h3.word(r, k) == h.word(r, k));
        assert(table_frame(h, t1(h, r, k)));
        assert(h3.word(t1(h, r, k), j) == h.word(t1(h, r, k), j));
    }
    if pte_branch(v) {
        let f = pte_target(v);
        assert(fresh_table(h, h3, f));
        assert(t1(h3, r, i) == f);
        assert forall|j: int| 0 <= j < 512 implies !br1(h3, r, i, j) by {
            assert(h3.word(f, j) == 0i64);
        }
        // f was free, so it is none of the old tables.
        assert forall|k: int| #[trigger] br2(h, r, k) implies t1(h, r, k) != f by {
            assert(table_frame(h, t1(h, r, k)));
        }
        assert forall|k: int, j: int| #[trigger] br1(h, r, k, j) implies t0(h, r, k, j) != f by {
            assert(table_frame(h, t0(h, r, k, j)));
        }
        assert(f != r);
    }
    assert forall|va: usize| #[trigger] translate(h3, r, va) == if vpn(va, 2) == i {
        walk2_new(v, va)
    } else {
        translate(h, r, va)
    } by {
        lemma_vpn_range(va, 2);
        lemma_vpn_range(va, 1);
        lemma_vpn_range(va, 0);
        let k = vpn(va, 2);
        if k == i {
            if pte_branch(v) {
                assert(h3.word(pte_target(v), vpn(va, 1)) == 0i64);
            }
        } else {
            assert(h3.word(r, k) == h.word(r, k));
            if br2(h, r, k) {
                let j = vpn(va, 1);
                assert(table_frame(h, t1(h, r, k)));
                assert(h3.word(t1(h, r, k), j) == h.word(t1(h, r, k), j));
                if br1(h, r, k, j) {
                    assert(table_frame(h, t0(h, r, k, j)));
                    assert(h3.word(t0(h, r, k, j), vpn(va, 0)) == h.word(
                        t0(h, r, k, j),
                        vpn(va, 0),
                    ));
                }
            }
        }
    }
    assert(tree_wf(h3, r)) by {
        assert forall|k: int| #[trigger] br2(h3, r, k) implies table_frame(h3, t1(h3, r, k)) && t1(
            h3,
            r,
            k,
        ) != r by {
            if k != i {
                assert(table_frame(h, t1(h, r, k)));
            }
        }
        assert forall|k: int, j: int| #[trigger] br1(h3, r, k, j) implies table_frame(
            h3,
            t0(h3, r, k, j),
        ) && t0(h3, r, k, j) != r by {
            if k != i {
                assert(br1(h, r, k, j));
                assert(table_frame(h, t0(h, r, k, j)));
            } else {
                assert(h3.word(pte_target(v), j) == 0i64);
            }
        }
        assert forall|k: int, k2: int|
            br2(h3, r, k) && br2(h3, r, k2) && #[trigger] t1(h3, r, k) == #[trigger] t1(h3, r, k2)
            implies k == k2 by {
            if k != i && k2 != i {
                assert(t1(h, r, k) == t1(h, r, k2));
            } else if k != i {
                assert(br2(h, r, k));
            } else if k2 != i {
                assert(br2(h, r, k2));
            }
        }
        assert forall|k: int, j: int, k2: int|
            br1(h3, r, k, j) && br2(h3, r, k2) implies #[trigger] t0(h3, r, k, j) != #[trigger] t1(
            h3,
            r,
            k2,
        ) by {
            if k == i {
                assert(h3.word(pte_target(v), j) == 0i64);
            } else {
                assert(br1(h, r, k, j));
                assert(table_frame(h, t0(h, r, k, j)));
                if k2 != i {
                    assert(t0(h, r, k, j) != t1(h, r, k2));
                }
            }
        }
        assert forall|k: int, j: int, k2: int, j2: int|
            br1(h3, r, k, j) && br1(h3, r, k2, j2) && #[trigger] t0(h3, r, k, j) == #[trigger] t0(
                h3,
                r,
                k2,
                j2,
            ) implies k == k2 && j == j2 by {
            if k == i {
                assert(h3.word(pte_target(v), j) == 0i64);
            } else if k2 == i {
                assert(h3.word(pte_target(v), j2) == 0i64);
            } else {
                assert(br1(h, r, k, j));
                assert(br1(h, r, k2, j2));
                assert(t0(h, r, k, j) == t0(h, r, k2, j2));
            }
        }
    }
}


/// Writing entry `j` of the level-1 table under root entry `i`: only
/// addresses under that entry change.
pub proof fn lemma_write_l1(h: Heap, h3: Heap, r: int, i: int, j: int, v: i64, dropped: int)
    requires
        h.wf(),
        h3.wf(),
        h3.same_geometry(&h),
        tree_wf(h, r),
        br2(h, r, i),
        0 <= j < 512,
        tables_kept_except(h, h3, t1(h, r, i), j, dropped),
        dropped == -1 || (br1(h, r, i, j) && dropped == t0(h, r, i, j) && !pte_branch(v)),
        h3.word(t1(h, r, i), j) == v,
        new_entry_ok(h, h3, v),
    ensures
        tree_wf(h3, r),
        forall|va: usize|
            #[trigger] translate(h3, r, va) == if vpn(va, 2) == i && vpn(va, 1) == j {
                walk1_new(v, va)
            } else {
                translate(h, r, va)
            },
        br2(h3, r, i),
        t1(h3, r, i) == t1(h, r, i),
        br1(h3, r, i, j) <==> pte_branch(v),
        pte_branch(v) ==> t0(h3, r, i, j) == pte_target(v),
{
    lemma_zero_pte();
    let t = t1(h, r, i);
    assert(table_frame(h, t));
    assert(t != r);
    // Root entries are untouched.
    assert forall|k: int| 0 <= k < 512 implies h3.word(r, k) == h.word(r, k) by {}
    assert forall|k: int| 0 <= k < 512 implies (br2(h3, r, k) == br2(h, r, k) && t1(h3, r, k)
        == t1(h, r, k)) by {
        assert(h3.word(r, k) == h.word(r, k));
    }
    // Level-1 entries elsewhere are untouched.
    assert forall|k: int, m: int|
        0 <= m < 512 && br2(h, r, k) && !(k == i && m == j) implies (e1(h3, r, k, m) == e1(
        h,
        r,
        k,
        m,
    ) && br1(h3, r, k, m) == br1(h, r, k, m) && t0(h3, r, k, m) == t0(h, r, k, m)) by {
        assert(table_frame(h, t1(h, r, k)));
        if k != i {
            assert(t1(h, r, k) != t);
        }
        assert(h3.word(t1(h, r, k), m) == h.word(t1(h, r, k), m));
    }
    assert(e1(h3, r, i, j) == v);
    if pte_branch(v) {
        let f = pte_target(v);
        assert(fresh_table(h, h3, f));
        assert forall|k: int| #[trigger] br2(h, r, k) implies t1(h, r, k) != f by {
            assert(table_frame(h, t1(h, r, k)));
        }
        assert forall|k: int, m: int| #[trigger] br1(h, r, k, m) implies t0(h, r, k, m) != f by {
            assert(table_frame(h, t0(h, r, k, m)));
        }
        assert(f != r);
    }
    // Level-0 tables of the tree are untouched: none of them is `t`.
    assert forall|k: int, m: int, n: int|
        br1(h, r, k, m) && 0 <= n < 512 implies #[trigger] h3.word(t0(h, r, k, m), n) == h.word(
        t0(h, r, k, m),
        n,
    ) by {
        assert(table_frame(h, t0(h, r, k, m)));
        assert(t0(h, r, k, m) != t1(h, r, i));
    }
    assert forall|va: usize| #[trigger] translate(h3, r, va) == if vpn(va, 2) == i && vpn(va, 1)
        == j {
        walk1_new(v, va)
    } else {
        translate(h, r, va)
    } by {
        lemma_vpn_range(va, 2);
        lemma_vpn_range(va, 1);
        lemma_vpn_range(va, 0);
        let k = vpn(va, 2);
        let m = vpn(va, 1);
        assert(h3.word(r, k) == h.word(r, k));
        if k == i && m == j {
            if pte_branch(v) {
                assert(h3.word(pte_target(v), vpn(va, 0)) == 0i64);
            }
        } else if br2(h, r, k) {
            assert(e1(h3, r, k, m) == e1(h, r, k, m));
            if br1(h, r, k, m) {
                assert(h3.word(t0(h, r, k, m), vpn(va, 0)) == h.word(t0(h, r, k, m), vpn(va, 0)));
            }
        }
    }
    assert(tree_wf(h3, r)) by {
        assert forall|k: int| #[trigger] br2(h3, r, k) implies table_frame(h3, t1(h3, r, k)) && t1(
            h3,
            r,
            k,
        ) != r by {
            assert(table_frame(h, t1(h, r, k)));
        }
        assert forall|k: int, m: int| #[trigger] br1(h3, r, k, m) implies table_frame(
            h3,
            t0(h3, r, k, m),
        ) && t0(h3, r, k, m) != r by {
            if !(k == i && m == j) {
                assert(br1(h, r, k, m));
                assert(table_frame(h, t0(h, r, k, m)));
            }
        }
        assert forall|k: int, k2: int|
            br2(h3, r, k) && br2(h3, r, k2) && #[trigger] t1(h3, r, k) == #[trigger] t1(h3, r, k2)
            implies k == k2 by {
            assert(t1(h, r, k) == t1(h, r, k2));
        }
        assert forall|k: int, m: int, k2: int|
            br1(h3, r, k, m) && br2(h3, r, k2) implies #[trigger] t0(h3, r, k, m) != #[trigger] t1(
            h3,
            r,
            k2,
        ) by {
            assert(br2(h, r, k2));
            assert(table_frame(h, t1(h, r, k2)));
            if !(k == i && m == j) {
                assert(br1(h, r, k, m));
                assert(t0(h, r, k, m) != t1(h, r, k2));
            }
        }
        assert forall|k: int, m: int, k2: int, m2: int|
            br1(h3, r, k, m) && br1(h3, r, k2, m2) && #[trigger] t0(h3, r, k, m) == #[trigger] t0(
                h3,
                r,
                k2,
                m2,
            ) implies k == k2 && m == m2 by {
            if !(k == i && m == j) && !(k2 == i && m2 == j) {
                assert(br1(h, r, k, m));
                assert(br1(h, r, k2, m2));
                assert(t0(h, r, k, m) == t0(h, r, k2, m2));
            } else if !(k == i && m == j) {
                assert(br1(h, r, k, m));
                assert(table_frame(h, t0(h, r, k, m)));
            } else if !(k2 == i && m2 == j) {
                assert(br1(h, r, k2, m2));
                assert(table_frame(h, t0(h, r, k2, m2)));
            }
        }
    }
}

/// Writing a leaf into entry `k` of the level-0 table under `(i, j)`:
/// only addresses in that 4 KiB page change.
pub proof fn lemma_write_l0(h: Heap, h3: Heap, r: int, i: int, j: int, k: int, v: i64)
    requires
        h.wf(),
        h3.wf(),
        h3.same_geometry(&h),
        tree_wf(h, r),
        br1(h, r, i, j),
        0 <= k < 512,
        tables_kept_except(h, h3, t0(h, r, i, j), k, -1),
        h3.word(t0(h, r, i, j), k) == v,
        pte_valid(v),
        pte_leaf(v),
    ensures
        tree_wf(h3, r),
        forall|va: usize|
            #[trigger] translate(h3, r, va) == if vpn(va, 2) == i && vpn(va, 1) == j && vpn(va, 0)
                == k {
                Some(leaf_phys(v, va, 0))
            } else {
                translate(h, r, va)
            },
{
    let t = t0(h, r, i, j);
    assert(table_frame(h, t));
    assert forall|a: int| 0 <= a < 512 implies h3.word(r, a) == h.word(r, a) by {}
    assert forall|a: int| 0 <= a < 512 implies (br2(h3, r, a) == br2(h, r, a) && t1(h3, r, a)
        == t1(h, r, a)) by {
        assert(h3.word(r, a) == h.word(r, a));
    }
    assert forall|a: int, m: int| 0 <= m < 512 && br2(h, r, a) implies (e1(h3, r, a, m) == e1(
        h,
        r,
        a,
        m,
    ) && br1(h3, r, a, m) == br1(h, r, a, m) && t0(h3, r, a, m) == t0(h, r, a, m)) by {
        assert(table_frame(h, t1(h, r, a)));
        assert(t1(h, r, a) != t);
        assert(h3.word(t1(h, r, a), m) == h.word(t1(h, r, a), m));
    }
    assert forall|a: int, m: int, n: int|
        br1(h, r, a, m) && 0 <= n < 512 && !(a == i && m == j && n == k) implies #[trigger] h3.word(
        t0(h, r, a, m),
        n,
    ) == h.word(t0(h, r, a, m), n) by {
        assert(table_frame(h, t0(h, r, a, m)));
        if !(a == i && m == j) {
            assert(t0(h, r, a, m) != t);
        }
    }
    assert forall|va: usize| #[trigger] translate(h3, r, va) == if vpn(va, 2) == i && vpn(va, 1)
        == j && vpn(va, 0) == k {
        Some(leaf_phys(v, va, 0))
    } else {
        translate(h, r, va)
    } by {
        lemma_vpn_range(va, 2);
        lemma_vpn_range(va, 1);
        lemma_vpn_range(va, 0);
        let a = vpn(va, 2);
        let m = vpn(va, 1);
        let n = vpn(va, 0);
        assert(h3.word(r, a) == h.word(r, a));
        if br2(h, r, a) {
            assert(e1(h3, r, a, m) == e1(h, r, a, m));
            if br1(h, r, a, m) {
                if !(a == i && m == j && n == k) {
                    assert(h3.word(t0(h, r, a, m), n) == h.word(t0(h, r, a, m), n));
                }
            }
        }
    }
    assert(tree_wf(h3, r)) by {
        assert forall|a: int| #[trigger] br2(h3, r, a) implies table_frame(h3, t1(h3, r, a)) && t1(
            h3,
            r,
            a,
        ) != r by {
            assert(table_frame(h, t1(h, r, a)));
        }
        assert forall|a: int, m: int| #[trigger] br1(h3, r, a, m) implies table_frame(
            h3,
            t0(h3, r, a, m),
        ) && t0(h3, r, a, m) != r by {
            assert(br1(h, r, a, m));
            assert(table_frame(h, t0(h, r, a, m)));
        }
        assert forall|a: int, a2: int|
            br2(h3, r, a) && br2(h3, r, a2) && #[trigger] t1(h3, r, a) == #[trigger] t1(h3, r, a2)
            implies a == a2 by {
            assert(t1(h, r, a) == t1(h, r, a2));
        }
        assert forall|a: int, m: int, a2: int|
            br1(h3, r, a, m) && br2(h3, r, a2) implies #[trigger] t0(h3, r, a, m) != #[trigger] t1(
            h3,
            r,
            a2,
        ) by {
            assert(br1(h, r, a, m));
            assert(t0(h, r, a, m) != t1(h, r, a2));
        }
        assert forall|a: int, m: int, a2: int, m2: int|
            br1(h3, r, a, m) && br1(h3, r, a2, m2) && #[trigger] t0(h3, r, a, m) == #[trigger] t0(
                h3,
                r,
                a2,
                m2,
            ) implies a == a2 && m == m2 by {
            assert(br1(h, r, a, m));
            assert(br1(h, r, a2, m2));
            assert(t0(h, r, a, m) == t0(h, r, a2, m2));
        }
    }
}


/// A new branch in the root keeps every walk free of upper-level leaves.
pub proof fn lemma_path_root(h: Heap, h3: Heap, r: int, i: int, v: i64)
    requires
        h.wf(),
        h3.wf(),
        h3.same_geometry(&h),
        tree_wf(h, r),
        0 <= i < 512,
        tables_kept_except(h, h3, r, i, -1),
        h3.word(r, i) == v,
        pte_branch(v),
        fresh_table(h, h3, pte_target(v)),
    ensures
        forall|va: usize| path_ok(h, r, va, 0) ==> #[trigger] path_ok(h3, r, va, 0),
{
    lemma_zero_pte();
    assert forall|va: usize| path_ok(h, r, va, 0) implies #[trigger] path_ok(h3, r, va, 0) by {
        lemma_vpn_range(va, 2);
        lemma_vpn_range(va, 1);
        let k = vpn(va, 2);
        let m = vpn(va, 1);
        if k == i {
            assert(h3.word(pte_target(v), m) == 0i64);
        } else {
            assert(h3.word(r, k) == h.word(r, k));
            if br2(h, r, k) {
                assert(table_frame(h, t1(h, r, k)));
                assert(h3.word(t1(h, r, k), m) == h.word(t1(h, r, k), m));
            }
        }
    }
}

/// A new branch in a level-1 table keeps every walk free of upper-level
/// leaves.
pub proof fn lemma_path_l1(h: Heap, h3: Heap, r: int, i: int, j: int, v: i64)
    requires
        h.wf(),
        h3.wf(),
        h3.same_geometry(&h),
        tree_wf(h, r),
        br2(h, r, i),
        0 <= j < 512,
        tables_kept_except(h, h3, t1(h, r, i), j, -1),
        h3.word(t1(h, r, i), j) == v,
        pte_branch(v),
    ensures
        forall|va: usize| path_ok(h, r, va, 0) ==> #[trigger] path_ok(h3, r, va, 0),
{
    assert(table_frame(h, t1(h, r, i)));
    assert forall|va: usize| path_ok(h, r, va, 0) implies #[trigger] path_ok(h3, r, va, 0) by {
        lemma_vpn_range(va, 2);
        lemma_vpn_range(va, 1);
        let k = vpn(va, 2);
        let m = vpn(va, 1);
        assert(h3.word(r, k) == h.word(r, k));
        if br2(h, r, k) && !(k == i && m == j) {
            assert(table_frame(h, t1(h, r, k)));
            assert(h3.word(t1(h, r, k), m) == h.word(t1(h, r, k), m));
        }
    }
}

/// A leaf in a level-0 table leaves every upper-level entry alone.
pub proof fn lemma_path_l0(h: Heap, h3: Heap, r: int, i: int, j: int, k: int, v: i64)
    requires
        h.wf(),
        h3.wf(),
        h3.same_geometry(&h),
        tree_wf(h, r),
        br1(h, r, i, j),
        0 <= k < 512,
        tables_kept_except(h, h3, t0(h, r, i, j), k, -1),
    ensures
        forall|va: usize| path_ok(h, r, va, 0) ==> #[trigger] path_ok(h3, r, va, 0),
{
    assert(table_frame(h, t0(h, r, i, j)));
    assert forall|va: usize| path_ok(h, r, va, 0) implies #[trigger] path_ok(h3, r, va, 0) by {
        lemma_vpn_range(va, 2);
        lemma_vpn_range(va, 1);
        let a = vpn(va, 2);
        let m = vpn(va, 1);
        assert(h3.word(r, a) == h.word(r, a));
        if br2(h, r, a) {
            assert(table_frame(h, t1(h, r, a)));
            assert(t1(h, r, a) != t0(h, r, i, j));
            assert(h3.word(t1(h, r, a), m) == h.word(t1(h, r, a), m));
        }
    }
}

// ---------------------------------------------------------------------
// Building the tree.

/// The heap lies below 2^56, the largest Sv39 physical address.
pub open spec fn below_phys_limit(h: Heap) -> bool {
    h.start() + h.npages() * 4096 <= 0x100_0000_0000_0000
}

/// The walk for `va` down to `level` meets no leaf on the way, so a leaf
/// can be installed at `level` without dereferencing a data page.
pub open spec fn path_ok(h: Heap, r: int, va: usize, level: int) -> bool {
    &&& level <= 1 ==> !(pte_valid(e2(h, r, vpn(va, 2))) && pte_leaf(e2(h, r, vpn(va, 2))))
    &&& level == 0 && br2(h, r, vpn(va, 2)) ==> !(pte_valid(e1(h, r, vpn(va, 2), vpn(va, 1)))
        && pte_leaf(e1(h, r, vpn(va, 2), vpn(va, 1))))
}

/// How many new tables mapping `va` at `level` allocates.
pub open spec fn tables_needed(h: Heap, r: int, va: usize, level: int) -> nat {
    if level == 2 {
        0
    } else if !pte_valid(e2(h, r, vpn(va, 2))) {
        if level == 1 {
            1
        } else {
            2
        }
    } else if level == 1 {
        0
    } else if !pte_valid(e1(h, r, vpn(va, 2), vpn(va, 1))) {
        1
    } else {
        0
    }
}

/// Pages that were in use keep their descriptors.
pub open spec fn used_pages_kept(h: Heap, h2: Heap) -> bool {
    forall|p: int| 0 <= p < h.npages() && h.descs()[p] != 0u8 ==> #[trigger] h2.descs()[p] == h.descs()[p]
}

proof fn lemma_page_addr_frame(h: Heap, fi: int)
    requires
        h.wf(),
        0 <= fi < h.npages(),
    ensures
        h.is_frame(h.page_addr(fi)),
        h.frame_index(h.page_addr(fi)) == fi,
        h.page_addr(fi) % 4096 == 0,
        h.page_addr(fi) + 4096 <= h.start() + h.npages() * 4096,
{
    assert((fi * 4096) % 4096 == 0 && (fi * 4096) / 4096 == fi) by (nonlinear_arith);
    assert(fi * 4096 + 4096 <= h.npages() * 4096) by (nonlinear_arith)
        requires
            fi < h.npages(),
    ;
    assert((h.start() + fi * 4096) % 4096 == 0) by (nonlinear_arith)
        requires
            h.start() % 4096 == 0,
    ;
}

/// A frame's address is below the end of the heap.
proof fn lemma_frame_bound(h: Heap, a: int)
    requires
        h.wf(),
        h.is_frame(a),
    ensures
        a + 4096 <= h.start() + h.npages() * 4096,
        a % 4096 == 0,
{
    let fi = h.frame_index(a);
    assert(a == h.start() + fi * 4096) by (nonlinear_arith)
        requires
            fi == (a - h.start()) / 4096,
            (a - h.start()) % 4096 == 0,
    ;
    lemma_page_addr_frame(h, fi);
}

/// A write that misses every word on the walk for `va` keeps that walk
/// and the level-0 entry it ends at.
pub proof fn lemma_path_kept(h: Heap, h3: Heap, r: int, t: int, n: int, va: usize)
    requires
        tree_wf(h, r),
        tables_kept_except(h, h3, t, n, -1),
        has_path(h, r, va),
        !(t == r && n == vpn(va, 2)),
        !(t == t1(h, r, vpn(va, 2)) && n == vpn(va, 1)),
        !(t == t0(h, r, vpn(va, 2), vpn(va, 1)) && n == vpn(va, 0)),
    ensures
        has_path(h3, r, va),
        t0(h3, r, vpn(va, 2), vpn(va, 1)) == t0(h, r, vpn(va, 2), vpn(va, 1)),
        entry_at(h3, r, va, 0) == entry_at(h, r, va, 0),
{
    lemma_vpn_range(va, 2);
    lemma_vpn_range(va, 1);
    lemma_vpn_range(va, 0);
    let i = vpn(va, 2);
    let j = vpn(va, 1);
    assert(table_frame(h, r));
    assert(h3.word(r, i) == h.word(r, i));
    assert(table_frame(h, t1(h, r, i)));
    assert(h3.word(t1(h, r, i), j) == h.word(t1(h, r, i), j));
    assert(table_frame(h, t0(h, r, i, j)));
    assert(h3.word(t0(h, r, i, j), vpn(va, 0)) == h.word(t0(h, r, i, j), vpn(va, 0)));
}

/// The valid root entries of the tree at `r`.
pub open spec fn l2_valid(h: Heap, r: int) -> Set<int> {
    Set::new(|i: int| 0 <= i < 512 && pte_valid(e2(h, r, i)))
}

/// The valid entries of the level-1 tables of the tree at `r`, by root
/// index and level-1 index.
pub open spec fn l1_valid(h: Heap, r: int) -> Set<(int, int)> {
    Set::new(|x: (int, int)| br2(h, r, x.0) && 0 <= x.1 < 512 && pte_valid(e1(h, r, x.0, x.1)))
}

/// Tables a 4 KiB mapping of `va` allocates when the walk finds the valid
/// root entries `v2` and level-1 entries `v1`.
pub open spec fn tables_for_page(v2: Set<int>, v1: Set<(int, int)>, va: usize) -> nat {
    if !v2.contains(vpn(va, 2)) {
        2
    } else if !v1.contains((vpn(va, 2), vpn(va, 1))) {
        1
    } else {
        0
    }
}

/// With no leaf on its walk, mapping `va` allocates the tables that
/// `tables_for_page` counts.
pub proof fn lemma_tables_needed_sets(h: Heap, r: int, va: usize)
    requires
        path_ok(h, r, va, 0),
    ensures
        tables_needed(h, r, va, 0) == tables_for_page(l2_valid(h, r), l1_valid(h, r), va),
{
    lemma_vpn_range(va, 2);
    lemma_vpn_range(va, 1);
    assert(l2_valid(h, r).contains(vpn(va, 2)) == pte_valid(e2(h, r, vpn(va, 2))));
    if pte_valid(e2(h, r, vpn(va, 2))) {
        assert(br2(h, r, vpn(va, 2)));
        assert(l1_valid(h, r).contains((vpn(va, 2), vpn(va, 1))) == pte_valid(
            e1(h, r, vpn(va, 2), vpn(va, 1)),
        ));
    }
}

/// Pointing the invalid root entry `i` at a fresh, empty table makes `i`
/// valid and adds no valid level-1 entry.
proof fn lemma_sets_link_root(h: Heap, h3: Heap, r: int, i: int, f: int)
    requires
        tree_wf(h, r),
        0 <= i < 512,
        !pte_valid(e2(h, r, i)),
        tables_kept_except(h, h3, r, i, -1),
        h3.word(r, i) == branch_pte(f as usize),
        pte_branch(branch_pte(f as usize)),
        pte_target(branch_pte(f as usize)) == f,
        fresh_table(h, h3, f),
    ensures
        l2_valid(h3, r) == l2_valid(h, r).insert(i),
        l1_valid(h3, r) == l1_valid(h, r),
{
    lemma_zero_pte();
    assert(table_frame(h, r));
    assert forall|a: int| 0 <= a < 512 && a != i implies h3.word(r, a) == h.word(r, a) by {}
    assert(l2_valid(h3, r) =~= l2_valid(h, r).insert(i));
    assert forall|x: (int, int)| l1_valid(h3, r).contains(x) == l1_valid(h, r).contains(x) by {
        let (a, m) = x;
        if 0 <= a < 512 && 0 <= m < 512 {
            if a == i {
                assert(h3.word(f, m) == 0i64);
            } else if br2(h, r, a) {
                assert(table_frame(h, t1(h, r, a)));
                assert(t1(h, r, a) != r);
                assert(h3.word(t1(h, r, a), m) == h.word(t1(h, r, a), m));
            }
        }
    }
    assert(l1_valid(h3, r) =~= l1_valid(h, r));
}

/// Pointing the invalid level-1 entry `(i, j)` at a fresh table makes it
/// valid and changes no root entry.
proof fn lemma_sets_link_l1(h: Heap, h3: Heap, r: int, i: int, j: int, f: int)
    requires
        tree_wf(h, r),
        br2(h, r, i),
        0 <= j < 512,
        !pte_valid(e1(h, r, i, j)),
        tables_kept_except(h, h3, t1(h, r, i), j, -1),
        h3.word(t1(h, r, i), j) == branch_pte(f as usize),
        pte_branch(branch_pte(f as usize)),
    ensures
        l2_valid(h3, r) == l2_valid(h, r),
        l1_valid(h3, r) == l1_valid(h, r).insert((i, j)),
{
    let t = t1(h, r, i);
    assert(table_frame(h, t));
    assert(table_frame(h, r));
    assert forall|a: int| 0 <= a < 512 implies h3.word(r, a) == h.word(r, a) by {}
    assert(l2_valid(h3, r) =~= l2_valid(h, r));
    assert forall|x: (int, int)| l1_valid(h3, r).contains(x) == l1_valid(h, r).insert((i, j)).contains(
        x,
    ) by {
        let (a, m) = x;
        if 0 <= a < 512 && 0 <= m < 512 && br2(h, r, a) {
            assert(h3.word(r, a) == h.word(r, a));
            assert(table_frame(h, t1(h, r, a)));
            if !(a == i && m == j) {
                if t1(h, r, a) == t {
                    assert(a == i);
                }
                assert(h3.word(t1(h, r, a), m) == h.word(t1(h, r, a), m));
            }
        } else if 0 <= a < 512 {
            assert(h3.word(r, a) == h.word(r, a));
        }
    }
    assert(l1_valid(h3, r) =~= l1_valid(h, r).insert((i, j)));
}

/// Writing a level-0 entry changes no root or level-1 entry.
proof fn lemma_sets_write_l0(h: Heap, h3: Heap, r: int, i: int, j: int, k: int)
    requires
        tree_wf(h, r),
        br1(h, r, i, j),
        0 <= k < 512,
        tables_kept_except(h, h3, t0(h, r, i, j), k, -1),
    ensures
        l2_valid(h3, r) == l2_valid(h, r),
        l1_valid(h3, r) == l1_valid(h, r),
{
    let t = t0(h, r, i, j);
    assert(table_frame(h, t));
    assert(table_frame(h, r));
    assert forall|a: int| 0 <= a < 512 implies h3.word(r, a) == h.word(r, a) by {}
    assert(l2_valid(h3, r) =~= l2_valid(h, r));
    assert forall|x: (int, int)| l1_valid(h3, r).contains(x) == l1_valid(h, r).contains(x) by {
        let (a, m) = x;
        if 0 <= a < 512 && 0 <= m < 512 {
            assert(h3.word(r, a) == h.word(r, a));
            if br2(h, r, a) {
                assert(table_frame(h, t1(h, r, a)));
                assert(t1(h, r, a) != t);
                assert(h3.word(t1(h, r, a), m) == h.word(t1(h, r, a), m));
            }
        }
    }
    assert(l1_valid(h3, r) =~= l1_valid(h, r));
}

/// Allocate an empty root table: a zeroed page, under which nothing is
/// mapped and every address can still be mapped at any level. `None`
/// when no page is free.
pub fn new_table(heap: &mut Heap) -> (r: Option<usize>)
    requires
        old(heap).wf(),
    ensures
        final(heap).wf(),
        final(heap).same_geometry(old(heap)),
        used_pages_kept(*old(heap), *final(heap)),
        r is Some <==> old(heap).free_pages() > 0,
        r is None ==> final(heap).descs() == old(heap).descs() && final(heap).mem() == old(
            heap,
        ).mem(),
        r matches Some(root) ==> {
            &&& tree_wf(*final(heap), root as int)
            &&& final(heap).free_pages() + 1 == old(heap).free_pages()
            &&& forall|va: usize| #[trigger] translate(*final(heap), root as int, va) is None
            &&& forall|va: usize| #[trigger] path_ok(*final(heap), root as int, va, 0)
            &&& l2_valid(*final(heap), root as int) == Set::<int>::empty()
            &&& l1_valid(*final(heap), root as int) == Set::<(int, int)>::empty()
            &&& root == old(heap).page_addr(first_fit(old(heap).descs(), 1).unwrap())
        },
{
    let ghost h0 = *heap;
    proof {
        lemma_allocate_one(h0.descs());
    }
    let page = match zallocate(heap, 1) {
        Some(p) => p,
        None => return None,
    };
    proof {
        let h2 = *heap;
        let fi = first_fit(h0.descs(), 1).unwrap();
        crate::mm::allocator::page_frame::lemma_first_fit_window(h0.descs(), 1, 0);
        lemma_page_addr_frame(h0, fi);
        assert forall|idx: int| 0 <= idx < 512 implies #[trigger] h2.word(page as int, idx) == 0i64 by {
            lemma_word_zeroed(h0, h2, fi, page as int, idx);
        }
        assert(table_frame(h2, page as int));
        assert forall|va: usize| #[trigger] translate(h2, page as int, va) is None by {
            lemma_vpn_range(va, 2);
            assert(h2.word(page as int, vpn(va, 2)) == 0i64);
            assert(!pte_valid(0i64)) by (bit_vector);
        }
        assert forall|va: usize| #[trigger] path_ok(h2, page as int, va, 0) by {
            lemma_vpn_range(va, 2);
            assert(e2(h2, page as int, vpn(va, 2)) == 0i64);
            assert(!pte_valid(0i64)) by (bit_vector);
            assert(!pte_branch(0i64)) by (bit_vector);
        }
        assert forall|i: int| !#[trigger] br2(h2, page as int, i) by {
            if 0 <= i < 512 {
                assert(e2(h2, page as int, i) == 0i64);
                assert(!pte_branch(0i64)) by (bit_vector);
            }
        }
        assert forall|i: int| 0 <= i < 512 implies !pte_valid(#[trigger] e2(h2, page as int, i)) by {
            assert(e2(h2, page as int, i) == 0i64);
            assert(!pte_valid(0i64)) by (bit_vector);
        }
        assert(l2_valid(h2, page as int) =~= Set::<int>::empty());
        assert(l1_valid(h2, page as int) =~= Set::<(int, int)>::empty());
        assert(used_pages_kept(h0, h2)) by {
            assert forall|p: int| 0 <= p < h0.npages() && h0.descs()[p] != 0u8 implies #[trigger] h2.descs()[p]
                == h0.descs()[p] by {
                lemma_desc_bits();
            }
        }
    }
    Some(page)
}

/// Allocate a zeroed page for a new table and point entry `n` of the
/// table at `t` at it. Returns the new table's address.
fn link_new_table(heap: &mut Heap, t: usize, n: usize, Ghost(r): Ghost<int>) -> (f: usize)
    requires
        usize::BITS == 64,
        old(heap).wf(),
        below_phys_limit(*old(heap)),
        tree_wf(*old(heap), r),
        table_frame(*old(heap), t as int),
        n < 512,
        old(heap).free_pages() > 0,
    ensures
        final(heap).wf(),
        final(heap).same_geometry(old(heap)),
        tables_kept_except(*old(heap), *final(heap), t as int, n as int, -1),
        final(heap).word(t as int, n as int) == branch_pte(f),
        fresh_table(*old(heap), *final(heap), f as int),
        pte_branch(branch_pte(f)),
        pte_target(branch_pte(f)) == f,
        final(heap).free_pages() + 1 == old(heap).free_pages(),
        used_pages_kept(*old(heap), *final(heap)),
{
    let ghost h0 = *heap;
    proof {
        lemma_allocate_one(h0.descs());
    }
    let page = match zallocate(heap, 1) {
        Some(p) => p,
        None => {
            proof {
                assert(false);
            }
            return 0;
        },
    };
    let ghost h2 = *heap;
    let ghost fi = first_fit(h0.descs(), 1).unwrap();
    proof {
        crate::mm::allocator::page_frame::lemma_first_fit_window(h0.descs(), 1, 0);
        lemma_page_addr_frame(h0, fi);
        lemma_branch_pte(page);
        lemma_frame_bound(h0, t as int);
    }
    let addr = page as i64;
    let e = (addr >> 2) | PteFlags::valid().bits();
    assert(e == branch_pte(page));
    heap.write_word(t, n, e);
    proof {
        let h3 = *heap;
        assert(h0.desc_at(page as int) == 0u8);
        assert forall|a: int, idx: int|
            #![trigger h3.word(a, idx)]
            table_frame(h0, a) && 0 <= idx < 512 && !(a == t && idx == n) implies h3.word(a, idx)
            == h0.word(a, idx) by {
            assert(a != page);
            lemma_word_zeroed(h0, h2, fi, a, idx);
            lemma_word_update(h2, h3, t as int, n as int, e, a, idx);
        }
        assert forall|a: int| #[trigger] table_frame(h0, a) implies table_frame(h3, a) by {
            assert(h3.descs()[h0.frame_index(a)] == h0.descs()[h0.frame_index(a)]);
        }
        assert forall|idx: int| 0 <= idx < 512 implies #[trigger] h3.word(page as int, idx) == 0i64 by {
            lemma_word_zeroed(h0, h2, fi, page as int, idx);
            assert(page != t);
            lemma_word_update(h2, h3, t as int, n as int, e, page as int, idx);
        }
        lemma_word_update(h2, h3, t as int, n as int, e, t as int, n as int);
        assert(h3.desc_at(page as int) == 3u8);
        assert(used_pages_kept(h0, h3));
    }
    page
}


proof fn lemma_write_keeps(h: Heap, h3: Heap, t: int, n: int, v: i64)
    requires
        h.wf(),
        h3.wf(),
        h3.same_geometry(&h),
        h.is_frame(t),
        0 <= n < 512,
        h3.descs() == h.descs(),
        h3.mem() == h.mem().update(h.frame_index(t) * 512 + n, v),
    ensures
        tables_kept_except(h, h3, t, n, -1),
        h3.word(t, n) == v,
{
    assert forall|a: int, idx: int|
        #![trigger h3.word(a, idx)]
        table_frame(h, a) && 0 <= idx < 512 && !(a == t && idx == n) implies h3.word(a, idx)
        == h.word(a, idx) by {
        lemma_word_update(h, h3, t, n, v, a, idx);
    }
    lemma_word_update(h, h3, t, n, v, t, n);
}

/// `h1` translates what `h0` does, except that the page of size given
/// by `level` holding `vaddr` now lands in the page at `paddr`.
pub open spec fn map_translates(h0: Heap, h1: Heap, r: int, vaddr: usize, paddr: usize, level: int) -> bool {
    forall|va: usize|
        #[trigger] translate(h1, r, va) == if same_region(va, vaddr, level) {
            Some(mapped_addr(paddr, va, level))
        } else {
            translate(h0, r, va)
        }
}

/// What a walk reads back is what `map` wrote: after mapping `vaddr` to
/// `paddr` with a 4 KiB leaf, `vaddr` translates to `paddr` plus its page
/// offset, and every address outside that page translates as before.
pub proof fn lemma_map_then_translate(h0: Heap, h1: Heap, r: int, vaddr: usize, paddr: usize)
    requires
        usize::BITS == 64,
        map_translates(h0, h1, r, vaddr, paddr, 0),
        paddr < 0x100_0000_0000_0000,
        paddr % 4096 == 0,
    ensures
        translate(h1, r, vaddr) == Some(paddr + vaddr % 4096),
        forall|va: usize| !same_region(va, vaddr, 0) ==> #[trigger] translate(h1, r, va) == translate(h0, r, va),
{
    assert(translate(h1, r, vaddr) == Some(mapped_addr(paddr, vaddr, 0)));
    lemma_mapped_keeps_offset(paddr, vaddr);
}

/// Install a mapping `vaddr -> paddr` with the given permissions. The
/// leaf can sit at any level (0: 4 KiB, 1: 2 MiB, 2: 1 GiB); `level`
/// selects which. Missing intermediate tables are allocated, zeroed, on
/// demand.
#[verifier::spinoff_prover]
pub fn map(heap: &mut Heap, root: usize, vaddr: usize, paddr: usize, bits: PteFlags, level: usize)
    requires
        usize::BITS == 64,
        old(heap).wf(),
        below_phys_limit(*old(heap)),
        tree_wf(*old(heap), root as int),
        bits.wf(),
        // A leaf without R, W, or X is a "pointer" PTE in Sv39.
        bits.spec_bits() & 0xei64 != 0,
        level <= 2,
        path_ok(*old(heap), root as int, vaddr, level as int),
        old(heap).free_pages() >= tables_needed(*old(heap), root as int, vaddr, level as int),
    ensures
        final(heap).wf(),
        final(heap).same_geometry(old(heap)),
        tree_wf(*final(heap), root as int),
        map_translates(*old(heap), *final(heap), root as int, vaddr, paddr, level as int),
        final(heap).free_pages() + tables_needed(*old(heap), root as int, vaddr, level as int)
            == old(heap).free_pages(),
        used_pages_kept(*old(heap), *final(heap)),
        level == 0 ==> forall|va: usize|
            path_ok(*old(heap), root as int, va, 0) ==> #[trigger] path_ok(
                *final(heap),
                root as int,
                va,
                0,
            ),
        // The leaf written holds `paddr`'s page number and the flags.
        entry_at(*final(heap), root as int, vaddr, level as int) == leaf_pte(
            paddr,
            bits.spec_bits(),
        ),
        // A 4 KiB mapping leaves the level-0 entries of other pages alone.
        level == 0 ==> has_path(*final(heap), root as int, vaddr),
        level == 0 ==> forall|va: usize|
            #![trigger has_path(*final(heap), root as int, va)]
            #![trigger entry_at(*final(heap), root as int, va, 0)]
            has_path(*old(heap), root as int, va) && !same_region(va, vaddr, 0) ==> has_path(
                *final(heap),
                root as int,
                va,
            ) && entry_at(*final(heap), root as int, va, 0) == entry_at(*old(heap), root as int, va, 0),
        // ... and makes valid exactly the root and level-1 entries on its walk.
        level == 0 ==> l2_valid(*final(heap), root as int) == l2_valid(*old(heap), root as int).insert(
            vpn(vaddr, 2),
        ),
        level == 0 ==> l1_valid(*final(heap), root as int) == l1_valid(*old(heap), root as int).insert(
            (vpn(vaddr, 2), vpn(vaddr, 1)),
        ),
{
    let ghost h0 = *heap;
    let ghost r = root as int;
    let vpn0 = (vaddr >> 12) & 0x1ff;
    let vpn1 = (vaddr >> 21) & 0x1ff;
    let vpn2 = (vaddr >> 30) & 0x1ff;
    // PPN[2] is wider than the others (26 bits) because Sv39 supports
    // up to 56-bit physical addresses.
    let ppn0 = (paddr >> 12) & 0x1ff;
    let ppn1 = (paddr >> 21) & 0x1ff;
    let ppn2 = (paddr >> 30) & 0x3ff_ffff;
    proof {
        lemma_vpn_range(vaddr, 0);
        lemma_vpn_range(vaddr, 1);
        lemma_vpn_range(vaddr, 2);
        lemma_zero_pte();
    }
    let mut table = root;
    let mut idx = vpn2;
    if level < 2 {
        let x = heap.read_word(root, vpn2);
        let e = Entry::from_raw(x);
        if e.is_invalid() {
            let f = link_new_table(heap, root, vpn2, Ghost(r));
            proof {
                lemma_write_root(h0, *heap, r, vpn2 as int, branch_pte(f), -1);
                lemma_path_root(h0, *heap, r, vpn2 as int, branch_pte(f));
                lemma_sets_link_root(h0, *heap, r, vpn2 as int, f as int);
                let hh = *heap;
                assert forall|va: usize| has_path(h0, r, va) implies has_path(hh, r, va)
                    && entry_at(hh, r, va, 0) == entry_at(h0, r, va, 0) by {
                    lemma_path_kept(h0, hh, r, r, vpn2 as int, va);
                }
            }
            table = f;
        } else {
            table = ((x & !0x3ff) << 2) as usize;
        }
        idx = vpn1;
    }
    let ghost h1 = *heap;
    proof {
        assert(forall|va: usize| #[trigger] translate(h1, r, va) == translate(h0, r, va));
        assert(level < 2 ==> br2(h1, r, vpn2 as int) && table == t1(h1, r, vpn2 as int));
        assert(level < 2 ==> !pte_valid(e2(h0, r, vpn2 as int)) ==> forall|j: int|
            0 <= j < 512 ==> !pte_valid(#[trigger] e1(h1, r, vpn2 as int, j)));
        assert(pte_valid(e2(h0, r, vpn2 as int)) ==> h1 == h0);
    }
    if level < 1 {
        let x = heap.read_word(table, vpn1);
        let e = Entry::from_raw(x);
        if e.is_invalid() {
            proof {
                assert(table_frame(h1, table as int));
            }
            let f = link_new_table(heap, table, vpn1, Ghost(r));
            proof {
                lemma_write_l1(h1, *heap, r, vpn2 as int, vpn1 as int, branch_pte(f), -1);
                lemma_path_l1(h1, *heap, r, vpn2 as int, vpn1 as int, branch_pte(f));
                lemma_sets_link_l1(h1, *heap, r, vpn2 as int, vpn1 as int, f as int);
                let hh = *heap;
                assert forall|va: usize| has_path(h1, r, va) implies has_path(hh, r, va)
                    && entry_at(hh, r, va, 0) == entry_at(h1, r, va, 0) by {
                    lemma_vpn_range(va, 2);
                    lemma_vpn_range(va, 1);
                    lemma_path_kept(h1, hh, r, table as int, vpn1 as int, va);
                }
            }
            table = f;
        } else {
            table = ((x & !0x3ff) << 2) as usize;
        }
        idx = vpn0;
    }
    let ghost h2 = *heap;
    proof {
        assert(forall|va: usize| #[trigger] translate(h2, r, va) == translate(h0, r, va));
        assert(level < 1 ==> br1(h2, r, vpn2 as int, vpn1 as int) && table == t0(
            h2,
            r,
            vpn2 as int,
            vpn1 as int,
        ));
        assert(table_frame(h2, table as int));
    }
    let entry = ((ppn2 << 28) as i64) | ((ppn1 << 19) as i64) | ((ppn0 << 10) as i64) | bits.bits()
        | PteFlags::valid().bits();
    assert(entry == leaf_pte(paddr, bits.spec_bits()));
    heap.write_word(table, idx, entry);
    proof {
        let h3 = *heap;
        lemma_write_keeps(h2, h3, table as int, idx as int, entry);
        if level < 2 {
            assert(h3.word(r, vpn2 as int) == h2.word(r, vpn2 as int));
        }
        if level < 1 {
            assert(table_frame(h2, t1(h2, r, vpn2 as int)));
            assert(h3.word(t1(h2, r, vpn2 as int), vpn1 as int) == h2.word(
                t1(h2, r, vpn2 as int),
                vpn1 as int,
            ));
        }
        lemma_leaf_pte(paddr, bits.spec_bits(), vaddr, level as int);
        assert forall|va: usize| true implies #[trigger] leaf_phys(entry, va, level as int)
            == mapped_addr(paddr, va, level as int) by {
            lemma_leaf_pte(paddr, bits.spec_bits(), va, level as int);
        }
        if level == 2 {
            lemma_write_root(h2, h3, r, vpn2 as int, entry, -1);
        } else if level == 1 {
            lemma_write_l1(h2, h3, r, vpn2 as int, vpn1 as int, entry, -1);
        } else {
            lemma_write_l0(h2, h3, r, vpn2 as int, vpn1 as int, vpn0 as int, entry);
            lemma_path_l0(h2, h3, r, vpn2 as int, vpn1 as int, vpn0 as int, entry);
            lemma_sets_write_l0(h2, h3, r, vpn2 as int, vpn1 as int, vpn0 as int);
            if pte_valid(e2(h0, r, vpn2 as int)) {
                assert(l2_valid(h0, r).contains(vpn2 as int));
                assert(l2_valid(h0, r).insert(vpn2 as int) =~= l2_valid(h0, r));
            }
            if pte_valid(e1(h1, r, vpn2 as int, vpn1 as int)) {
                assert(l1_valid(h1, r).contains((vpn2 as int, vpn1 as int)));
                assert(l1_valid(h1, r).insert((vpn2 as int, vpn1 as int)) =~= l1_valid(h1, r));
            }
            assert forall|va: usize|
                has_path(h2, r, va) && !same_region(va, vaddr, 0) implies has_path(h3, r, va)
                && entry_at(h3, r, va, 0) == entry_at(h2, r, va, 0) by {
                lemma_vpn_range(va, 2);
                lemma_vpn_range(va, 1);
                lemma_vpn_range(va, 0);
                lemma_path_kept(h2, h3, r, table as int, vpn0 as int, va);
            }
            assert(table_frame(h2, r));
            assert(table_frame(h2, t1(h2, r, vpn2 as int)));
            assert(h3.word(r, vpn2 as int) == h2.word(r, vpn2 as int));
            assert(h3.word(t1(h2, r, vpn2 as int), vpn1 as int) == h2.word(
                t1(h2, r, vpn2 as int),
                vpn1 as int,
            ));
            assert(has_path(h3, r, vaddr));
            assert(forall|va: usize| path_ok(h0, r, va, 0) ==> #[trigger] path_ok(h1, r, va, 0));
            assert(forall|va: usize| path_ok(h1, r, va, 0) ==> #[trigger] path_ok(h2, r, va, 0));
        }
    }
}


/// Physical address a leaf entry at level `i` gives for `vaddr`:
/// superpages keep 9 more offset bits per level.
fn leaf_address(x: i64, vaddr: usize, i: usize) -> (r: usize)
    requires
        usize::BITS == 64,
        i <= 2,
    ensures
        r == leaf_phys(x, vaddr, i as int),
{
    let shift: usize = 12 + 9 * i;
    let bit: usize = 1usize << shift;
    proof {
        if i == 0 {
            assert(bit == 1usize << 12usize);
            assert((1usize << 12usize) == 0x1000usize) by (bit_vector);
        } else if i == 1 {
            assert(bit == 1usize << 21usize);
            assert((1usize << 21usize) == 0x20_0000usize) by (bit_vector);
        } else {
            assert(bit == 1usize << 30usize);
            assert((1usize << 30usize) == 0x4000_0000usize) by (bit_vector);
        }
    }
    let off_mask: usize = bit - 1;
    assert(off_mask == self::off_mask(i as int));
    let vaddr_pgoff = vaddr & off_mask;
    let addr = ((x << 2) as usize) & !off_mask;
    addr | vaddr_pgoff
}

/// Software MMU walk: resolve `vaddr` to its physical address, or `None`
/// on a missing/invalid mapping. Useful for sanity-checking page-table
/// construction without actually flipping `satp`.
pub fn v2p(heap: &Heap, root: usize, vaddr: usize) -> (r: Option<usize>)
    requires
        usize::BITS == 64,
        heap.wf(),
        tree_wf(*heap, root as int),
    ensures
        match translate(*heap, root as int, vaddr) {
            None => r is None,
            Some(a) => r == Some(a as usize),
        },
{
    let ghost r = root as int;
    let vpn0 = (vaddr >> 12) & 0x1ff;
    let vpn1 = (vaddr >> 21) & 0x1ff;
    let vpn2 = (vaddr >> 30) & 0x1ff;
    proof {
        lemma_vpn_range(vaddr, 0);
        lemma_vpn_range(vaddr, 1);
        lemma_vpn_range(vaddr, 2);
    }
    let x2 = heap.read_word(root, vpn2);
    let v2 = Entry::from_raw(x2);
    if v2.is_invalid() {
        return None;
    }
    if v2.is_leaf() {
        return Some(leaf_address(x2, vaddr, 2));
    }
    assert(br2(*heap, r, vpn2 as int));
    let t1 = ((x2 & !0x3ff) << 2) as usize;
    let x1 = heap.read_word(t1, vpn1);
    let v1 = Entry::from_raw(x1);
    if v1.is_invalid() {
        return None;
    }
    if v1.is_leaf() {
        return Some(leaf_address(x1, vaddr, 1));
    }
    assert(br1(*heap, r, vpn2 as int, vpn1 as int));
    let t0 = ((x1 & !0x3ff) << 2) as usize;
    let x0 = heap.read_word(t0, vpn0);
    let v0 = Entry::from_raw(x0);
    if v0.is_invalid() {
        return None;
    }
    if v0.is_leaf() {
        return Some(leaf_address(x0, vaddr, 0));
    }
    // Branch PTE at level 0 is malformed (no level -1 to walk).
    None
}


/// Every address of the 4 KiB page at `p` shares `p`'s walk.
pub proof fn lemma_same_page(va: usize, p: usize)
    requires
        usize::BITS == 64,
        p % 4096 == 0,
        p <= va,
        va - p < 4096,
    ensures
        same_region(va, p, 0),
{
    assert((va >> 12usize) & 0x1ffusize == (p >> 12usize) & 0x1ffusize && (va >> 21usize)
        & 0x1ffusize == (p >> 21usize) & 0x1ffusize && (va >> 30usize) & 0x1ffusize == (p
        >> 30usize) & 0x1ffusize) by (bit_vector)
        requires
            usize::BITS == 64,
            p % 4096 == 0,
            p <= va,
            va - p < 4096,
    ;
}

/// Below 2^39, an address in the same page as a page boundary `p` lies in
/// `[p, p + 4096)`.
pub proof fn lemma_same_region_low(va: usize, p: usize)
    requires
        usize::BITS == 64,
        va < 0x80_0000_0000,
        p < 0x80_0000_0000,
        p % 4096 == 0,
        same_region(va, p, 0),
    ensures
        p <= va < p + 4096,
{
    assert(p <= va && va < p + 4096) by (bit_vector)
        requires
            usize::BITS == 64,
            va < (0x80_0000_0000u64 as usize),
            p < (0x80_0000_0000u64 as usize),
            p % 4096 == 0,
            (va >> 12usize) & 0x1ffusize == (p >> 12usize) & 0x1ffusize,
            (va >> 21usize) & 0x1ffusize == (p >> 21usize) & 0x1ffusize,
            (va >> 30usize) & 0x1ffusize == (p >> 30usize) & 0x1ffusize,
    ;
}

/// An address within 2^39 bytes of a page boundary `p` (a little less
/// below it) that shares `p`'s walk lies in `[p, p + 4096)`: the walk
/// reads bits 12..39, so only addresses 2^39 apart can share it.
pub proof fn lemma_same_region_near(va: usize, p: usize)
    requires
        usize::BITS == 64,
        p % 4096 == 0,
        (p <= va && va - p < 0x80_0000_0000) || (va < p && p - va <= 0x80_0000_0000 - 4096),
        same_region(va, p, 0),
    ensures
        p <= va < p + 4096,
{
    assert(p <= va && va < p + 4096) by (bit_vector)
        requires
            usize::BITS == 64,
            p % 4096 == 0,
            (p <= va && va - p < (0x80_0000_0000u64 as usize)) || (va < p && p - va <= (
            0x7f_ffff_f000u64 as usize)),
            (va >> 12usize) & 0x1ffusize == (p >> 12usize) & 0x1ffusize,
            (va >> 21usize) & 0x1ffusize == (p >> 21usize) & 0x1ffusize,
            (va >> 30usize) & 0x1ffusize == (p >> 30usize) & 0x1ffusize,
    ;
}

/// Below 2^56 a page-aligned `p` maps the addresses of its own page to
/// themselves.
pub proof fn lemma_identity_in_page(va: usize, p: usize)
    requires
        usize::BITS == 64,
        p % 4096 == 0,
        p <= va < p + 4096,
        va < 0x100_0000_0000_0000,
    ensures
        mapped_addr(p, va, 0) == va,
{
    assert(((p & (0x00ff_ffff_ffff_ffffu64 as usize) & !0xfffusize) | (va & 0xfffusize)) == va)
        by (bit_vector)
        requires
            usize::BITS == 64,
            p % 4096 == 0,
            p <= va,
            va < p + 4096,
            va < (0x100_0000_0000_0000u64 as usize),
    ;
}

/// Pages in `[start, end)`, both page-aligned.
pub open spec fn range_pages(start: usize, end: usize) -> nat {
    if start < end {
        ((end - start) / 4096) as nat
    } else {
        0
    }
}

/// Tables that mapping the `n` pages from `p` one by one allocates, when
/// the walk starts out finding the valid root entries `v2` and level-1
/// entries `v1`.
pub open spec fn range_tables(v2: Set<int>, v1: Set<(int, int)>, p: usize, n: nat) -> nat
    decreases n,
{
    if n == 0 {
        0
    } else {
        tables_for_page(v2, v1, p) + range_tables(
            v2.insert(vpn(p, 2)),
            v1.insert((vpn(p, 2), vpn(p, 1))),
            (p + 4096) as usize,
            (n - 1) as nat,
        )
    }
}

/// The valid root and level-1 entries once the `n` pages from `p` are
/// mapped.
pub open spec fn range_sets(v2: Set<int>, v1: Set<(int, int)>, p: usize, n: nat) -> (
    Set<int>,
    Set<(int, int)>,
)
    decreases n,
{
    if n == 0 {
        (v2, v1)
    } else {
        range_sets(
            v2.insert(vpn(p, 2)),
            v1.insert((vpn(p, 2), vpn(p, 1))),
            (p + 4096) as usize,
            (n - 1) as nat,
        )
    }
}

/// The identity mapping of `[start, addr)` with `bits` is in place in `h`:
/// each of its pages has a level-0 entry mapping it to itself, and every
/// address whose walk no page of it shares keeps the entry it had in `h0`.
#[verifier::opaque]
pub open spec fn entries_done(h0: Heap, h: Heap, r: int, start: usize, addr: usize, bits: i64) -> bool {
    &&& forall|p: usize|
        start <= p < addr && p % 4096 == 0 ==> #[trigger] entry_at(h, r, p, 0) == leaf_pte(p, bits)
            && has_path(h, r, p)
    &&& forall|va: usize|
        #![trigger has_path(h, r, va)]
        #![trigger entry_at(h, r, va, 0)]
        (forall|p: usize| start <= p < addr && p % 4096 == 0 ==> !#[trigger] same_region(va, p, 0))
            && has_path(h0, r, va) ==> has_path(h, r, va) && entry_at(h, r, va, 0) == entry_at(
            h0,
            r,
            va,
            0,
        )
}

/// One page more of an identity mapping of at most 2^39 bytes: the pages
/// mapped so far, now up to `addr + 4096`, hold their leaves, and every
/// address whose walk none of them shares keeps the entry it had at the
/// start (`h0`). `hp` and `hn` are the tables before and after mapping
/// the page at `addr`.
proof fn lemma_id_map_entries(
    h0: Heap,
    hp: Heap,
    hn: Heap,
    r: int,
    start: usize,
    end: usize,
    addr: usize,
    bits: i64,
)
    requires
        usize::BITS == 64,
        end <= start + 0x80_0000_0000,
        start <= addr < end,
        end % 4096 == 0,
        start % 4096 == 0,
        addr % 4096 == 0,
        entries_done(h0, hp, r, start, addr, bits),
        has_path(hn, r, addr),
        entry_at(hn, r, addr, 0) == leaf_pte(addr, bits),
        forall|va: usize|
            #![trigger has_path(hn, r, va)]
            #![trigger entry_at(hn, r, va, 0)]
            has_path(hp, r, va) && !same_region(va, addr, 0) ==> has_path(hn, r, va) && entry_at(
                hn,
                r,
                va,
                0,
            ) == entry_at(hp, r, va, 0),
    ensures
        entries_done(h0, hn, r, start, (addr + 4096) as usize, bits),
{
    reveal(entries_done);
    assert forall|p: usize|
        start <= p < addr + 4096 && p % 4096 == 0 implies #[trigger] entry_at(hn, r, p, 0)
        == leaf_pte(p, bits) && has_path(hn, r, p) by {
        if p != addr {
            if same_region(p, addr, 0) {
                lemma_same_region_near(p, addr);
            }
            assert(entry_at(hp, r, p, 0) == leaf_pte(p, bits));
            assert(has_path(hp, r, p));
        }
    }
    assert forall|va: usize|
        #![trigger has_path(hn, r, va)]
        #![trigger entry_at(hn, r, va, 0)]
        (forall|p: usize|
            start <= p < addr + 4096 && p % 4096 == 0 ==> !#[trigger] same_region(va, p, 0))
            && has_path(h0, r, va) implies has_path(hn, r, va) && entry_at(hn, r, va, 0)
        == entry_at(h0, r, va, 0) by {
        assert(!same_region(va, addr, 0));
        assert forall|p: usize| start <= p < addr && p % 4096 == 0 implies !#[trigger] same_region(
            va,
            p,
            0,
        ) by {}
        assert(has_path(hp, r, va));
    }
}

/// Identity-map every page in `[start, end)`. Both bounds must already
/// be page-aligned; the caller usually rounds linker symbols outward.
#[verifier::spinoff_prover]
pub fn id_map_range(heap: &mut Heap, root: usize, start: usize, end: usize, bits: PteFlags)
    requires
        usize::BITS == 64,
        old(heap).wf(),
        below_phys_limit(*old(heap)),
        tree_wf(*old(heap), root as int),
        bits.wf(),
        bits.spec_bits() & 0xei64 != 0,
        start % 4096 == 0,
        end % 4096 == 0,
        forall|va: usize| start <= va < end ==> #[trigger] path_ok(*old(heap), root as int, va, 0),
        // The kernel stops when it runs out of memory for tables.
        old(heap).free_pages() >= range_tables(
            l2_valid(*old(heap), root as int),
            l1_valid(*old(heap), root as int),
            start,
            range_pages(start, end),
        ),
    ensures
        final(heap).wf(),
        final(heap).same_geometry(old(heap)),
        tree_wf(*final(heap), root as int),
        used_pages_kept(*old(heap), *final(heap)),
        // Addresses outside the mapped pages translate as before.
        forall|va: usize|
            (forall|p: usize|
                start <= p < end && p % 4096 == 0 ==> !#[trigger] same_region(va, p, 0))
                ==> #[trigger] translate(*final(heap), root as int, va) == translate(
                *old(heap),
                root as int,
                va,
            ),
        // Every address of a range of at most 2^39 bytes (no two of its
        // pages share a walk) below 2^56 now translates to itself.
        end <= start + 0x80_0000_0000 && end <= 0x100_0000_0000_0000 ==> forall|va: usize|
            start <= va < end ==> #[trigger] translate(*final(heap), root as int, va) == Some(
                va as int,
            ),
        // Only level-0 leaves are added, so no walk meets a new huge page.
        forall|va: usize|
            path_ok(*old(heap), root as int, va, 0) ==> #[trigger] path_ok(
                *final(heap),
                root as int,
                va,
                0,
            ),
        // The tables the pages needed came from the free pages.
        final(heap).free_pages() + range_tables(
            l2_valid(*old(heap), root as int),
            l1_valid(*old(heap), root as int),
            start,
            range_pages(start, end),
        ) == old(heap).free_pages(),
        (l2_valid(*final(heap), root as int), l1_valid(*final(heap), root as int)) == range_sets(
            l2_valid(*old(heap), root as int),
            l1_valid(*old(heap), root as int),
            start,
            range_pages(start, end),
        ),
        start >= end ==> *final(heap) == *old(heap),
        // In a range of at most 2^39 bytes each page's level-0 entry maps it
        // to itself with `bits`.
        end <= start + 0x80_0000_0000 ==> forall|p: usize|
            start <= p < end && p % 4096 == 0 ==> #[trigger] entry_at(
                *final(heap),
                root as int,
                p,
                0,
            ) == leaf_pte(p, bits.spec_bits()) && has_path(*final(heap), root as int, p),
        // ... and the level-0 entry of every address whose walk no page of
        // the range shares stays.
        end <= start + 0x80_0000_0000 ==> forall|va: usize|
            #![trigger has_path(*final(heap), root as int, va)]
            #![trigger entry_at(*final(heap), root as int, va, 0)]
            (forall|p: usize| start <= p < end && p % 4096 == 0 ==> !#[trigger] same_region(va, p, 0))
                && has_path(*old(heap), root as int, va) ==> has_path(*final(heap), root as int, va)
                && entry_at(*final(heap), root as int, va, 0) == entry_at(*old(heap), root as int, va, 0),
{
    let ghost h0 = *heap;
    let ghost r = root as int;
    let mut addr = start;
    proof {
        reveal(entries_done);
    }
    while addr < end
        invariant
            usize::BITS == 64,
            r == root as int,
            start % 4096 == 0,
            end % 4096 == 0,
            addr % 4096 == 0,
            start <= addr,
            addr <= end || addr == start,
            bits.wf(),
            bits.spec_bits() & 0xei64 != 0,
            heap.wf(),
            heap.same_geometry(&h0),
            below_phys_limit(*heap),
            tree_wf(*heap, r),
            used_pages_kept(h0, *heap),
            forall|va: usize| addr <= va < end ==> #[trigger] path_ok(*heap, r, va, 0),
            heap.free_pages() >= range_tables(
                l2_valid(*heap, r),
                l1_valid(*heap, r),
                addr,
                range_pages(addr, end),
            ),
            heap.free_pages() - range_tables(
                l2_valid(*heap, r),
                l1_valid(*heap, r),
                addr,
                range_pages(addr, end),
            ) == h0.free_pages() - range_tables(
                l2_valid(h0, r),
                l1_valid(h0, r),
                start,
                range_pages(start, end),
            ),
            range_sets(l2_valid(*heap, r), l1_valid(*heap, r), addr, range_pages(addr, end))
                == range_sets(l2_valid(h0, r), l1_valid(h0, r), start, range_pages(start, end)),
            forall|va: usize|
                (forall|p: usize|
                    start <= p < addr && p % 4096 == 0 ==> !#[trigger] same_region(va, p, 0))
                    ==> #[trigger] translate(*heap, r, va) == translate(h0, r, va),
            end <= start + 0x80_0000_0000 && end <= 0x100_0000_0000_0000 ==> forall|va: usize|
                start <= va < addr ==> #[trigger] translate(*heap, r, va) == Some(va as int),
            forall|va: usize| path_ok(h0, r, va, 0) ==> #[trigger] path_ok(*heap, r, va, 0),
            addr == start ==> *heap == h0,
            end <= start + 0x80_0000_0000 ==> entries_done(h0, *heap, r, start, addr, bits.spec_bits()),
        decreases end - addr,
    {
        let ghost hp = *heap;
        proof {
            assert(path_ok(hp, r, addr, 0));
            lemma_tables_needed_sets(hp, r, addr);
            assert(range_pages(addr, end) == range_pages((addr + 4096) as usize, end) + 1);
        }
        map(heap, root, addr, addr, bits, 0);
        proof {
            let hn = *heap;
            assert(used_pages_kept(h0, hn)) by {
                assert forall|p: int| 0 <= p < h0.npages() && h0.descs()[p] != 0u8 implies #[trigger] hn.descs()[p]
                    == h0.descs()[p] by {
                    assert(hp.descs()[p] == h0.descs()[p]);
                }
            }
            assert forall|va: usize|
                (forall|p: usize|
                    start <= p < addr + 4096 && p % 4096 == 0 ==> !#[trigger] same_region(
                        va,
                        p,
                        0,
                    )) implies #[trigger] translate(hn, r, va) == translate(h0, r, va) by {
                assert(!same_region(va, addr, 0));
                assert forall|p: usize| start <= p < addr && p % 4096 == 0 implies !#[trigger] same_region(
                    va,
                    p,
                    0,
                ) by {}
                assert(translate(hp, r, va) == translate(h0, r, va));
            }
            if end <= start + 0x80_0000_0000 {
                lemma_id_map_entries(h0, hp, hn, r, start, end, addr, bits.spec_bits());
            }
            if end <= start + 0x80_0000_0000 && end <= 0x100_0000_0000_0000 {
                assert forall|va: usize| start <= va < addr + 4096 implies #[trigger] translate(
                    hn,
                    r,
                    va,
                ) == Some(va as int) by {
                    if same_region(va, addr, 0) {
                        lemma_same_region_near(va, addr);
                        lemma_identity_in_page(va, addr);
                    } else {
                        if va >= addr {
                            lemma_same_page(va, addr);
                        }
                        assert(translate(hp, r, va) == Some(va as int));
                    }
                }
            }
        }
        addr = addr + PAGE_SIZE;
    }
    proof {
        reveal(entries_done);
    }
}

// ---------------------------------------------------------------------
// Tearing the tree down.

/// Page `p` holds one of the tables under the root (not the root itself).
pub open spec fn in_subtrees(h: Heap, r: int, p: int) -> bool {
    ||| exists|i: int| #[trigger] br2(h, r, i) && h.frame_index(t1(h, r, i)) == p
    ||| exists|i: int, j: int| #[trigger] br1(h, r, i, j) && h.frame_index(t0(h, r, i, j)) == p
}

/// Every table under the root lies below the heap's end, where
/// `deallocate` accepts it.
pub open spec fn tables_below_end(h: Heap, r: int) -> bool {
    &&& forall|i: int| #[trigger] br2(h, r, i) ==> t1(h, r, i) < h.heap_begin() + h.heap_len()
    &&& forall|i: int, j: int| #[trigger]
        br1(h, r, i, j) ==> t0(h, r, i, j) < h.heap_begin() + h.heap_len()
}

/// The address a PTE points at.
fn pte_to_addr(pte: i64) -> (r: usize)
    ensures
        r == pte_target(pte),
{
    ((pte & !0x3ff) << 2) as usize
}

/// Free the one-page table at `addr`.
fn deallocate_addr(heap: &mut Heap, addr: usize)
    requires
        old(heap).wf(),
        table_frame(*old(heap), addr as int),
        addr < old(heap).heap_begin() + old(heap).heap_len(),
    ensures
        final(heap).wf(),
        final(heap).same_geometry(old(heap)),
        final(heap).mem() == old(heap).mem(),
        final(heap).descs() == old(heap).descs().update(old(heap).frame_index(addr as int), 0u8),
{
    let ghost d = heap.descs();
    let ghost fi = heap.frame_index(addr as int);
    proof {
        assert((addr - heap.start()) / 4096 == fi);
        assert(run_end_from(d, fi) == Some(fi));
    }
    deallocate(heap, addr);
    proof {
        assert(clear_run(d, fi, fi) =~= d.update(fi, 0u8));
    }
}

/// Walk the tree and free every non-leaf table. Leaves are left alone
/// because they describe physical frames the caller still owns.
#[verifier::spinoff_prover]
pub fn unmap(heap: &mut Heap, root: usize)
    requires
        usize::BITS == 64,
        old(heap).wf(),
        tree_wf(*old(heap), root as int),
        tables_below_end(*old(heap), root as int),
    ensures
        final(heap).wf(),
        final(heap).same_geometry(old(heap)),
        tree_wf(*final(heap), root as int),
        forall|i: int|
            0 <= i < 512 ==> #[trigger] e2(*final(heap), root as int, i) == if br2(
                *old(heap),
                root as int,
                i,
            ) {
                0i64
            } else {
                e2(*old(heap), root as int, i)
            },
        forall|va: usize|
            #[trigger] translate(*final(heap), root as int, va) == if br2(
                *old(heap),
                root as int,
                vpn(va, 2),
            ) {
                None
            } else {
                translate(*old(heap), root as int, va)
            },
        // Only tables under the root change hands, and those are freed.
        forall|p: int|
            0 <= p < old(heap).npages() && #[trigger] final(heap).descs()[p] != old(heap).descs()[p]
                ==> final(heap).descs()[p] == 0u8 && in_subtrees(*old(heap), root as int, p),
        forall|i: int|
            #[trigger] br2(*old(heap), root as int, i) ==> final(heap).desc_at(
                t1(*old(heap), root as int, i),
            ) == 0u8,
        forall|i: int, j: int|
            #[trigger] br1(*old(heap), root as int, i, j) ==> final(heap).desc_at(
                t0(*old(heap), root as int, i, j),
            ) == 0u8,
{
    let ghost h0 = *heap;
    let ghost r = root as int;
    proof {
        lemma_zero_pte();
        lemma_desc_bits();
    }
    let mut lv2: usize = 0;
    while lv2 < Table::len()
        invariant
            usize::BITS == 64,
            r == root as int,
            0 <= lv2 <= 512,
            h0.wf(),
            tree_wf(h0, r),
            tables_below_end(h0, r),
            heap.wf(),
            heap.same_geometry(&h0),
            tree_wf(*heap, r),
            forall|k: int|
                0 <= k < 512 ==> #[trigger] e2(*heap, r, k) == if k < lv2 && br2(h0, r, k) {
                    0i64
                } else {
                    e2(h0, r, k)
                },
            forall|k: int, m: int|
                lv2 <= k < 512 && br2(h0, r, k) && 0 <= m < 512 ==> #[trigger] e1(*heap, r, k, m)
                    == e1(h0, r, k, m),
            forall|va: usize|
                #[trigger] translate(*heap, r, va) == if vpn(va, 2) < lv2 && br2(
                    h0,
                    r,
                    vpn(va, 2),
                ) {
                    None
                } else {
                    translate(h0, r, va)
                },
            forall|p: int|
                0 <= p < h0.npages() && #[trigger] heap.descs()[p] != h0.descs()[p]
                    ==> heap.descs()[p] == 0u8 && in_subtrees(h0, r, p),
            forall|k: int| #[trigger]
                br2(h0, r, k) && k < lv2 ==> heap.desc_at(t1(h0, r, k)) == 0u8,
            forall|k: int, m: int| #[trigger]
                br1(h0, r, k, m) && k < lv2 ==> heap.desc_at(t0(h0, r, k, m)) == 0u8,
        decreases 512 - lv2,
    {
        proof {
            lemma_zero_pte();
            lemma_desc_bits();
        }
        let x2 = heap.read_word(root, lv2);
        assert(e2(*heap, r, lv2 as int) == x2);
        let entry_lv2 = Entry::from_raw(x2);
        if entry_lv2.is_valid() && entry_lv2.is_branch() {
            let ghost a = lv2 as int;
            assert(br2(h0, r, a));
            assert(br2(*heap, r, a));
            let memaddr_lv1 = pte_to_addr(entry_lv2.get_entry());
            assert(memaddr_lv1 == t1(h0, r, a));
            let mut lv1: usize = 0;
            while lv1 < Table::len()
                invariant
                    usize::BITS == 64,
                    r == root as int,
                    0 <= lv1 <= 512,
                    a == lv2,
                    0 <= a < 512,
                    br2(h0, r, a),
                    memaddr_lv1 == t1(h0, r, a),
                    h0.wf(),
                    tree_wf(h0, r),
                    tables_below_end(h0, r),
                    heap.wf(),
                    heap.same_geometry(&h0),
                    tree_wf(*heap, r),
                    forall|k: int|
                        0 <= k < 512 ==> #[trigger] e2(*heap, r, k) == if k < a && br2(h0, r, k) {
                            0i64
                        } else {
                            e2(h0, r, k)
                        },
                    forall|k: int, m: int|
                        a < k < 512 && br2(h0, r, k) && 0 <= m < 512 ==> #[trigger] e1(
                            *heap,
                            r,
                            k,
                            m,
                        ) == e1(h0, r, k, m),
                    forall|m: int|
                        0 <= m < 512 ==> #[trigger] e1(*heap, r, a, m) == if m < lv1 && br1(
                            h0,
                            r,
                            a,
                            m,
                        ) {
                            0i64
                        } else {
                            e1(h0, r, a, m)
                        },
                    forall|va: usize|
                        #[trigger] translate(*heap, r, va) == if (vpn(va, 2) < a && br2(
                            h0,
                            r,
                            vpn(va, 2),
                        )) || (vpn(va, 2) == a && vpn(va, 1) < lv1 && br1(h0, r, a, vpn(va, 1))) {
                            None
                        } else {
                            translate(h0, r, va)
                        },
                    forall|p: int|
                        0 <= p < h0.npages() && #[trigger] heap.descs()[p] != h0.descs()[p]
                            ==> heap.descs()[p] == 0u8 && in_subtrees(h0, r, p),
                    forall|k: int| #[trigger]
                        br2(h0, r, k) && k < a ==> heap.desc_at(t1(h0, r, k)) == 0u8,
                    forall|k: int, m: int| #[trigger]
                        br1(h0, r, k, m) && (k < a || (k == a && m < lv1)) ==> heap.desc_at(
                            t0(h0, r, k, m),
                        ) == 0u8,
                decreases 512 - lv1,
            {
                let ghost hp = *heap;
                let ghost b = lv1 as int;
                proof {
                    lemma_zero_pte();
                    lemma_desc_bits();
                }
                assert(e2(hp, r, a) == e2(h0, r, a));
                assert(t1(hp, r, a) == t1(h0, r, a));
                assert(br2(hp, r, a));
                assert(table_frame(hp, memaddr_lv1 as int));
                let x1 = heap.read_word(memaddr_lv1, lv1);
                assert(e1(hp, r, a, b) == x1);
                assert(e1(hp, r, a, b) == e1(h0, r, a, b));
                let entry_lv1 = Entry::from_raw(x1);
                if entry_lv1.is_valid() && entry_lv1.is_branch() {
                    // Level 0 holds only leaves, so the branch at level 1
                    // points at a page whose contents are page-table data.
                    assert(br1(h0, r, a, b));
                    assert(br1(hp, r, a, b));
                    let memaddr_lv0 = pte_to_addr(entry_lv1.get_entry());
                    assert(memaddr_lv0 == t0(h0, r, a, b));
                    assert(table_frame(hp, memaddr_lv0 as int));
                    deallocate_addr(heap, memaddr_lv0);
                    let ghost hd = *heap;
                    heap.write_word(memaddr_lv1, lv1, 0);
                    proof {
                        let hn = *heap;
                        let dropped = memaddr_lv0 as int;
                        let fi = hp.frame_index(dropped);
                        assert forall|x: int, idx: int|
                            #![trigger hn.word(x, idx)]
                            table_frame(hp, x) && 0 <= idx < 512 && !(x == memaddr_lv1 && idx
                                == lv1) implies hn.word(x, idx) == hp.word(x, idx) by {
                            lemma_word_update(hd, hn, memaddr_lv1 as int, b, 0i64, x, idx);
                        }
                        assert forall|x: int| #[trigger]
                            table_frame(hp, x) && x != dropped implies table_frame(hn, x) by {
                            assert(hp.frame_index(x) != fi);
                        }
                        lemma_word_update(hd, hn, memaddr_lv1 as int, b, 0i64, memaddr_lv1 as int, b);
                        lemma_write_l1(hp, hn, r, a, b, 0i64, dropped);
                        assert forall|k: int| 0 <= k < 512 implies #[trigger] e2(hn, r, k) == e2(hp, r, k) by {
                            lemma_word_update(hd, hn, memaddr_lv1 as int, b, 0i64, r, k);
                        }
                        assert forall|k: int, m: int|
                            a < k < 512 && br2(h0, r, k) && 0 <= m < 512 implies #[trigger] e1(
                            hn,
                            r,
                            k,
                            m,
                        ) == e1(h0, r, k, m) by {
                            assert(e2(hp, r, k) == e2(h0, r, k));
                            assert(br2(hp, r, k));
                            assert(t1(hp, r, k) != t1(hp, r, a));
                            assert(table_frame(hp, t1(hp, r, k)));
                            lemma_word_update(hd, hn, memaddr_lv1 as int, b, 0i64, t1(hp, r, k), m);
                            assert(e1(hp, r, k, m) == e1(h0, r, k, m));
                        }
                        assert forall|m: int| 0 <= m < 512 implies #[trigger] e1(hn, r, a, m) == if m
                            < lv1 + 1 && br1(h0, r, a, m) {
                            0i64
                        } else {
                            e1(h0, r, a, m)
                        } by {
                            assert(e2(hn, r, a) == e2(hp, r, a));
                            assert(t1(hn, r, a) == memaddr_lv1);
                            lemma_word_update(hd, hn, memaddr_lv1 as int, b, 0i64, memaddr_lv1 as int, m);
                            assert(hd.word(memaddr_lv1 as int, m) == hp.word(memaddr_lv1 as int, m));
                            assert(e1(hp, r, a, m) == if m < lv1 && br1(h0, r, a, m) {
                                0i64
                            } else {
                                e1(h0, r, a, m)
                            });
                        }
                        assert forall|p: int|
                            0 <= p < h0.npages() && #[trigger] hn.descs()[p] != h0.descs()[p]
                                implies hn.descs()[p] == 0u8 && in_subtrees(h0, r, p) by {
                            if p == fi {
                                assert(br1(h0, r, a, b) && h0.frame_index(t0(h0, r, a, b)) == p);
                            } else {
                                assert(hn.descs()[p] == hp.descs()[p]);
                            }
                        }
                        assert forall|k: int| #[trigger] br2(h0, r, k) && k < a implies hn.desc_at(
                            t1(h0, r, k),
                        ) == 0u8 by {
                            assert(hn.descs()[hn.frame_index(t1(h0, r, k))] == 0u8 || hn.frame_index(
                                t1(h0, r, k),
                            ) == fi);
                        }
                        assert forall|k: int, m: int| #[trigger]
                            br1(h0, r, k, m) && (k < a || (k == a && m < lv1 + 1)) implies hn.desc_at(
                            t0(h0, r, k, m),
                        ) == 0u8 by {
                            if !(k == a && m == b) {
                                assert(hp.desc_at(t0(h0, r, k, m)) == 0u8);
                            }
                        }
                    }
                } else {
                    proof {
                        assert(!br1(h0, r, a, b));
                        assert forall|m: int| 0 <= m < 512 implies #[trigger] e1(*heap, r, a, m) == if m
                            < lv1 + 1 && br1(h0, r, a, m) {
                            0i64
                        } else {
                            e1(h0, r, a, m)
                        } by {}
                        assert forall|k: int, m: int| #[trigger]
                            br1(h0, r, k, m) && (k < a || (k == a && m < lv1 + 1)) implies heap.desc_at(
                            t0(h0, r, k, m),
                        ) == 0u8 by {}
                    }
                }
                lv1 = lv1 + 1;
            }
            let ghost hp = *heap;
            proof {
                lemma_zero_pte();
                lemma_desc_bits();
            }
            assert(table_frame(hp, memaddr_lv1 as int)) by {
                assert(br2(hp, r, a));
                assert(t1(hp, r, a) == memaddr_lv1);
            }
            assert forall|j: int| !#[trigger] br1(hp, r, a, j) by {
                if 0 <= j < 512 {
                    assert(e1(hp, r, a, j) == if br1(h0, r, a, j) { 0i64 } else { e1(h0, r, a, j) });
                }
            }
            deallocate_addr(heap, memaddr_lv1);
            let ghost hd = *heap;
            heap.write_word(root, lv2, 0);
            proof {
                let hn = *heap;
                let dropped = memaddr_lv1 as int;
                let fi = hp.frame_index(dropped);
                assert forall|x: int, idx: int|
                    #![trigger hn.word(x, idx)]
                    table_frame(hp, x) && 0 <= idx < 512 && !(x == root && idx == lv2) implies hn.word(
                    x,
                    idx,
                ) == hp.word(x, idx) by {
                    lemma_word_update(hd, hn, r, a, 0i64, x, idx);
                }
                assert forall|x: int| #[trigger] table_frame(hp, x) && x != dropped implies table_frame(
                    hn,
                    x,
                ) by {
                    assert(hp.frame_index(x) != fi);
                }
                lemma_word_update(hd, hn, r, a, 0i64, r, a);
                lemma_write_root(hp, hn, r, a, 0i64, dropped);
                assert forall|k: int| 0 <= k < 512 implies #[trigger] e2(hn, r, k) == if k < lv2 + 1
                    && br2(h0, r, k) {
                    0i64
                } else {
                    e2(h0, r, k)
                } by {
                    lemma_word_update(hd, hn, r, a, 0i64, r, k);
                    assert(hd.word(r, k) == hp.word(r, k));
                    assert(e2(hp, r, k) == if k < lv2 && br2(h0, r, k) {
                        0i64
                    } else {
                        e2(h0, r, k)
                    });
                }
                assert forall|k: int, m: int|
                    lv2 + 1 <= k < 512 && br2(h0, r, k) && 0 <= m < 512 implies #[trigger] e1(
                    hn,
                    r,
                    k,
                    m,
                ) == e1(h0, r, k, m) by {
                    assert(e2(hp, r, k) == e2(h0, r, k));
                    assert(br2(hp, r, k));
                    assert(table_frame(hp, t1(hp, r, k)));
                    assert(t1(hp, r, k) != r);
                    lemma_word_update(hd, hn, r, a, 0i64, r, k);
                    lemma_word_update(hd, hn, r, a, 0i64, t1(hp, r, k), m);
                    assert(hd.word(r, k) == hp.word(r, k));
                    assert(hd.word(t1(hp, r, k), m) == hp.word(t1(hp, r, k), m));
                    assert(e2(hn, r, k) == e2(hp, r, k));
                    assert(e1(hp, r, k, m) == e1(h0, r, k, m));
                }
                assert forall|p: int|
                    0 <= p < h0.npages() && #[trigger] hn.descs()[p] != h0.descs()[p] implies hn.descs()[p]
                        == 0u8 && in_subtrees(h0, r, p) by {
                    if p == fi {
                        assert(br2(h0, r, a) && h0.frame_index(t1(h0, r, a)) == p);
                    } else {
                        assert(hn.descs()[p] == hp.descs()[p]);
                    }
                }
                assert forall|k: int| #[trigger] br2(h0, r, k) && k < lv2 + 1 implies hn.desc_at(
                    t1(h0, r, k),
                ) == 0u8 by {
                    if k != a {
                        assert(hp.desc_at(t1(h0, r, k)) == 0u8);
                    }
                }
                assert forall|k: int, m: int| #[trigger] br1(h0, r, k, m) && k < lv2 + 1 implies hn.desc_at(
                    t0(h0, r, k, m),
                ) == 0u8 by {
                    assert(hp.desc_at(t0(h0, r, k, m)) == 0u8);
                    assert(table_frame(h0, t0(h0, r, k, m)));
                    assert(table_frame(h0, t1(h0, r, a)));
                    assert(t0(h0, r, k, m) != t1(h0, r, a));
                }
            }
        } else {
            proof {
                assert(!br2(h0, r, lv2 as int));
                assert forall|k: int| 0 <= k < 512 implies #[trigger] e2(*heap, r, k) == if k < lv2 + 1
                    && br2(h0, r, k) {
                    0i64
                } else {
                    e2(h0, r, k)
                } by {}
            }
        }
        lv2 = lv2 + 1;
    }
}

} // verus!

//! Sv39 `satp` encoding.

use vstd::prelude::*;

verus! {

/// `satp` for Sv39: mode 8 in bits 60..63, root PPN (the table address
/// divided by the 4 KiB page size) below it.
pub open spec fn satp_sv39(root_table_addr: usize) -> int {
    0x8000_0000_0000_0000int + root_table_addr as int / 4096
}

/// Pack a level-2 root table address into a Sv39 `satp` value. Mode 8 in
/// the top nibble selects Sv39; the PPN field holds the table address
/// shifted right by the 4 KiB page order.
pub fn make_satp_sv39(root_table_addr: usize) -> (satp: usize)
    requires
        usize::BITS == 64,
    ensures
        satp == satp_sv39(root_table_addr),
{
    let root_ppn = root_table_addr >> 12;
    let satp = (8usize << 60) | root_ppn;
    assert(satp == 0x8000_0000_0000_0000u64 as usize + root_table_addr / 4096) by (bit_vector)
        requires
            usize::BITS == 64,
            root_ppn == root_table_addr >> 12usize,
            satp == (8usize << 60usize) | root_ppn,
    ;
    satp
}

/// The fields of the `satp` value for a root table below 2^56 (the
/// physical address limit): the mode field (bits 60..63) is 8, Sv39; the
/// ASID field (bits 44..59) is 0; the PPN field (bits 0..43) is the root
/// table's page number.
pub proof fn lemma_satp_fields(root_table_addr: usize, satp: int)
    requires
        root_table_addr < 0x100_0000_0000_0000,
        satp == satp_sv39(root_table_addr),
    ensures
        satp / 0x1000_0000_0000_0000 == 8,
        (satp / 0x1000_0000_0000) % 0x1_0000 == 0,
        satp % 0x1000_0000_0000 == root_table_addr as int / 4096,
{
    let ppn = root_table_addr as int / 4096;
    assert(0 <= ppn < 0x1000_0000_0000);
    assert(satp == 8 * 0x1000_0000_0000_0000 + ppn);
    vstd::arithmetic::div_mod::lemma_fundamental_div_mod_converse(
        satp,
        0x1000_0000_0000_0000,
        8,
        ppn,
    );
    vstd::arithmetic::div_mod::lemma_fundamental_div_mod_converse(
        satp,
        0x1000_0000_0000,
        0x8_0000,
        ppn,
    );
}

} // verus!

//! Sv39 page table primitives.

use vstd::prelude::*;

verus! {

/// The valid bit of a page table entry.
pub open spec fn pte_valid(e: i64) -> bool {
    e & 1i64 != 0
}

/// In Sv39 a PTE with any of R/W/X set is a leaf; otherwise it points at
/// the next-level table.
pub open spec fn pte_leaf(e: i64) -> bool {
    e & 0xei64 != 0
}

/// A valid entry that points at a next-level table.
pub open spec fn pte_branch(e: i64) -> bool {
    pte_valid(e) && !pte_leaf(e)
}

/// 512-entry page table: exactly one 4 KiB page, so a table aligns
/// cleanly to a frame boundary. In this library tables live in the
/// heap's data pages; this type names their shape.
pub struct Table {
    pub entries: [Entry; 512],
}

impl Table {
    pub fn len() -> (r: usize)
        ensures
            r == 512,
    {
        512
    }
}

/// Sv39 page table entry. Stored as `i64` because the walker uses
/// arithmetic shifts when sign-extending PPN bits; staying signed keeps
/// the masks consistent.
#[derive(Clone, Copy)]
pub struct Entry {
    entry: i64,
}

impl Entry {
    /// The raw 64-bit entry.
    pub closed spec fn raw(&self) -> i64 {
        self.entry
    }

    /// An entry holding `entry`.
    pub fn from_raw(entry: i64) -> (r: Entry)
        ensures
            r.raw() == entry,
    {
        Entry { entry }
    }

    pub fn get_entry(&self) -> (r: i64)
        ensures
            r == self.raw(),
    {
        self.entry
    }

    pub fn set_entry(&mut self, entry: i64)
        ensures
            final(self).raw() == entry,
    {
        self.entry = entry;
    }

    pub fn is_valid(&self) -> (r: bool)
        ensures
            r == pte_valid(self.raw()),
    {
        (self.get_entry() & PteFlags::valid().bits()) != 0
    }

    pub fn is_invalid(&self) -> (r: bool)
        ensures
            r == !pte_valid(self.raw()),
    {
        !self.is_valid()
    }

    pub fn is_leaf(&self) -> (r: bool)
        ensures
            r == pte_leaf(self.raw()),
    {
        (self.get_entry() & PteFlags::rwx().bits()) != 0
    }

    pub fn is_branch(&self) -> (r: bool)
        ensures
            r == !pte_leaf(self.raw()),
    {
        !self.is_leaf()
    }
}

/// Flag bits of a page table entry (the low byte).
#[derive(Clone, Copy, PartialEq, Eq, Structural)]
pub struct PteFlags(i64);

impl PteFlags {
    /// No flags.
    pub fn empty() -> (r: Self)
        ensures
            r.spec_bits() == 0,
    {
        Self(0)
    }

    /// Valid: the entry is in use.
    pub fn valid() -> (r: Self)
        ensures
            r.spec_bits() == 1,
    {
        Self(1)
    }

    /// Readable.
    pub fn read() -> (r: Self)
        ensures
            r.spec_bits() == 2,
    {
        Self(2)
    }

    /// Writable.
    pub fn write() -> (r: Self)
        ensures
            r.spec_bits() == 4,
    {
        Self(4)
    }

    /// Executable.
    pub fn execute() -> (r: Self)
        ensures
            r.spec_bits() == 8,
    {
        Self(8)
    }

    /// Accessible from user mode.
    pub fn user() -> (r: Self)
        ensures
            r.spec_bits() == 16,
    {
        Self(16)
    }

    /// Global mapping.
    pub fn global() -> (r: Self)
        ensures
            r.spec_bits() == 32,
    {
        Self(32)
    }

    /// Accessed.
    pub fn accessed() -> (r: Self)
        ensures
            r.spec_bits() == 64,
    {
        Self(64)
    }

    /// Dirty.
    pub fn dirty() -> (r: Self)
        ensures
            r.spec_bits() == 128,
    {
        Self(128)
    }

    /// Combined R|W|X mask: testing a PTE against this is the canonical
    /// leaf check.
    pub fn rwx() -> (r: Self)
        ensures
            r.spec_bits() == 0xe,
    {
        Self(0xe)
    }

    /// The flag bits.
    pub closed spec fn spec_bits(self) -> i64 {
        self.0
    }

    /// Flag values only ever hold bits of the low byte.
    pub open spec fn wf(self) -> bool {
        0 <= self.spec_bits() <= 0xff
    }

    pub fn bits(self) -> (r: i64)
        ensures
            r == self.spec_bits(),
    {
        self.0
    }

    /// The flags set in either operand.
    pub fn union(self, rhs: Self) -> (r: Self)
        ensures
            r.spec_bits() == self.spec_bits() | rhs.spec_bits(),
            self.wf() && rhs.wf() ==> r.wf(),
    {
        let r = PteFlags(self.0 | rhs.0);
        proof {
            let a = self.0;
            let b = rhs.0;
            assert(0 <= a <= 0xff && 0 <= b <= 0xff ==> 0 <= a | b <= 0xff) by (bit_vector);
        }
        r
    }
}

impl core::ops::BitOr for PteFlags {
    type Output = Self;

    fn bitor(self, rhs: Self) -> Self::Output {
        self.union(rhs)
    }
}

impl vstd::std_specs::ops::BitOrSpecImpl for PteFlags {
    open spec fn obeys_bitor_spec() -> bool {
        true
    }

    open spec fn bitor_req(self, rhs: Self) -> bool {
        true
    }

    closed spec fn bitor_spec(self, rhs: Self) -> Self {
        PteFlags(self.0 | rhs.0)
    }
}

impl core::ops::BitOrAssign for PteFlags {
    fn bitor_assign(&mut self, rhs: Self)
        ensures
            final(self).spec_bits() == old(self).spec_bits() | rhs.spec_bits(),
            old(self).wf() && rhs.wf() ==> final(self).wf(),
    {
        *self = self.union(rhs);
    }
}

} // verus!

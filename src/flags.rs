//! Architecture-neutral page permissions, the raw page-table entry, and the
//! contract that each architecture's entry encoding meets.

use vstd::prelude::*;
use crate::addr::{PhysAddr, PhysPageNum, VirtAddr, VirtPageNum};

verus! {

/// The entry is valid.
pub const FLAG_V: u64 = 0x1;
/// The page is readable.
pub const FLAG_R: u64 = 0x2;
/// The page is writable.
pub const FLAG_W: u64 = 0x4;
/// The page is executable.
pub const FLAG_X: u64 = 0x8;
/// The page is reachable from user mode.
pub const FLAG_U: u64 = 0x10;
/// The page has been written.
pub const FLAG_D: u64 = 0x20;
/// The page has been accessed.
pub const FLAG_A: u64 = 0x40;
/// The mapping is global.
pub const FLAG_G: u64 = 0x80;
/// Every canonical flag.
pub const FLAG_ALL: u64 = 0xff;

/// A set of canonical flags, one bit each.
#[derive(Clone, Copy, Debug, PartialEq, Eq, Structural, Hash)]
pub struct PTEFlags {
    pub bits: u64,
}

impl PTEFlags {
    /// Holds canonical flags only.
    pub open spec fn wf(self) -> bool {
        self.bits <= FLAG_ALL
    }

    /// No flag.
    pub fn empty() -> (r: PTEFlags)
        ensures
            r.bits == 0,
    {
        PTEFlags { bits: 0 }
    }

    /// The canonical flags among `bits`.
    pub fn from_bits_truncate(bits: u64) -> (r: PTEFlags)
        ensures
            r.bits == bits & FLAG_ALL,
            r.wf(),
    {
        let r = bits & FLAG_ALL;
        assert(r <= FLAG_ALL) by (bit_vector)
            requires
                r == bits & 0xff,
        ;
        PTEFlags { bits: r }
    }

    /// The raw bits.
    pub fn bits(&self) -> (r: u64)
        ensures
            r == self.bits,
    {
        self.bits
    }

    /// Whether every flag of `other` is set here.
    pub fn contains(&self, other: PTEFlags) -> (r: bool)
        ensures
            r == (self.bits & other.bits == other.bits),
    {
        self.bits & other.bits == other.bits
    }

    /// Whether some flag of `other` is set here.
    pub fn intersects(&self, other: PTEFlags) -> (r: bool)
        ensures
            r == (self.bits & other.bits != 0),
    {
        self.bits & other.bits != 0
    }

    /// The flags set here or in `other`.
    pub fn union(&self, other: PTEFlags) -> (r: PTEFlags)
        ensures
            r.bits == self.bits | other.bits,
    {
        PTEFlags { bits: self.bits | other.bits }
    }

    /// Sets the flags of `other`.
    pub fn insert(&mut self, other: PTEFlags)
        ensures
            final(self).bits == old(self).bits | other.bits,
    {
        self.bits = self.bits | other.bits;
    }

    /// Clears the flags of `other`.
    pub fn remove(&mut self, other: PTEFlags)
        ensures
            final(self).bits == old(self).bits & !other.bits,
    {
        self.bits = self.bits & !other.bits;
    }
}

/// One raw page-table entry; its meaning belongs to the architecture.
#[derive(Clone, Copy, Debug, PartialEq, Eq, Structural)]
pub struct PageTableEntry {
    pub bits: u64,
}

impl PageTableEntry {
    /// The all-zero entry, invalid on every architecture.
    pub fn empty() -> (r: PageTableEntry)
        ensures
            r.bits == 0,
    {
        PageTableEntry { bits: 0 }
    }

    /// A leaf entry of format `T` mapping to `ppn` with `flags`.
    pub fn new<T: PTOps>(ppn: PhysPageNum, flags: PTEFlags) -> (r: PageTableEntry)
        requires
            ppn.0 <= T::spec_max_ppn(),
        ensures
            r.bits == T::spec_leaf(ppn.0, flags.bits),
    {
        T::pte_new_leaf(ppn, flags)
    }

    /// The physical page number this entry of format `T` holds.
    pub fn ppn<T: PTOps>(&self) -> (r: PhysPageNum)
        ensures
            r.0 == T::spec_ppn(self.bits),
    {
        T::pte_to_ppn(self)
    }

    /// The canonical flags of this entry of format `T`.
    pub fn flags<T: PTOps>(&self) -> (r: PTEFlags)
        ensures
            r.bits == T::spec_flags(self.bits),
    {
        T::pte_to_generic_flags(self)
    }

    /// Whether this entry of format `T` is valid.
    pub fn is_valid<T: PTOps>(&self) -> (r: bool)
        ensures
            r == T::spec_valid(self.bits),
    {
        T::pte_is_valid(self)
    }
}

/// What an architecture supplies to the generic page table: geometry,
/// entry encoding and decoding, and root-token conversion.
pub trait PTOps {
    /// Number of table levels.
    spec fn spec_levels() -> nat;

    /// Largest physical page number an entry can hold.
    spec fn spec_max_ppn() -> nat;

    /// Whether raw entry bits are valid.
    spec fn spec_valid(bits: u64) -> bool;

    /// Physical page number held by raw entry bits.
    spec fn spec_ppn(bits: u64) -> usize;

    /// Canonical flags read from raw entry bits.
    spec fn spec_flags(bits: u64) -> u64;

    /// Raw bits of a leaf entry.
    spec fn spec_leaf(ppn: usize, flags: u64) -> u64;

    /// Raw bits of an entry that points to a next-level table.
    spec fn spec_intermediate(ppn: usize) -> u64;

    /// Root-table register value for a root page number.
    spec fn spec_token(ppn: usize) -> u64;

    /// Root page number named by a register value.
    spec fn spec_ppn_of_token(token: u64) -> usize;

    /// The encodings read back what was written.
    proof fn lemma_encoding()
        ensures
            1 <= Self::spec_levels() <= 4,
            !Self::spec_valid(0),
            forall|bits: u64| #![auto] Self::spec_flags(bits) <= FLAG_ALL,
            forall|bits: u64| #![auto] Self::spec_valid(bits) == (Self::spec_flags(bits) & FLAG_V == FLAG_V),
            forall|ppn: usize, f: u64|
                ppn <= Self::spec_max_ppn() ==> {
                    &&& #[trigger] Self::spec_valid(Self::spec_leaf(ppn, f))
                    &&& Self::spec_ppn(Self::spec_leaf(ppn, f)) == ppn
                    &&& Self::spec_flags(Self::spec_leaf(ppn, f)) == (f & FLAG_ALL) | FLAG_V
                },
            forall|ppn: usize|
                ppn <= Self::spec_max_ppn() ==> {
                    &&& #[trigger] Self::spec_valid(Self::spec_intermediate(ppn))
                    &&& Self::spec_ppn(Self::spec_intermediate(ppn)) == ppn
                },
            forall|ppn: usize|
                ppn <= Self::spec_max_ppn() ==> #[trigger] Self::spec_ppn_of_token(Self::spec_token(ppn)) == ppn,
    ;

    /// Number of table levels.
    fn page_table_levels() -> (r: usize)
        ensures
            r == Self::spec_levels(),
    ;

    /// Page holding a virtual address.
    fn va_to_vpn(va: VirtAddr) -> (r: VirtPageNum)
        ensures
            r.0 == crate::addr::spec_floor(va.0),
    ;

    /// First byte address of a physical page.
    fn ppn_to_pa(ppn: PhysPageNum) -> (r: PhysAddr)
        requires
            ppn.0 <= crate::addr::MAX_PAGE_NUM,
        ensures
            r.0 == crate::addr::spec_page_to_addr(ppn.0),
    ;

    /// First byte address of a virtual page.
    fn vpn_to_va(vpn: VirtPageNum) -> (r: VirtAddr)
        requires
            vpn.0 <= crate::addr::MAX_PAGE_NUM,
        ensures
            r.0 == crate::addr::spec_page_to_addr(vpn.0),
    ;

    /// Root page number named by a register value.
    fn ppn_from_token(token: u64) -> (r: PhysPageNum)
        ensures
            r.0 == Self::spec_ppn_of_token(token),
    ;

    /// Register value that installs the table rooted at `ppn`.
    fn token_from_ppn(ppn: PhysPageNum) -> (r: u64)
        requires
            ppn.0 <= Self::spec_max_ppn(),
        ensures
            r == Self::spec_token(ppn.0),
    ;

    /// Whether an entry is valid.
    fn pte_is_valid(pte: &PageTableEntry) -> (r: bool)
        ensures
            r == Self::spec_valid(pte.bits),
    ;

    /// Physical page number held by an entry.
    fn pte_to_ppn(pte: &PageTableEntry) -> (r: PhysPageNum)
        ensures
            r.0 == Self::spec_ppn(pte.bits),
    ;

    /// Canonical flags of an entry.
    fn pte_to_generic_flags(pte: &PageTableEntry) -> (r: PTEFlags)
        ensures
            r.bits == Self::spec_flags(pte.bits),
    ;

    /// A leaf entry mapping to `ppn` with `flags`.
    fn pte_new_leaf(ppn: PhysPageNum, flags: PTEFlags) -> (r: PageTableEntry)
        requires
            ppn.0 <= Self::spec_max_ppn(),
        ensures
            r.bits == Self::spec_leaf(ppn.0, flags.bits),
    ;

    /// An entry pointing to the next-level table at `ppn`.
    fn pte_new_intermediate(ppn: PhysPageNum) -> (r: PageTableEntry)
        requires
            ppn.0 <= Self::spec_max_ppn(),
        ensures
            r.bits == Self::spec_intermediate(ppn.0),
    ;
}

} // verus!

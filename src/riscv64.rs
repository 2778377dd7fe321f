//! Sv39 entry format: three levels, permission bits stored directly.

use vstd::prelude::*;
use crate::addr::{PhysAddr, PhysPageNum, VirtAddr, VirtPageNum, MAX_PAGE_NUM, PAGE_SIZE};
use crate::flags::{PTEFlags, PTOps, PageTableEntry, FLAG_ALL, FLAG_V};

verus! {

/// Position of the physical page number inside an entry.
pub const PPN_OFFSET_IN_PTE: u64 = 10;
/// Mask of a physical page number (44 bits).
pub const PPN_MASK: u64 = 0xfff_ffff_ffff;
/// `satp` mode field selecting Sv39 translation.
pub const SATP_MODE_SV39: u64 = 0x8000_0000_0000_0000;
/// Mask of the flag bits below the page number.
pub const ARCH_FLAGS_MASK: u64 = 0x3ff;

/// Swaps bits 5 and 7 of the low byte and drops every higher bit: the two
/// layouts differ only in where Dirty and Global live.
pub open spec fn swap_dirty_global(x: u64) -> u64 {
    (x & 0x5f) | (((x >> 5u64) & 1) << 7u64) | (((x >> 7u64) & 1) << 5u64)
}

/// Entry flags in the Sv39 layout: V R W X U G A D, then one software bit.
#[derive(Clone, Copy, Debug, PartialEq, Eq, Structural, Hash)]
pub struct Riscv64PTEFlags {
    pub bits: u64,
}

impl Riscv64PTEFlags {
    /// Canonical flags with the same meaning.
    pub fn to_generic(&self) -> (r: PTEFlags)
        ensures
            r.bits == swap_dirty_global(self.bits),
    {
        let x = self.bits;
        PTEFlags { bits: (x & 0x5f) | (((x >> 5) & 1) << 7) | (((x >> 7) & 1) << 5) }
    }

    /// Sv39 flags with the same meaning as canonical flags.
    pub fn from_generic(f: PTEFlags) -> (r: Riscv64PTEFlags)
        ensures
            r.bits == swap_dirty_global(f.bits),
    {
        let x = f.bits;
        Riscv64PTEFlags { bits: (x & 0x5f) | (((x >> 5) & 1) << 7) | (((x >> 7) & 1) << 5) }
    }
}

impl From<Riscv64PTEFlags> for PTEFlags {
    fn from(value: Riscv64PTEFlags) -> PTEFlags {
        value.to_generic()
    }
}

impl vstd::std_specs::convert::FromSpecImpl<Riscv64PTEFlags> for PTEFlags {
    open spec fn obeys_from_spec() -> bool {
        true
    }

    open spec fn from_spec(v: Riscv64PTEFlags) -> PTEFlags {
        PTEFlags { bits: swap_dirty_global(v.bits) }
    }
}

impl From<PTEFlags> for Riscv64PTEFlags {
    fn from(value: PTEFlags) -> Riscv64PTEFlags {
        Riscv64PTEFlags::from_generic(value)
    }
}

impl vstd::std_specs::convert::FromSpecImpl<PTEFlags> for Riscv64PTEFlags {
    open spec fn obeys_from_spec() -> bool {
        true
    }

    open spec fn from_spec(v: PTEFlags) -> Riscv64PTEFlags {
        Riscv64PTEFlags { bits: swap_dirty_global(v.bits) }
    }
}

/// Whether an address is canonical for Sv39: bits 63 to 38 all equal.
pub open spec fn spec_va_canonical(v: usize) -> bool {
    (v as u64) >> 38u64 == 0 || (v as u64) >> 38u64 == 0x3ff_ffff
}

/// Whether an address is canonical for Sv39.
pub fn va_is_canonical(v: usize) -> (r: bool)
    ensures
        r == spec_va_canonical(v),
{
    let x = v as u64;
    x >> 38 == 0 || x >> 38 == 0x3ff_ffff
}

/// Whether a raw value is a 44-bit physical page number, sign-extended.
pub open spec fn spec_ppn_in_range(v: usize) -> bool {
    (v as u64) >> 44u64 == 0 || (v as u64) >> 44u64 == 0xf_ffff
}

/// A physical page number from a trusted kernel source; one outside the
/// 44-bit range is a caller error.
pub fn ppn_from_usize(v: usize) -> (r: PhysPageNum)
    requires
        spec_ppn_in_range(v),
    ensures
        r.0 == v,
{
    PhysPageNum(v)
}

/// Whether a raw value is a 27-bit virtual page number sign-extended to 52 bits; values
/// from user code are wrapped whatever this says.
pub fn vpn_is_canonical(v: usize) -> (r: bool)
    ensures
        r == ((v as u64) >> 26u64 == 0 || (v as u64) >> 26u64 == 0x3ff_ffff),
{
    let x = v as u64;
    x >> 26 == 0 || x >> 26 == 0x3ff_ffff
}

/// The Sv39 policy.
pub struct Riscv64PTImpl;

impl PTOps for Riscv64PTImpl {
    open spec fn spec_levels() -> nat {
        3
    }

    open spec fn spec_max_ppn() -> nat {
        PPN_MASK as nat
    }

    open spec fn spec_valid(bits: u64) -> bool {
        bits & 1 == 1
    }

    open spec fn spec_ppn(bits: u64) -> usize {
        ((bits >> 10u64) & PPN_MASK) as usize
    }

    open spec fn spec_flags(bits: u64) -> u64 {
        swap_dirty_global(bits)
    }

    open spec fn spec_leaf(ppn: usize, flags: u64) -> u64 {
        ((ppn as u64) << 10u64) | swap_dirty_global(flags) | 1
    }

    open spec fn spec_intermediate(ppn: usize) -> u64 {
        ((ppn as u64) << 10u64) | 1
    }

    open spec fn spec_token(ppn: usize) -> u64 {
        SATP_MODE_SV39 | (ppn as u64)
    }

    open spec fn spec_ppn_of_token(token: u64) -> usize {
        (token & PPN_MASK) as usize
    }

    proof fn lemma_encoding() {
        assert(!Self::spec_valid(0)) by (bit_vector);
        assert forall|bits: u64| #![auto] Self::spec_flags(bits) <= FLAG_ALL by {
            assert(swap_dirty_global(bits) <= 0xff) by (bit_vector);
        }
        assert forall|bits: u64| #![auto]
            Self::spec_valid(bits) == (Self::spec_flags(bits) & FLAG_V == FLAG_V) by {
            assert((bits & 1 == 1) == (swap_dirty_global(bits) & 1 == 1)) by (bit_vector);
        }
        assert forall|ppn: usize, f: u64| ppn <= Self::spec_max_ppn() implies {
            &&& #[trigger] Self::spec_valid(Self::spec_leaf(ppn, f))
            &&& Self::spec_ppn(Self::spec_leaf(ppn, f)) == ppn
            &&& Self::spec_flags(Self::spec_leaf(ppn, f)) == (f & FLAG_ALL) | FLAG_V
        } by {
            let p = ppn as u64;
            let b = (p << 10u64) | swap_dirty_global(f) | 1;
            assert(b & 1 == 1 && (b >> 10u64) & 0xfff_ffff_ffff == p && swap_dirty_global(b) == (f & 0xff) | 1)
                by (bit_vector)
                requires
                    p <= 0xfff_ffff_ffff,
                    b == (p << 10u64) | swap_dirty_global(f) | 1,
            ;
        }
        assert forall|ppn: usize| ppn <= Self::spec_max_ppn() implies {
            &&& #[trigger] Self::spec_valid(Self::spec_intermediate(ppn))
            &&& Self::spec_ppn(Self::spec_intermediate(ppn)) == ppn
        } by {
            let p = ppn as u64;
            let b = (p << 10u64) | 1;
            assert(b & 1 == 1 && (b >> 10u64) & 0xfff_ffff_ffff == p) by (bit_vector)
                requires
                    p <= 0xfff_ffff_ffff,
                    b == (p << 10u64) | 1,
            ;
        }
        assert forall|ppn: usize| ppn <= Self::spec_max_ppn() implies #[trigger] Self::spec_ppn_of_token(
            Self::spec_token(ppn),
        ) == ppn by {
            let p = ppn as u64;
            assert((0x8000_0000_0000_0000u64 | p) & 0xfff_ffff_ffff == p) by (bit_vector)
                requires
                    p <= 0xfff_ffff_ffff,
            ;
        }
    }

    fn page_table_levels() -> (r: usize) {
        3
    }

    fn va_to_vpn(va: VirtAddr) -> (r: VirtPageNum) {
        va.floor()
    }

    fn ppn_to_pa(ppn: PhysPageNum) -> (r: PhysAddr) {
        ppn.to_paddr()
    }

    fn vpn_to_va(vpn: VirtPageNum) -> (r: VirtAddr) {
        vpn.address()
    }

    fn ppn_from_token(token: u64) -> (r: PhysPageNum) {
        PhysPageNum((token & PPN_MASK) as usize)
    }

    fn token_from_ppn(ppn: PhysPageNum) -> (r: u64) {
        SATP_MODE_SV39 | (ppn.0 as u64)
    }

    fn pte_is_valid(pte: &PageTableEntry) -> (r: bool) {
        pte.bits & 1 == 1
    }

    fn pte_to_ppn(pte: &PageTableEntry) -> (r: PhysPageNum) {
        PhysPageNum(((pte.bits >> PPN_OFFSET_IN_PTE) & PPN_MASK) as usize)
    }

    fn pte_to_generic_flags(pte: &PageTableEntry) -> (r: PTEFlags) {
        let arch = Riscv64PTEFlags { bits: pte.bits & ARCH_FLAGS_MASK };
        let r = PTEFlags::from(arch);
        let b = pte.bits;
        assert(swap_dirty_global(b & 0x3ff) == swap_dirty_global(b)) by (bit_vector);
        r
    }

    fn pte_new_leaf(ppn: PhysPageNum, flags: PTEFlags) -> (r: PageTableEntry) {
        let arch = Riscv64PTEFlags::from(flags);
        PageTableEntry { bits: ((ppn.0 as u64) << PPN_OFFSET_IN_PTE) | arch.bits | FLAG_V }
    }

    fn pte_new_intermediate(ppn: PhysPageNum) -> (r: PageTableEntry) {
        PageTableEntry { bits: ((ppn.0 as u64) << PPN_OFFSET_IN_PTE) | FLAG_V }
    }
}

} // verus!

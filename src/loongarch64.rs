//! LoongArch64 entry format: three levels, inverted not-readable and
//! not-executable bits, and a two-bit privilege level.

use vstd::prelude::*;
use crate::addr::{PhysAddr, PhysPageNum, VirtAddr, VirtPageNum, PAGE_SIZE};
use crate::flags::{
    PTEFlags, PTOps, PageTableEntry, FLAG_A, FLAG_ALL, FLAG_D, FLAG_G, FLAG_R, FLAG_U, FLAG_V,
    FLAG_W, FLAG_X,
};

verus! {

/// Page valid.
pub const LA_V: u64 = 0x1;
/// Page has been written.
pub const LA_D: u64 = 0x2;
/// Privilege level field; both bits set is user level.
pub const LA_PLV: u64 = 0xc;
/// Memory access type field; both bits set is cached.
pub const LA_MAT: u64 = 0x30;
/// Global mapping.
pub const LA_G: u64 = 0x40;
/// Page present.
pub const LA_P: u64 = 0x80;
/// Page writable.
pub const LA_W: u64 = 0x100;
/// Page accessed: bit 9, which the hardware leaves to software.
pub const LA_A: u64 = 0x200;
/// Page not readable.
pub const LA_NR: u64 = 0x2000_0000_0000_0000;
/// Page not executable.
pub const LA_NX: u64 = 0x4000_0000_0000_0000;
/// Privilege level restricted.
pub const LA_RPLV: u64 = 0x8000_0000_0000_0000;
/// Every flag bit of an entry: the low twelve bits and the top three.
pub const LA_FLAGS_MASK: u64 = 0xe000_0000_0000_0fff;
/// Position of the physical page number inside an entry.
pub const PPN_OFFSET_IN_PTE: u64 = 12;
/// Mask of a physical page number (36 bits).
pub const PPN_MASK: u64 = 0xf_ffff_ffff;
/// Mask of the 48-bit address window.
pub const VA_MASK: u64 = 0xffff_ffff_ffff;

/// Canonical flags read from LoongArch bits; nothing when not valid.
pub open spec fn spec_la_decode(b: u64) -> u64 {
    if b & LA_V == 0 {
        0
    } else {
        FLAG_V | (if b & LA_NR == 0 { FLAG_R } else { 0 }) | (if b & LA_W != 0 { FLAG_W } else { 0 })
            | (if b & LA_NX == 0 { FLAG_X } else { 0 }) | (if b & LA_PLV == LA_PLV { FLAG_U } else { 0 })
            | (if b & LA_D != 0 { FLAG_D } else { 0 }) | (if b & LA_A != 0 { FLAG_A } else { 0 })
            | (if b & LA_G != 0 { FLAG_G } else { 0 })
    }
}

/// LoongArch bits of a present, cached, valid page with canonical flags `f`;
/// Accessed lives in a bit the hardware ignores.
pub open spec fn spec_la_encode(f: u64) -> u64 {
    LA_V | LA_P | LA_MAT | (if f & FLAG_R == 0 { LA_NR } else { 0 }) | (if f & FLAG_W != 0 { LA_W } else { 0 })
        | (if f & FLAG_X == 0 { LA_NX } else { 0 }) | (if f & FLAG_U != 0 { LA_PLV } else { 0 })
        | (if f & FLAG_D != 0 { LA_D } else { 0 }) | (if f & FLAG_A != 0 { LA_A } else { 0 })
        | (if f & FLAG_G != 0 { LA_G } else { 0 })
}

/// Entry flags in the LoongArch layout.
#[derive(Clone, Copy, Debug, PartialEq, Eq, Structural, Hash)]
pub struct Loongarch64PTEFlags {
    pub bits: u64,
}

impl Loongarch64PTEFlags {
    /// Canonical flags with the same meaning.
    pub fn to_generic(&self) -> (r: PTEFlags)
        ensures
            r.bits == spec_la_decode(self.bits),
    {
        let b = self.bits;
        if b & LA_V == 0 {
            return PTEFlags::empty();
        }
        PTEFlags {
            bits: FLAG_V | (if b & LA_NR == 0 { FLAG_R } else { 0 }) | (if b & LA_W != 0 { FLAG_W } else { 0 })
                | (if b & LA_NX == 0 { FLAG_X } else { 0 }) | (if b & LA_PLV == LA_PLV { FLAG_U } else { 0 })
                | (if b & LA_D != 0 { FLAG_D } else { 0 }) | (if b & LA_A != 0 { FLAG_A } else { 0 })
                | (if b & LA_G != 0 { FLAG_G } else { 0 }),
        }
    }

    /// LoongArch flags of a valid page with the meaning of canonical flags.
    pub fn from_generic(f: PTEFlags) -> (r: Loongarch64PTEFlags)
        ensures
            r.bits == spec_la_encode(f.bits),
    {
        let x = f.bits;
        Loongarch64PTEFlags {
            bits: LA_V | LA_P | LA_MAT | (if x & FLAG_R == 0 { LA_NR } else { 0 }) | (if x & FLAG_W != 0 { LA_W } else { 0 })
                | (if x & FLAG_X == 0 { LA_NX } else { 0 }) | (if x & FLAG_U != 0 { LA_PLV } else { 0 })
                | (if x & FLAG_D != 0 { LA_D } else { 0 }) | (if x & FLAG_A != 0 { LA_A } else { 0 })
                | (if x & FLAG_G != 0 { LA_G } else { 0 }),
        }
    }
}

impl From<Loongarch64PTEFlags> for PTEFlags {
    fn from(value: Loongarch64PTEFlags) -> PTEFlags {
        value.to_generic()
    }
}

impl vstd::std_specs::convert::FromSpecImpl<Loongarch64PTEFlags> for PTEFlags {
    open spec fn obeys_from_spec() -> bool {
        true
    }

    open spec fn from_spec(v: Loongarch64PTEFlags) -> PTEFlags {
        PTEFlags { bits: spec_la_decode(v.bits) }
    }
}

impl From<PTEFlags> for Loongarch64PTEFlags {
    fn from(value: PTEFlags) -> Loongarch64PTEFlags {
        Loongarch64PTEFlags::from_generic(value)
    }
}

impl vstd::std_specs::convert::FromSpecImpl<PTEFlags> for Loongarch64PTEFlags {
    open spec fn obeys_from_spec() -> bool {
        true
    }

    open spec fn from_spec(v: PTEFlags) -> Loongarch64PTEFlags {
        Loongarch64PTEFlags { bits: spec_la_encode(v.bits) }
    }
}

/// Virtual address masked to the 48-bit window.
pub fn va_from_usize(v: usize) -> (r: VirtAddr)
    ensures
        r.0 as u64 == (v as u64) & VA_MASK,
{
    let m = (v as u64) & VA_MASK;
    assert(m <= v as u64) by (bit_vector)
        requires
            m == (v as u64) & 0xffff_ffff_ffff,
    ;
    VirtAddr(m as usize)
}

/// Start bit of each directory level's index in a virtual address, lowest
/// directory first.
pub const DIR_1_SHIFT: u64 = 21;
/// Start bit of the second directory level's index.
pub const DIR_2_SHIFT: u64 = 30;
/// Start bit of the third directory level's index.
pub const DIR_3_SHIFT: u64 = 39;
/// Start bit of the fourth directory level's index.
pub const DIR_4_SHIFT: u64 = 48;
/// Start bit of the last-level index.
pub const PAGE_SHIFT: u64 = 12;
/// Width of one level's index: 4 KiB tables of 8-byte entries.
pub const DIR_WIDTH: u64 = 9;

/// Index start and width that the walker register holds for directory
/// level `d` (1 is the lowest) of a `levels`-level table; zero where the
/// table has no such directory.
pub open spec fn spec_dir_field(levels: u64, d: u64, shift: u64) -> (u64, u64) {
    if levels > d {
        (shift, DIR_WIDTH)
    } else {
        (0, 0)
    }
}

/// Value of the lower walker-control register for a `levels`-level table:
/// last-level index start and width, then the two lowest directories, then
/// a zero entry-width field (64-bit entries).
pub open spec fn spec_pwcl(levels: u64) -> u64 {
    let (d1i, d1w) = spec_dir_field(levels, 1, DIR_1_SHIFT);
    let (d2i, d2w) = spec_dir_field(levels, 2, DIR_2_SHIFT);
    PAGE_SHIFT | (DIR_WIDTH << 5u64) | (d1i << 10u64) | (d1w << 15u64) | (d2i << 20u64) | (d2w << 25u64)
}

/// Value of the higher walker-control register: the third and fourth
/// directories.
pub open spec fn spec_pwch(levels: u64) -> u64 {
    let (d3i, d3w) = spec_dir_field(levels, 3, DIR_3_SHIFT);
    let (d4i, d4w) = spec_dir_field(levels, 4, DIR_4_SHIFT);
    d3i | (d3w << 6u64) | (d4i << 12u64) | (d4w << 18u64)
}

fn dir_field(levels: u64, d: u64, shift: u64) -> (r: (u64, u64))
    ensures
        r == spec_dir_field(levels, d, shift),
{
    if levels > d {
        (shift, DIR_WIDTH)
    } else {
        (0, 0)
    }
}

/// The two walker-control register values, lower then higher, that make
/// the hardware walker follow a `levels`-level table.
pub fn ptwalker_config(levels: u64) -> (r: (u64, u64))
    ensures
        r == (spec_pwcl(levels), spec_pwch(levels)),
{
    let (d1i, d1w) = dir_field(levels, 1, DIR_1_SHIFT);
    let (d2i, d2w) = dir_field(levels, 2, DIR_2_SHIFT);
    let (d3i, d3w) = dir_field(levels, 3, DIR_3_SHIFT);
    let (d4i, d4w) = dir_field(levels, 4, DIR_4_SHIFT);
    let pwcl = PAGE_SHIFT | (DIR_WIDTH << 5) | (d1i << 10) | (d1w << 15) | (d2i << 20) | (d2w << 25);
    let pwch = d3i | (d3w << 6) | (d4i << 12) | (d4w << 18);
    (pwcl, pwch)
}

/// Mask of the 48-bit physical address window.
pub const PA_MASK: u64 = 0xffff_ffff_ffff;
/// Mask of a virtual page number (36 bits).
pub const VPN_MASK: u64 = 0xf_ffff_ffff;

/// Physical address masked to the 48-bit window.
pub fn pa_from_usize(v: usize) -> (r: PhysAddr)
    ensures
        r.0 as u64 == (v as u64) & PA_MASK,
{
    let m = (v as u64) & PA_MASK;
    assert(m <= v as u64) by (bit_vector)
        requires
            m == (v as u64) & 0xffff_ffff_ffff,
    ;
    PhysAddr(m as usize)
}

/// Physical page number masked to 36 bits.
pub fn ppn_from_usize(v: usize) -> (r: PhysPageNum)
    ensures
        r.0 as u64 == (v as u64) & PPN_MASK,
{
    let m = (v as u64) & PPN_MASK;
    assert(m <= v as u64) by (bit_vector)
        requires
            m == (v as u64) & 0xf_ffff_ffff,
    ;
    PhysPageNum(m as usize)
}

/// Virtual page number masked to 36 bits.
pub fn vpn_from_usize(v: usize) -> (r: VirtPageNum)
    ensures
        r.0 as u64 == (v as u64) & VPN_MASK,
{
    let m = (v as u64) & VPN_MASK;
    assert(m <= v as u64) by (bit_vector)
        requires
            m == (v as u64) & 0xf_ffff_ffff,
    ;
    VirtPageNum(m as usize)
}

/// The LoongArch policy.
pub struct Loongarch64PTImpl;

impl Loongarch64PTImpl {
    /// The LoongArch flag bits of an entry, page number masked out.
    pub fn pte_to_arch_flags(pte: &PageTableEntry) -> (r: Loongarch64PTEFlags)
        ensures
            r.bits == pte.bits & LA_FLAGS_MASK,
    {
        Loongarch64PTEFlags { bits: pte.bits & LA_FLAGS_MASK }
    }
}

impl PTOps for Loongarch64PTImpl {
    open spec fn spec_levels() -> nat {
        3
    }

    open spec fn spec_max_ppn() -> nat {
        PPN_MASK as nat
    }

    open spec fn spec_valid(bits: u64) -> bool {
        bits & LA_V == LA_V
    }

    open spec fn spec_ppn(bits: u64) -> usize {
        ((bits >> 12u64) & PPN_MASK) as usize
    }

    open spec fn spec_flags(bits: u64) -> u64 {
        spec_la_decode(bits)
    }

    open spec fn spec_leaf(ppn: usize, flags: u64) -> u64 {
        ((ppn as u64) << 12u64) | spec_la_encode(flags)
    }

    open spec fn spec_intermediate(ppn: usize) -> u64 {
        ((ppn as u64) << 12u64) | LA_V | LA_P | LA_MAT
    }

    open spec fn spec_token(ppn: usize) -> u64 {
        (ppn as u64) << 12u64
    }

    open spec fn spec_ppn_of_token(token: u64) -> usize {
        ((token >> 12u64) & PPN_MASK) as usize
    }

    proof fn lemma_encoding() {
        assert(!Self::spec_valid(0)) by (bit_vector);
        assert forall|bits: u64| #![auto] Self::spec_flags(bits) <= FLAG_ALL by {
            assert(spec_la_decode(bits) <= 0xff) by (bit_vector);
        }
        assert forall|bits: u64| #![auto]
            Self::spec_valid(bits) == (Self::spec_flags(bits) & FLAG_V == FLAG_V) by {
            assert((bits & 1 == 1) == (spec_la_decode(bits) & 1 == 1)) by (bit_vector);
        }
        assert forall|ppn: usize, f: u64| ppn <= Self::spec_max_ppn() implies {
            &&& #[trigger] Self::spec_valid(Self::spec_leaf(ppn, f))
            &&& Self::spec_ppn(Self::spec_leaf(ppn, f)) == ppn
            &&& Self::spec_flags(Self::spec_leaf(ppn, f)) == (f & FLAG_ALL) | FLAG_V
        } by {
            let p = ppn as u64;
            let b = (p << 12u64) | spec_la_encode(f);
            assert(b & 1 == 1 && (b >> 12u64) & 0xf_ffff_ffff == p && spec_la_decode(b) == (f & 0xff) | 1)
                by (bit_vector)
                requires
                    p <= 0xf_ffff_ffff,
                    b == (p << 12u64) | spec_la_encode(f),
            ;
        }
        assert forall|ppn: usize| ppn <= Self::spec_max_ppn() implies {
            &&& #[trigger] Self::spec_valid(Self::spec_intermediate(ppn))
            &&& Self::spec_ppn(Self::spec_intermediate(ppn)) == ppn
        } by {
            let p = ppn as u64;
            let b = (p << 12u64) | 1 | 0x80 | 0x30;
            assert(b & 1 == 1 && (b >> 12u64) & 0xf_ffff_ffff == p) by (bit_vector)
                requires
                    p <= 0xf_ffff_ffff,
                    b == (p << 12u64) | 1 | 0x80 | 0x30,
            ;
        }
        assert forall|ppn: usize| ppn <= Self::spec_max_ppn() implies #[trigger] Self::spec_ppn_of_token(
            Self::spec_token(ppn),
        ) == ppn by {
            let p = ppn as u64;
            assert((p << 12u64) >> 12u64 & 0xf_ffff_ffff == p) by (bit_vector)
                requires
                    p <= 0xf_ffff_ffff,
            ;
        }
    }

    fn page_table_levels() -> (r: usize) {
        3
    }

    fn va_to_vpn(va: VirtAddr) -> (r: VirtPageNum) {
        va.floor()
    }

    fn ppn_to_pa(ppn: PhysPageNum) -> (r: PhysAddr) {
        ppn.to_paddr()
    }

    fn vpn_to_va(vpn: VirtPageNum) -> (r: VirtAddr) {
        vpn.address()
    }

    fn ppn_from_token(token: u64) -> (r: PhysPageNum) {
        PhysPageNum(((token >> PPN_OFFSET_IN_PTE) & PPN_MASK) as usize)
    }

    fn token_from_ppn(ppn: PhysPageNum) -> (r: u64) {
        (ppn.0 as u64) << PPN_OFFSET_IN_PTE
    }

    fn pte_is_valid(pte: &PageTableEntry) -> (r: bool) {
        pte.bits & LA_V == LA_V
    }

    fn pte_to_ppn(pte: &PageTableEntry) -> (r: PhysPageNum) {
        PhysPageNum(((pte.bits >> PPN_OFFSET_IN_PTE) & PPN_MASK) as usize)
    }

    fn pte_to_generic_flags(pte: &PageTableEntry) -> (r: PTEFlags) {
        let arch = Self::pte_to_arch_flags(pte);
        let r = PTEFlags::from(arch);
        let b = pte.bits;
        assert(spec_la_decode(b & 0xe000_0000_0000_0fff) == spec_la_decode(b)) by (bit_vector);
        r
    }

    fn pte_new_leaf(ppn: PhysPageNum, flags: PTEFlags) -> (r: PageTableEntry) {
        let arch = Loongarch64PTEFlags::from(flags);
        PageTableEntry { bits: ((ppn.0 as u64) << PPN_OFFSET_IN_PTE) | arch.bits }
    }

    fn pte_new_intermediate(ppn: PhysPageNum) -> (r: PageTableEntry) {
        PageTableEntry { bits: ((ppn.0 as u64) << PPN_OFFSET_IN_PTE) | LA_V | LA_P | LA_MAT }
    }
}

} // verus!

//! Typed physical/virtual addresses and page numbers.

use vstd::prelude::*;

verus! {

/// Number of offset bits inside a page.
pub const PAGE_SIZE_BITS: usize = 12;

/// Bytes in one page.
pub const PAGE_SIZE: usize = 4096;

/// Mask selecting the offset inside a page.
pub const PAGE_MASK: usize = 4095;

/// Entries held by one page-table frame.
pub const PTES_PER_PAGE: usize = 512;

/// Largest page number whose first byte address still fits in a machine word.
pub const MAX_PAGE_NUM: usize = usize::MAX / 4096;

/// Offset of an address inside its page.
pub open spec fn spec_page_offset(a: usize) -> nat {
    (a as nat) % (PAGE_SIZE as nat)
}

/// Page number of the page holding an address.
pub open spec fn spec_floor(a: usize) -> nat {
    (a as nat) / (PAGE_SIZE as nat)
}

/// Page number of the first page starting at or after an address.
pub open spec fn spec_ceil(a: usize) -> nat {
    ((a as nat) + PAGE_MASK as nat) / (PAGE_SIZE as nat)
}

/// First byte address of a page.
pub open spec fn spec_page_to_addr(p: usize) -> nat {
    (p as nat) * (PAGE_SIZE as nat)
}

/// A page number with its lowest `k` table indices shifted out.
pub open spec fn spec_shifted(vpn: nat, k: nat) -> nat
    decreases k,
{
    if k == 0 {
        vpn
    } else {
        spec_shifted(vpn, (k - 1) as nat) / 512
    }
}

/// Table index used at `level` (0 is the root) of a `levels`-level walk.
pub open spec fn spec_index(vpn: usize, levels: nat, level: nat) -> nat {
    spec_shifted(vpn as nat, (levels - 1 - level) as nat) % 512
}

/// Start of the kernel's direct map of physical memory.
pub const VIRT_RAM_OFFSET: u64 = 0xffff_ffc0_0000_0000;

/// A page-aligned address rounds down and up to the same page, and that
/// page starts at the address itself.
pub proof fn lemma_aligned_round_trip(a: usize)
    requires
        spec_page_offset(a) == 0,
    ensures
        spec_floor(a) == spec_ceil(a),
        spec_page_to_addr(spec_floor(a) as usize) == a,
        (spec_floor(a) as usize).wrapping_mul(4096) == a,
{
    let q = (a as nat) / 4096;
    assert(a == q * 4096) by (nonlinear_arith)
        requires
            q == (a as nat) / 4096,
            (a as nat) % 4096 == 0,
    ;
    assert(((a as nat) + 4095) / 4096 == q) by (nonlinear_arith)
        requires
            a == q * 4096,
    ;
    assert(q <= usize::MAX);
    vstd::arithmetic::div_mod::lemma_small_mod(a as nat, (usize::MAX as nat) + 1);
    assert((q as usize).wrapping_mul(4096) == a);
}

impl From<PhysAddr> for usize {
    fn from(v: PhysAddr) -> usize {
        v.0
    }
}

impl vstd::std_specs::convert::FromSpecImpl<PhysAddr> for usize {
    open spec fn obeys_from_spec() -> bool {
        true
    }

    open spec fn from_spec(v: PhysAddr) -> usize {
        v.0
    }
}

impl From<VirtAddr> for usize {
    fn from(v: VirtAddr) -> usize {
        v.0
    }
}

impl vstd::std_specs::convert::FromSpecImpl<VirtAddr> for usize {
    open spec fn obeys_from_spec() -> bool {
        true
    }

    open spec fn from_spec(v: VirtAddr) -> usize {
        v.0
    }
}

impl From<PhysPageNum> for usize {
    fn from(v: PhysPageNum) -> usize {
        v.0
    }
}

impl vstd::std_specs::convert::FromSpecImpl<PhysPageNum> for usize {
    open spec fn obeys_from_spec() -> bool {
        true
    }

    open spec fn from_spec(v: PhysPageNum) -> usize {
        v.0
    }
}

impl From<VirtPageNum> for usize {
    fn from(v: VirtPageNum) -> usize {
        v.0
    }
}

impl vstd::std_specs::convert::FromSpecImpl<VirtPageNum> for usize {
    open spec fn obeys_from_spec() -> bool {
        true
    }

    open spec fn from_spec(v: VirtPageNum) -> usize {
        v.0
    }
}

impl From<PhysPageNum> for PhysAddr {
    fn from(v: PhysPageNum) -> PhysAddr {
        PhysAddr(v.0.wrapping_mul(PAGE_SIZE))
    }
}

impl vstd::std_specs::convert::FromSpecImpl<PhysPageNum> for PhysAddr {
    open spec fn obeys_from_spec() -> bool {
        true
    }

    open spec fn from_spec(v: PhysPageNum) -> PhysAddr {
        PhysAddr(v.0.wrapping_mul(4096))
    }
}

impl From<VirtPageNum> for VirtAddr {
    fn from(v: VirtPageNum) -> VirtAddr {
        VirtAddr(v.0.wrapping_mul(PAGE_SIZE))
    }
}

impl vstd::std_specs::convert::FromSpecImpl<VirtPageNum> for VirtAddr {
    open spec fn obeys_from_spec() -> bool {
        true
    }

    open spec fn from_spec(v: VirtPageNum) -> VirtAddr {
        VirtAddr(v.0.wrapping_mul(4096))
    }
}

/// A physical machine address.
#[derive(Clone, Copy, Debug, PartialEq, Eq, Structural, PartialOrd, Ord, Hash)]
pub struct PhysAddr(pub usize);

/// A virtual machine address.
#[derive(Clone, Copy, Debug, PartialEq, Eq, Structural, PartialOrd, Ord, Hash)]
pub struct VirtAddr(pub usize);

/// A physical address divided by the page size.
#[derive(Clone, Copy, Debug, PartialEq, Eq, Structural, PartialOrd, Ord, Hash)]
pub struct PhysPageNum(pub usize);

/// A virtual address divided by the page size.
#[derive(Clone, Copy, Debug, PartialEq, Eq, Structural, PartialOrd, Ord, Hash)]
pub struct VirtPageNum(pub usize);

fn offset_of(a: usize) -> (r: usize)
    ensures
        r == spec_page_offset(a),
        r < PAGE_SIZE,
{
    a % PAGE_SIZE
}

fn floor_of(a: usize) -> (r: usize)
    ensures
        r == spec_floor(a),
        r <= MAX_PAGE_NUM,
{
    a / PAGE_SIZE
}

fn ceil_of(a: usize) -> (r: usize)
    ensures
        r == spec_ceil(a),
{
    if a % PAGE_SIZE == 0 {
        a / PAGE_SIZE
    } else {
        a / PAGE_SIZE + 1
    }
}

impl PhysAddr {
    /// The raw address.
    pub fn bits(&self) -> (r: usize)
        ensures
            r == self.0,
    {
        self.0
    }

    /// Offset of the address inside its page.
    pub fn page_offset(&self) -> (r: usize)
        ensures
            r == spec_page_offset(self.0),
    {
        offset_of(self.0)
    }

    /// Whether the address starts a page.
    pub fn aligned(&self) -> (r: bool)
        ensures
            r == (spec_page_offset(self.0) == 0),
    {
        self.page_offset() == 0
    }

    /// The page number of the first page starting at or after this address.
    pub fn ceil(&self) -> (r: PhysPageNum)
        ensures
            r.0 == spec_ceil(self.0),
    {
        PhysPageNum(ceil_of(self.0))
    }

    /// The page number of the page holding this address.
    pub fn floor(&self) -> (r: PhysPageNum)
        ensures
            r.0 == spec_floor(self.0),
    {
        PhysPageNum(floor_of(self.0))
    }

    /// The address of this byte in the kernel's direct map.
    pub fn to_vaddr(&self) -> (r: VirtAddr)
        requires
            self.0 + VIRT_RAM_OFFSET <= usize::MAX,
        ensures
            r.0 == self.0 + VIRT_RAM_OFFSET,
    {
        VirtAddr(((self.0 as u64) + VIRT_RAM_OFFSET) as usize)
    }

    /// The page number of the page holding this address.
    pub fn page_number(&self) -> (r: PhysPageNum)
        ensures
            r.0 == spec_floor(self.0),
    {
        self.floor()
    }
}

impl VirtAddr {
    /// Wraps a raw address without any check.
    pub fn from_usize(v: usize) -> (r: VirtAddr)
        ensures
            r.0 == v,
    {
        VirtAddr(v)
    }

    /// The raw address.
    pub fn bits(&self) -> (r: usize)
        ensures
            r == self.0,
    {
        self.0
    }

    /// The physical address behind a direct-map address; `None` below the
    /// direct map.
    pub fn to_paddr(&self) -> (r: Option<PhysAddr>)
        ensures
            self.0 >= VIRT_RAM_OFFSET ==> r == Some(PhysAddr((self.0 - VIRT_RAM_OFFSET) as usize)),
            self.0 < VIRT_RAM_OFFSET ==> r.is_none(),
    {
        if (self.0 as u64) >= VIRT_RAM_OFFSET {
            Some(PhysAddr(((self.0 as u64) - VIRT_RAM_OFFSET) as usize))
        } else {
            None
        }
    }

    /// Whether this is the null address.
    pub fn is_null(&self) -> (r: bool)
        ensures
            r == (self.0 == 0),
    {
        self.0 == 0
    }

    /// Offset of the address inside its page.
    pub fn page_offset(&self) -> (r: usize)
        ensures
            r == spec_page_offset(self.0),
    {
        offset_of(self.0)
    }

    /// Whether the address starts a page.
    pub fn aligned(&self) -> (r: bool)
        ensures
            r == (spec_page_offset(self.0) == 0),
    {
        self.page_offset() == 0
    }

    /// The page number of the page holding this address.
    pub fn floor(&self) -> (r: VirtPageNum)
        ensures
            r.0 == spec_floor(self.0),
    {
        VirtPageNum(floor_of(self.0))
    }

    /// The page number of the page holding this address.
    pub fn page_number(&self) -> (r: VirtPageNum)
        ensures
            r.0 == spec_floor(self.0),
    {
        self.floor()
    }

    /// The page number of the first page starting at or after this address.
    pub fn ceil(&self) -> (r: VirtPageNum)
        ensures
            r.0 == spec_ceil(self.0),
    {
        VirtPageNum(ceil_of(self.0))
    }

    /// The address rounded down to a page boundary.
    pub fn round_down(&self) -> (r: VirtAddr)
        ensures
            r.0 == spec_page_to_addr(spec_floor(self.0) as usize),
            r.0 == self.0 - spec_page_offset(self.0),
    {
        VirtAddr(self.0 - offset_of(self.0))
    }

    /// The address rounded up to a page boundary.
    pub fn round_up(&self) -> (r: VirtAddr)
        requires
            self.0 + PAGE_MASK <= usize::MAX,
        ensures
            r.0 == spec_page_to_addr(spec_ceil(self.0) as usize),
    {
        let c = ceil_of(self.0);
        assert(c * PAGE_SIZE <= self.0 + PAGE_MASK) by (nonlinear_arith)
            requires
                c == (self.0 + 4095) / 4096,
        ;
        VirtAddr(c * PAGE_SIZE)
    }
}

impl PhysPageNum {
    /// The page starting at `pa`; an unaligned address is a caller error.
    pub fn from_addr(pa: PhysAddr) -> (r: PhysPageNum)
        requires
            spec_page_offset(pa.0) == 0,
        ensures
            r.0 == spec_floor(pa.0),
    {
        pa.floor()
    }

    /// The raw page number.
    pub fn bits(&self) -> (r: usize)
        ensures
            r == self.0,
    {
        self.0
    }

    /// The first byte address of this page.
    pub fn to_paddr(&self) -> (r: PhysAddr)
        requires
            self.0 <= MAX_PAGE_NUM,
        ensures
            r.0 == spec_page_to_addr(self.0),
    {
        PhysAddr(self.0 * PAGE_SIZE)
    }

    /// The first byte address of this page.
    pub fn address(&self) -> (r: PhysAddr)
        requires
            self.0 <= MAX_PAGE_NUM,
        ensures
            r.0 == spec_page_to_addr(self.0),
    {
        self.to_paddr()
    }

    /// Advances to the next page.
    pub fn step(&mut self)
        requires
            old(self).0 < usize::MAX,
        ensures
            final(self).0 == old(self).0 + 1,
    {
        self.0 = self.0 + 1;
    }
}

impl VirtPageNum {
    /// The page starting at `va`; an unaligned address is a caller error.
    pub fn from_addr(va: VirtAddr) -> (r: VirtPageNum)
        requires
            spec_page_offset(va.0) == 0,
        ensures
            r.0 == spec_floor(va.0),
    {
        va.floor()
    }

    /// Table indices of this page for a `levels`-level walk, root first.
    pub fn indices(&self, levels: usize) -> (r: Vec<usize>)
        requires
            levels >= 1,
        ensures
            r@.len() == levels,
            forall|i: int| 0 <= i < levels ==> #[trigger] r@[i] == spec_index(self.0, levels as nat, i as nat),
    {
        let mut indices: Vec<usize> = Vec::with_capacity(levels);
        let mut k: usize = 0;
        while k < levels
            invariant
                k <= levels,
                indices@.len() == k,
                forall|i: int| 0 <= i < k ==> #[trigger] indices@[i] == 0,
            decreases levels - k,
        {
            indices.push(0);
            k = k + 1;
        }
        let mut vpn: usize = self.0;
        let mut done: usize = 0;
        while done < levels
            invariant
                done <= levels,
                indices@.len() == levels,
                vpn == spec_shifted(self.0 as nat, done as nat),
                forall|i: int|
                    levels - done <= i < levels ==> #[trigger] indices@[i] == spec_index(
                        self.0,
                        levels as nat,
                        i as nat,
                    ),
            decreases levels - done,
        {
            indices.set(levels - 1 - done, vpn % PTES_PER_PAGE);
            vpn = vpn / PTES_PER_PAGE;
            done = done + 1;
        }
        indices
    }

    /// The raw page number.
    pub fn bits(&self) -> (r: usize)
        ensures
            r == self.0,
    {
        self.0
    }

    /// The first byte address of this page.
    pub fn address(&self) -> (r: VirtAddr)
        requires
            self.0 <= MAX_PAGE_NUM,
        ensures
            r.0 == spec_page_to_addr(self.0),
    {
        VirtAddr(self.0 * PAGE_SIZE)
    }

    /// Advances to the next page.
    pub fn step(&mut self)
        requires
            old(self).0 < usize::MAX,
        ensures
            final(self).0 == old(self).0 + 1,
    {
        self.0 = self.0 + 1;
    }
}

} // verus!

//! Physical memory as an arena of frames addressed by page number: the
//! page table reaches its nodes only through page numbers into this arena.

use vstd::prelude::*;
use crate::addr::{PhysAddr, PhysPageNum, MAX_PAGE_NUM, PAGE_SIZE, PTES_PER_PAGE};

verus! {

/// Words held by one frame.
pub const WORDS_PER_PAGE: usize = 512;

/// Frames `[base, base + npages)`, each 512 little-endian 64-bit words.
pub struct PhysMemory {
    base: usize,
    npages: usize,
    words: Vec<u64>,
}

proof fn lemma_slot_distinct(a: int, i: int, b: int, j: int)
    requires
        0 <= a,
        0 <= b,
        0 <= i < 512,
        0 <= j < 512,
        a != b || i != j,
    ensures
        a * 512 + i != b * 512 + j,
{
    if a == b {
    } else if a < b {
        assert(a * 512 + 512 <= b * 512) by (nonlinear_arith)
            requires
                a < b,
        ;
    } else {
        assert(b * 512 + 512 <= a * 512) by (nonlinear_arith)
            requires
                b < a,
        ;
    }
}

proof fn lemma_slot_in_range(a: int, i: int, n: int)
    requires
        0 <= a < n,
        0 <= i < 512,
    ensures
        0 <= a * 512 + i < n * 512,
{
    assert(a * 512 + 512 <= n * 512) by (nonlinear_arith)
        requires
            a < n,
    ;
    assert(0 <= a * 512) by (nonlinear_arith)
        requires
            0 <= a,
    ;
}

proof fn lemma_word_in_frame(pa: int, b: int, f: int, j: int)
    requires
        0 <= b,
        b * 4096 <= pa,
        b <= f,
        0 <= j < 512,
        f != pa / 4096,
    ensures
        (pa - b * 4096) / 8 != (f - b) * 512 + j,
{
    let q = pa / 4096;
    let r = pa % 4096;
    assert(pa == q * 4096 + r && 0 <= r < 4096) by (nonlinear_arith)
        requires
            q == pa / 4096,
            r == pa % 4096,
            0 <= pa,
    ;
    assert(b <= q) by (nonlinear_arith)
        requires
            b * 4096 <= pa,
            pa == q * 4096 + r,
            r < 4096,
    ;
    let x = q - b;
    assert(pa - b * 4096 == x * 4096 + r) by (nonlinear_arith)
        requires
            pa == q * 4096 + r,
            x == q - b,
    ;
    assert((x * 4096 + r) / 8 == x * 512 + r / 8) by (nonlinear_arith)
        requires
            0 <= x,
            0 <= r < 4096,
    ;
    lemma_slot_distinct(x, r / 8, f - b, j);
}

impl PhysMemory {
    /// First frame of the arena.
    pub closed spec fn spec_base(&self) -> nat {
        self.base as nat
    }

    /// Number of frames in the arena.
    pub closed spec fn spec_npages(&self) -> nat {
        self.npages as nat
    }

    /// The arena's words fill its frames, and every byte address fits a word.
    pub closed spec fn wf(&self) -> bool {
        &&& self.words@.len() == self.npages * 512
        &&& self.base + self.npages <= MAX_PAGE_NUM
    }

    /// Whether a frame lies in the arena.
    pub open spec fn has_frame(&self, ppn: usize) -> bool {
        self.spec_base() <= ppn < self.spec_base() + self.spec_npages()
    }

    /// Entry `i` of frame `ppn`.
    pub closed spec fn spec_entry(&self, ppn: usize, i: nat) -> u64 {
        self.words@[(ppn - self.base) * 512 + i]
    }

    /// Whether a byte address lies in the arena.
    pub open spec fn has_addr(&self, pa: usize) -> bool {
        self.spec_base() * 4096 <= pa < (self.spec_base() + self.spec_npages()) * 4096
    }

    /// The byte at physical address `pa`.
    pub closed spec fn spec_byte(&self, pa: usize) -> u8 {
        let w = self.words@[(pa - self.base * 4096) / 8];
        ((w >> (8 * (pa % 8)) as u64) & 0xff) as u8
    }

    /// A zero-filled arena of `npages` frames starting at frame `base`.
    pub fn new(base: PhysPageNum, npages: usize) -> (r: PhysMemory)
        requires
            base.0 + npages <= MAX_PAGE_NUM,
        ensures
            r.wf(),
            r.spec_base() == base.0,
            r.spec_npages() == npages,
            r.spec_base() + r.spec_npages() <= MAX_PAGE_NUM,
            forall|f: usize, i: nat| r.has_frame(f) && i < 512 ==> #[trigger] r.spec_entry(f, i) == 0,
    {
        let total: usize = npages * WORDS_PER_PAGE;
        let mut words: Vec<u64> = Vec::with_capacity(total);
        let mut k: usize = 0;
        while k < total
            invariant
                k <= total,
                words@.len() == k,
                forall|m: int| 0 <= m < k ==> #[trigger] words@[m] == 0,
            decreases total - k,
        {
            words.push(0);
            k = k + 1;
        }
        let r = PhysMemory { base: base.0, npages, words };
        assert forall|f: usize, i: nat| r.has_frame(f) && i < 512 implies #[trigger] r.spec_entry(f, i) == 0 by {
            lemma_slot_in_range(f - base.0, i as int, npages as int);
        }
        r
    }

    /// First frame of the arena.
    pub fn base(&self) -> (r: PhysPageNum)
        ensures
            r.0 == self.spec_base(),
    {
        PhysPageNum(self.base)
    }

    /// Number of frames in the arena.
    pub fn npages(&self) -> (r: usize)
        ensures
            r == self.spec_npages(),
    {
        self.npages
    }

    /// Whether a frame lies in the arena.
    pub fn contains_frame(&self, ppn: PhysPageNum) -> (r: bool)
        requires
            self.wf(),
        ensures
            r == self.has_frame(ppn.0),
    {
        self.base <= ppn.0 && ppn.0 - self.base < self.npages
    }

    /// Entry `i` of frame `ppn`.
    pub fn read_entry(&self, ppn: PhysPageNum, i: usize) -> (r: u64)
        requires
            self.wf(),
            self.has_frame(ppn.0),
            i < PTES_PER_PAGE,
        ensures
            r == self.spec_entry(ppn.0, i as nat),
    {
        proof {
            lemma_slot_in_range(ppn.0 - self.base, i as int, self.npages as int);
        }
        self.words[(ppn.0 - self.base) * WORDS_PER_PAGE + i]
    }

    /// Sets entry `i` of frame `ppn`; every other entry keeps its value.
    pub fn write_entry(&mut self, ppn: PhysPageNum, i: usize, v: u64)
        requires
            old(self).wf(),
            old(self).has_frame(ppn.0),
            i < PTES_PER_PAGE,
        ensures
            final(self).wf(),
            final(self).spec_base() == old(self).spec_base(),
            final(self).spec_npages() == old(self).spec_npages(),
            final(self).spec_entry(ppn.0, i as nat) == v,
            forall|f: usize, j: nat|
                #![trigger final(self).spec_entry(f, j)]
                final(self).has_frame(f) && j < 512 && (f != ppn.0 || j != i) ==> final(self).spec_entry(f, j)
                    == old(self).spec_entry(f, j),
    {
        proof {
            lemma_slot_in_range(ppn.0 - self.base, i as int, self.npages as int);
        }
        let k = (ppn.0 - self.base) * WORDS_PER_PAGE + i;
        self.words.set(k, v);
        proof {
            assert forall|f: usize, j: nat|
                #![trigger self.spec_entry(f, j)]
                self.has_frame(f) && j < 512 && (f != ppn.0 || j != i) implies self.spec_entry(f, j)
                    == old(self).spec_entry(f, j) by {
                lemma_slot_distinct(f - self.base, j as int, ppn.0 - self.base, i as int);
                lemma_slot_in_range(f - self.base, j as int, self.npages as int);
            }
        }
    }

    /// Fills frame `ppn` with zeros; every other frame keeps its contents.
    pub fn zero_frame(&mut self, ppn: PhysPageNum)
        requires
            old(self).wf(),
            old(self).has_frame(ppn.0),
        ensures
            final(self).wf(),
            final(self).spec_base() == old(self).spec_base(),
            final(self).spec_npages() == old(self).spec_npages(),
            forall|j: nat| j < 512 ==> #[trigger] final(self).spec_entry(ppn.0, j) == 0,
            forall|f: usize, j: nat|
                #![trigger final(self).spec_entry(f, j)]
                final(self).has_frame(f) && j < 512 && f != ppn.0 ==> final(self).spec_entry(f, j)
                    == old(self).spec_entry(f, j),
    {
        let mut i: usize = 0;
        while i < PTES_PER_PAGE
            invariant
                self.wf(),
                self.has_frame(ppn.0),
                self.spec_base() == old(self).spec_base(),
                self.spec_npages() == old(self).spec_npages(),
                i <= 512,
                forall|j: nat| j < i ==> #[trigger] self.spec_entry(ppn.0, j) == 0,
                forall|f: usize, j: nat|
                    #![trigger self.spec_entry(f, j)]
                    self.has_frame(f) && j < 512 && f != ppn.0 ==> self.spec_entry(f, j)
                        == old(self).spec_entry(f, j),
            decreases 512 - i,
        {
            self.write_entry(ppn, i, 0);
            i = i + 1;
        }
    }

    /// The byte at `pa`, or `None` outside the arena.
    pub fn read_byte(&self, pa: PhysAddr) -> (r: Option<u8>)
        requires
            self.wf(),
        ensures
            r == (if self.has_addr(pa.0) { Some(self.spec_byte(pa.0)) } else { None::<u8> }),
    {
        let lo = self.base * PAGE_SIZE;
        if pa.0 < lo || (pa.0 - lo) / PAGE_SIZE >= self.npages {
            proof {
                if self.has_addr(pa.0) {
                    assert((pa.0 - lo) / 4096 < self.npages) by (nonlinear_arith)
                        requires
                            lo == self.base * 4096,
                            pa.0 < (self.base + self.npages) * 4096,
                            lo <= pa.0,
                    ;
                }
            }
            return None;
        }
        proof {
            assert(pa.0 < (self.base + self.npages) * 4096 && (pa.0 - lo) / 8 < self.npages * 512) by (nonlinear_arith)
                requires
                    lo == self.base * 4096,
                    lo <= pa.0,
                    (pa.0 - lo) / 4096 < self.npages,
            ;
        }
        let w = self.words[(pa.0 - lo) / 8];
        let shift = (8 * (pa.0 % 8)) as u64;
        Some(((w >> shift) & 0xff) as u8)
    }

    /// Sets the byte at `pa`; `false` outside the arena, where nothing changes.
    pub fn write_byte(&mut self, pa: PhysAddr, v: u8) -> (r: bool)
        requires
            old(self).wf(),
        ensures
            final(self).wf(),
            final(self).spec_base() == old(self).spec_base(),
            final(self).spec_npages() == old(self).spec_npages(),
            r == old(self).has_addr(pa.0),
            r ==> final(self).spec_byte(pa.0) == v,
            !r ==> *final(self) == *old(self),
            forall|f: usize, j: nat|
                #![trigger final(self).spec_entry(f, j)]
                final(self).has_frame(f) && j < 512 && f != pa.0 / 4096 ==> final(self).spec_entry(f, j)
                    == old(self).spec_entry(f, j),
            forall|q: usize|
                #![trigger final(self).spec_byte(q)]
                final(self).has_addr(q) && q != pa.0 ==> final(self).spec_byte(q) == old(self).spec_byte(q),
    {
        let lo = self.base * PAGE_SIZE;
        if pa.0 < lo || (pa.0 - lo) / PAGE_SIZE >= self.npages {
            proof {
                if self.has_addr(pa.0) {
                    assert((pa.0 - lo) / 4096 < self.npages) by (nonlinear_arith)
                        requires
                            lo == self.base * 4096,
                            pa.0 < (self.base + self.npages) * 4096,
                            lo <= pa.0,
                    ;
                }
            }
            return false;
        }
        proof {
            assert(pa.0 < (self.base + self.npages) * 4096 && (pa.0 - lo) / 8 < self.npages * 512) by (nonlinear_arith)
                requires
                    lo == self.base * 4096,
                    lo <= pa.0,
                    (pa.0 - lo) / 4096 < self.npages,
            ;
        }
        let k = (pa.0 - lo) / 8;
        let w = self.words[k];
        let shift = (8 * (pa.0 % 8)) as u64;
        let b = v as u64;
        let nw = (w & !(0xffu64 << shift)) | (b << shift);
        assert((nw >> shift) & 0xff == b) by (bit_vector)
            requires
                shift <= 56,
                b <= 0xff,
                nw == (w & !(0xffu64 << shift)) | (b << shift),
        ;
        self.words.set(k, nw);
        proof {
            assert forall|f: usize, j: nat|
                #![trigger self.spec_entry(f, j)]
                self.has_frame(f) && j < 512 && f != pa.0 / 4096 implies self.spec_entry(f, j)
                    == old(self).spec_entry(f, j) by {
                lemma_word_in_frame(pa.0 as int, self.base as int, f as int, j as int);
                lemma_slot_in_range(f - self.base, j as int, self.npages as int);
            }
            assert forall|q: usize|
                #![trigger self.spec_byte(q)]
                self.has_addr(q) && q != pa.0 implies self.spec_byte(q) == old(self).spec_byte(q) by {
                assert(q < (self.base + self.npages) * 4096 && (q - lo) / 8 < self.npages * 512) by (nonlinear_arith)
                    requires
                        lo == self.base * 4096,
                        lo <= q,
                        q < (self.base + self.npages) * 4096,
                ;
                if q / 8 != pa.0 / 8 {
                    assert((q - lo) / 8 != k) by (nonlinear_arith)
                        requires
                            q / 8 != pa.0 / 8,
                            lo == self.base * 4096,
                            lo <= q,
                            lo <= pa.0,
                            k == (pa.0 - lo) / 8,
                    ;
                } else {
                    assert((q - lo) / 8 == k && q % 8 != pa.0 % 8) by (nonlinear_arith)
                        requires
                            q / 8 == pa.0 / 8,
                            q != pa.0,
                            lo == self.base * 4096,
                            lo <= q,
                            lo <= pa.0,
                            k == (pa.0 - lo) / 8,
                    ;
                    let s2 = (8 * (q % 8)) as u64;
                    let a = (q % 8) as u64;
                    let c = (pa.0 % 8) as u64;
                    assert(s2 == a * 8 && shift == c * 8 && a < 8 && c < 8 && a != c);
                    assert((nw >> s2) & 0xff == (w >> s2) & 0xff) by (bit_vector)
                        requires
                            a < 8,
                            c < 8,
                            a != c,
                            s2 == a * 8,
                            shift == c * 8,
                            b <= 0xff,
                            nw == (w & !(0xffu64 << shift)) | (b << shift),
                    ;
                }
            }
        }
        true
    }
}

} // verus!

//! Physical frame allocation: a bump region plus a stack of recycled frames.

use vstd::prelude::*;
use crate::addr::PhysPageNum;
use crate::cell::OnceCell;

verus! {

/// An owned handle on one physical frame.
pub struct FrameTracker {
    pub ppn: PhysPageNum,
}

impl FrameTracker {
    /// Wraps a frame that the caller owns.
    pub fn new(ppn: PhysPageNum) -> (r: FrameTracker)
        ensures
            r.ppn == ppn,
    {
        FrameTracker { ppn }
    }
}

/// Hands out frames from `[current, end)` and reuses released frames first,
/// most recently released first.
pub struct StackFrameAllocator {
    start: usize,
    current: usize,
    end: usize,
    recycled: Vec<usize>,
}

impl StackFrameAllocator {
    /// First frame of the managed range.
    pub closed spec fn spec_start(&self) -> nat {
        self.start as nat
    }

    /// Watermark: frames at or above it have never been handed out.
    pub closed spec fn spec_current(&self) -> nat {
        self.current as nat
    }

    /// One past the last frame of the managed range.
    pub closed spec fn spec_end(&self) -> nat {
        self.end as nat
    }

    /// Released frames, the next one to be reused last.
    pub closed spec fn spec_recycled(&self) -> Seq<usize> {
        self.recycled@
    }

    /// Frames below the watermark are either held by an owner or recycled;
    /// recycled frames are distinct.
    pub open spec fn wf(&self) -> bool {
        &&& self.spec_start() <= self.spec_current() <= self.spec_end()
        &&& self.spec_recycled().no_duplicates()
        &&& forall|i: int|
            0 <= i < self.spec_recycled().len() ==> self.spec_start() <= #[trigger] self.spec_recycled()[i]
                < self.spec_current()
    }

    /// A frame that has been handed out and not released since.
    pub open spec fn is_live(&self, p: usize) -> bool {
        &&& self.spec_start() <= p < self.spec_current()
        &&& !self.spec_recycled().contains(p)
    }

    /// What `dealloc` needs: the frame is live. Releasing a frame twice, or
    /// one never handed out, is a caller error.
    pub open spec fn can_release(&self, p: usize) -> bool {
        self.wf() && self.is_live(p)
    }

    /// Frames that the allocator can still hand out, one by one.
    pub open spec fn spec_available(&self) -> nat {
        (self.spec_recycled().len() + (self.spec_end() - self.spec_current())) as nat
    }

    /// The frame that the next single allocation hands out.
    pub open spec fn spec_next_frame(&self) -> Option<usize> {
        if self.spec_recycled().len() > 0 {
            Some(self.spec_recycled().last())
        } else if self.spec_current() < self.spec_end() {
            Some(self.spec_current() as usize)
        } else {
            None
        }
    }

    /// An allocator that manages no frame.
    pub fn new() -> (r: StackFrameAllocator)
        ensures
            r.wf(),
            r.spec_start() == 0,
            r.spec_current() == 0,
            r.spec_end() == 0,
            r.spec_recycled() == Seq::<usize>::empty(),
    {
        StackFrameAllocator { start: 0, current: 0, end: 0, recycled: Vec::new() }
    }

    /// Manages the frames `[l, r)`, none of them handed out.
    pub fn init(&mut self, l: PhysPageNum, r: PhysPageNum)
        requires
            l.0 <= r.0,
        ensures
            final(self).wf(),
            final(self).spec_start() == l.0,
            final(self).spec_current() == l.0,
            final(self).spec_end() == r.0,
            final(self).spec_recycled() == Seq::<usize>::empty(),
    {
        self.start = l.0;
        self.current = l.0;
        self.end = r.0;
        self.recycled = Vec::new();
    }

    /// Takes one frame: the most recently released one if any, else the
    /// watermark frame; `None` when the range is used up.
    pub fn alloc_frame(&mut self) -> (r: Option<PhysPageNum>)
        requires
            old(self).wf(),
        ensures
            final(self).wf(),
            final(self).spec_start() == old(self).spec_start(),
            final(self).spec_end() == old(self).spec_end(),
            old(self).spec_recycled().len() > 0 ==> {
                &&& r == Some(PhysPageNum(old(self).spec_recycled().last()))
                &&& final(self).spec_recycled() == old(self).spec_recycled().drop_last()
                &&& final(self).spec_current() == old(self).spec_current()
            },
            old(self).spec_recycled().len() == 0 && old(self).spec_current() < old(
                self,
            ).spec_end() ==> {
                &&& r == Some(PhysPageNum(old(self).spec_current() as usize))
                &&& final(self).spec_recycled() == old(self).spec_recycled()
                &&& final(self).spec_current() == old(self).spec_current() + 1
            },
            old(self).spec_recycled().len() == 0 && old(self).spec_current() == old(
                self,
            ).spec_end() ==> {
                &&& r.is_none()
                &&& final(self).spec_current() == old(self).spec_current()
                &&& final(self).spec_recycled() == old(self).spec_recycled()
            },
            r.is_some() ==> !old(self).is_live(r.unwrap().0) && final(self).is_live(r.unwrap().0),
            forall|p: usize| #[trigger]
                old(self).is_live(p) ==> final(self).is_live(p),
            r.is_some() <==> old(self).spec_available() > 0,
            r.is_some() ==> final(self).spec_available() + 1 == old(self).spec_available(),
            r.is_some() == old(self).spec_next_frame().is_some(),
            r.is_some() ==> r.unwrap().0 == old(self).spec_next_frame().unwrap(),
    {
        match self.recycled.pop() {
            Some(p) => {
                proof {
                    assert(self.recycled@ =~= old(self).recycled@.drop_last());
                    assert forall|q: usize| old(self).is_live(q) implies self.is_live(q) by {
                        if self.recycled@.contains(q) {
                            let k = choose|k: int| 0 <= k < self.recycled@.len() && self.recycled@[k] == q;
                            assert(old(self).recycled@[k] == q);
                        }
                    }
                    assert(!self.recycled@.contains(p)) by {
                        if self.recycled@.contains(p) {
                            let k = choose|k: int| 0 <= k < self.recycled@.len() && self.recycled@[k] == p;
                            assert(old(self).recycled@[k] == old(self).recycled@[old(self).recycled@.len() - 1]);
                        }
                    }
                    assert(old(self).recycled@.contains(p)) by {
                        assert(old(self).recycled@[old(self).recycled@.len() - 1] == p);
                    }
                }
                Some(PhysPageNum(p))
            },
            None => {
                if self.current == self.end {
                    None
                } else {
                    let p = self.current;
                    self.current = self.current + 1;
                    Some(PhysPageNum(p))
                }
            },
        }
    }

    /// Takes `pages` consecutive frames from the watermark, in ascending
    /// order; recycled frames are never used here. `None` when fewer than
    /// `pages` frames are left above the watermark.
    pub fn allocate_physical_pages(&mut self, pages: usize) -> (r: Option<Vec<PhysPageNum>>)
        requires
            old(self).wf(),
        ensures
            final(self).wf(),
            final(self).spec_start() == old(self).spec_start(),
            final(self).spec_end() == old(self).spec_end(),
            final(self).spec_recycled() == old(self).spec_recycled(),
            r.is_some() <==> old(self).spec_current() + pages <= old(self).spec_end(),
            r.is_none() ==> *final(self) == *old(self),
            r.is_some() ==> {
                &&& final(self).spec_current() == old(self).spec_current() + pages
                &&& r.unwrap()@.len() == pages
                &&& forall|i: int|
                    0 <= i < pages ==> #[trigger] r.unwrap()@[i].0 == old(self).spec_current() + i
            },
    {
        if pages > self.end - self.current {
            None
        } else {
            let start = self.current;
            self.current = self.current + pages;
            let mut result: Vec<PhysPageNum> = Vec::with_capacity(pages);
            let mut i: usize = 0;
            while i < pages
                invariant
                    i <= pages,
                    start + pages <= usize::MAX,
                    result@.len() == i,
                    forall|k: int| 0 <= k < i ==> #[trigger] result@[k].0 == start + k,
                decreases pages - i,
            {
                result.push(PhysPageNum(start + i));
                i = i + 1;
            }
            Some(result)
        }
    }

    /// Returns a live frame to the allocator, to be reused first.
    pub fn dealloc(&mut self, ppn: PhysPageNum)
        requires
            old(self).can_release(ppn.0),
        ensures
            final(self).wf(),
            final(self).spec_start() == old(self).spec_start(),
            final(self).spec_current() == old(self).spec_current(),
            final(self).spec_end() == old(self).spec_end(),
            final(self).spec_recycled() == old(self).spec_recycled().push(ppn.0),
            !final(self).is_live(ppn.0),
            forall|p: usize| p != ppn.0 ==> (#[trigger] final(self).is_live(p) <==> old(self).is_live(p)),
    {
        self.recycled.push(ppn.0);
        proof {
            assert(self.recycled@.last() == ppn.0);
            assert forall|p: usize| p != ppn.0 implies (#[trigger] self.recycled@.contains(p) <==> old(self).recycled@.contains(p)) by {
                if self.recycled@.contains(p) {
                    let k = choose|k: int| 0 <= k < self.recycled@.len() && self.recycled@[k] == p;
                    assert(k < old(self).recycled@.len());
                    assert(old(self).recycled@[k] == p);
                }
                if old(self).recycled@.contains(p) {
                    let k = choose|k: int| 0 <= k < old(self).recycled@.len() && old(self).recycled@[k] == p;
                    assert(self.recycled@[k] == p);
                }
            }
        }
    }
}

/// A frame just released is the next one handed out, and releasing it again
/// before that is not admitted.
pub proof fn lemma_release_then_alloc(before: StackFrameAllocator, after: StackFrameAllocator, p: usize)
    requires
        before.wf(),
        before.is_live(p),
        after.spec_start() == before.spec_start(),
        after.spec_current() == before.spec_current(),
        after.spec_end() == before.spec_end(),
        after.spec_recycled() == before.spec_recycled().push(p),
    ensures
        after.spec_next_frame() == Some(p),
        !after.is_live(p),
        !after.can_release(p),
{
    assert(after.spec_recycled()[after.spec_recycled().len() - 1] == p);
}

/// Installs the allocator that the kernel uses from now on; installing a
/// second one is a caller error.
pub fn init_frame_allocator(slot: &mut OnceCell<StackFrameAllocator>, allocator: StackFrameAllocator)
    requires
        old(slot).spec_value().is_none(),
    ensures
        final(slot).spec_value() == Some(allocator),
{
    slot.init(allocator);
}

/// Takes one frame from `allocator` as an owned handle.
pub fn frame_alloc(allocator: &mut StackFrameAllocator) -> (r: Option<FrameTracker>)
    requires
        old(allocator).wf(),
    ensures
        final(allocator).wf(),
        final(allocator).spec_start() == old(allocator).spec_start(),
        final(allocator).spec_end() == old(allocator).spec_end(),
        r.is_some() <==> old(allocator).spec_available() > 0,
        r.is_some() == old(allocator).spec_next_frame().is_some(),
        r.is_some() ==> r.unwrap().ppn.0 == old(allocator).spec_next_frame().unwrap(),
        old(allocator).spec_recycled().len() > 0 ==> {
            &&& final(allocator).spec_recycled() == old(allocator).spec_recycled().drop_last()
            &&& final(allocator).spec_current() == old(allocator).spec_current()
        },
        old(allocator).spec_recycled().len() == 0 ==> {
            &&& final(allocator).spec_recycled() == old(allocator).spec_recycled()
            &&& final(allocator).spec_current() == old(allocator).spec_current() + (if r.is_some() {
                1int
            } else {
                0int
            })
        },
        r.is_some() ==> !old(allocator).is_live(r.unwrap().ppn.0) && final(allocator).is_live(r.unwrap().ppn.0),
        r.is_some() ==> final(allocator).spec_available() + 1 == old(allocator).spec_available(),
        r.is_none() ==> final(allocator).spec_available() == 0,
        forall|p: usize| #[trigger] old(allocator).is_live(p) ==> final(allocator).is_live(p),
{
    match allocator.alloc_frame() {
        Some(p) => Some(FrameTracker::new(p)),
        None => None,
    }
}

/// Takes `num` consecutive frames from `allocator` as owned handles;
/// asking for none always succeeds and takes nothing.
pub fn frame_alloc_physical_pages(allocator: &mut StackFrameAllocator, num: usize) -> (r: Option<Vec<FrameTracker>>)
    requires
        old(allocator).wf(),
    ensures
        final(allocator).wf(),
        num == 0 ==> r.is_some() && r.unwrap()@.len() == 0,
        num == 0 ==> *final(allocator) == *old(allocator),
        r.is_some() <==> old(allocator).spec_current() + num <= old(allocator).spec_end(),
        r.is_some() ==> {
            &&& r.unwrap()@.len() == num
            &&& final(allocator).spec_current() == old(allocator).spec_current() + num
            &&& forall|i: int|
                0 <= i < num ==> #[trigger] r.unwrap()@[i].ppn.0 == old(allocator).spec_current() + i
        },
        r.is_none() ==> *final(allocator) == *old(allocator),
{
    if num == 0 {
        return Some(Vec::new());
    }
    match allocator.allocate_physical_pages(num) {
        Some(ppns) => {
            let mut out: Vec<FrameTracker> = Vec::with_capacity(num);
            let mut i: usize = 0;
            while i < ppns.len()
                invariant
                    i <= ppns@.len(),
                    out@.len() == i,
                    forall|k: int| 0 <= k < i ==> #[trigger] out@[k].ppn == ppns@[k],
                decreases ppns@.len() - i,
            {
                out.push(FrameTracker::new(ppns[i]));
                i = i + 1;
            }
            Some(out)
        },
        None => None,
    }
}

/// Returns a live frame to `allocator`.
pub fn frame_dealloc(allocator: &mut StackFrameAllocator, ppn: PhysPageNum)
    requires
        old(allocator).wf(),
        old(allocator).is_live(ppn.0),
    ensures
        final(allocator).wf(),
        final(allocator).spec_start() == old(allocator).spec_start(),
        final(allocator).spec_current() == old(allocator).spec_current(),
        final(allocator).spec_end() == old(allocator).spec_end(),
        final(allocator).spec_recycled() == old(allocator).spec_recycled().push(ppn.0),
        !final(allocator).is_live(ppn.0),
        forall|p: usize| p != ppn.0 ==> (#[trigger] final(allocator).is_live(p) <==> old(allocator).is_live(p)),
{
    allocator.dealloc(ppn);
}

} // verus!

use mantahal::addr::PhysPageNum;
use mantahal::cell::OnceCell;
use mantahal::frame_allocator::{
    frame_alloc, frame_alloc_physical_pages, frame_dealloc, init_frame_allocator, FrameTracker,
    StackFrameAllocator,
};

fn allocator(l: usize, r: usize) -> StackFrameAllocator {
    let mut a = StackFrameAllocator::new();
    a.init(PhysPageNum(l), PhysPageNum(r));
    a
}

#[test]
fn sequential_allocation_covers_range_then_exhausts() {
    let mut a = allocator(0x80000, 0x80400);
    for k in 0..1024usize {
        assert_eq!(a.alloc_frame(), Some(PhysPageNum(0x80000 + k)));
    }
    assert_eq!(a.alloc_frame(), None);
}

#[test]
fn released_frame_is_reused_first() {
    let mut a = allocator(0x80000, 0x80400);
    let p = a.alloc_frame().unwrap();
    let q = a.alloc_frame().unwrap();
    assert_eq!(q, PhysPageNum(0x80001));
    a.dealloc(p);
    assert_eq!(a.alloc_frame(), Some(p));
    a.dealloc(q);
    a.dealloc(p);
    assert_eq!(a.alloc_frame(), Some(p));
    assert_eq!(a.alloc_frame(), Some(q));
    assert_eq!(a.alloc_frame(), Some(PhysPageNum(0x80002)));
}

#[test]
fn contiguous_allocation_is_ascending_and_ignores_recycled() {
    let mut a = allocator(0x100, 0x110);
    let p = a.alloc_frame().unwrap();
    a.dealloc(p);
    let run = a.allocate_physical_pages(4).unwrap();
    assert_eq!(run, vec![PhysPageNum(0x101), PhysPageNum(0x102), PhysPageNum(0x103), PhysPageNum(0x104)]);
    assert_eq!(a.alloc_frame(), Some(p));
    assert_eq!(a.allocate_physical_pages(12), None);
    let rest = a.allocate_physical_pages(11).unwrap();
    assert_eq!(rest.len(), 11);
    assert_eq!(rest[10], PhysPageNum(0x10f));
    assert_eq!(a.allocate_physical_pages(1), None);
    assert_eq!(a.allocate_physical_pages(0), Some(vec![]));
}

#[test]
fn handles_wrap_frames() {
    let mut a = allocator(0x10, 0x14);
    let t = frame_alloc(&mut a).unwrap();
    assert_eq!(t.ppn, PhysPageNum(0x10));
    frame_dealloc(&mut a, t.ppn);
    let t = frame_alloc(&mut a).unwrap();
    assert_eq!(t.ppn, PhysPageNum(0x10));
    let run = frame_alloc_physical_pages(&mut a, 3).unwrap();
    let ppns: Vec<PhysPageNum> = run.iter().map(|f| f.ppn).collect();
    assert_eq!(ppns, vec![PhysPageNum(0x11), PhysPageNum(0x12), PhysPageNum(0x13)]);
    assert!(frame_alloc(&mut a).is_none());
    assert!(frame_alloc_physical_pages(&mut a, 1).is_none());
    assert_eq!(frame_alloc_physical_pages(&mut a, 0).unwrap().len(), 0);
    frame_dealloc(&mut a, t.ppn);
    assert_eq!(frame_alloc(&mut a).unwrap().ppn, PhysPageNum(0x10));
    assert_eq!(FrameTracker::new(PhysPageNum(9)).ppn, PhysPageNum(9));
}

#[test]
fn empty_allocator_has_nothing() {
    let mut a = StackFrameAllocator::new();
    assert_eq!(a.alloc_frame(), None);
    assert_eq!(a.allocate_physical_pages(1), None);
}

#[test]
fn allocator_is_installed_once() {
    let mut slot: OnceCell<StackFrameAllocator> = OnceCell::new();
    assert!(!slot.is_initialized());
    init_frame_allocator(&mut slot, allocator(1, 2));
    assert!(slot.is_initialized());
}
